use mayastor::child::ChildState;
use mayastor::nexus::{Nexus, ShareProtocol};
use mayastor::rebuild::RebuildState;

const BDEVNAME1: &str = "aio:///tmp/disk1.img?blk_size=512";
const BDEVNAME2: &str = "aio:///tmp/disk2.img?blk_size=512";
const NEXUS_NAME: &str = "rebuild_test";
const NEXUS_SIZE: u64 = 10 * 1024 * 1024; // 10MiB

fn pseudo_random(len: usize, seed: u64) -> Vec<u8> {
    let mut x = seed;
    (0..len)
        .map(|_| {
            x = x.wrapping_mul(6364136223846793005).wrapping_add(1442695040888963407);
            (x >> 33) as u8
        })
        .collect()
}

#[test]
fn rebuild_test() {
    let ch = vec![BDEVNAME1.to_string()];
    let mut nexus = Nexus::new(NEXUS_NAME.to_string(), NEXUS_SIZE, &ch).unwrap();
    let device = nexus.share(ShareProtocol::Nbd, None).unwrap();
    assert_eq!(device, "nbd:///rebuild_test");

    let data = pseudo_random((NEXUS_SIZE / 1024) as usize * 1024, 7);
    nexus.write(0, &data).unwrap();
    assert_eq!(nexus.read(0, NEXUS_SIZE).unwrap(), data);
    assert_eq!(nexus.children[0].data, data);

    nexus.add_child(BDEVNAME2).unwrap();
    assert_ne!(nexus.children[1].data, data);
    assert_eq!(nexus.children[1].state, ChildState::Degraded);

    nexus.start_rebuild(BDEVNAME2).unwrap();
    let mut steps = 0;
    let state = loop {
        let st = nexus.rebuild_step(BDEVNAME2).unwrap();
        steps += 1;
        if st != RebuildState::Running {
            break st;
        }
        assert!(steps < 1000, "timed out waiting for the rebuild to complete");
    };
    assert_eq!(state, RebuildState::Completed);
    assert_eq!(nexus.children[1].state, ChildState::Online);
    assert_eq!(nexus.children[0].data, nexus.children[1].data);
}

use mayastor::child::{Child, ChildState};
use mayastor::error::Error;
use mayastor::naming::{name_to_uuid, uuid_to_name};
use mayastor::nexus::{Nexus, NexusState, ShareProtocol, REBUILD_SEGMENT};
use mayastor::rebuild::{RebuildJob, RebuildState};
use mayastor::registry::Registry;

const UUID: &str = "4F6A9C2E-1B3D-4E5F-8A7B-9C0D1E2F3A4B";
const CANON: &str = "4f6a9c2e-1b3d-4e5f-8a7b-9c0d1e2f3a4b";

fn two_children(size: u64) -> Nexus {
    let ch = vec!["a".to_string(), "b".to_string()];
    Nexus::new("n".to_string(), size, &ch).unwrap()
}

fn rebuild_to_end(n: &mut Nexus, uri: &str) -> RebuildState {
    loop {
        let st = n.rebuild_step(uri).unwrap();
        if st != RebuildState::Running {
            return st;
        }
    }
}

#[test]
fn uuid_to_name_canonicalises() {
    assert_eq!(uuid_to_name(UUID).unwrap(), format!("nexus-{}", CANON));
    assert_eq!(
        uuid_to_name("4f6a9c2e1b3d4e5f8a7b9c0d1e2f3a4b").unwrap(),
        format!("nexus-{}", CANON)
    );
}

#[test]
fn uuid_to_name_rejects_bad_uuid() {
    assert_eq!(
        uuid_to_name("not-a-uuid"),
        Err(Error::InvalidUuid { uuid: "not-a-uuid".to_string() })
    );
    assert!(uuid_to_name("").is_err());
}

#[test]
fn name_round_trip() {
    let name = uuid_to_name(UUID).unwrap();
    assert_eq!(name_to_uuid(&name), CANON);
    assert_eq!(name_to_uuid(&uuid_to_name(CANON).unwrap()), CANON);
}

#[test]
fn name_to_uuid_passes_other_names_through() {
    assert_eq!(name_to_uuid("rebuild_test"), "rebuild_test");
    assert_eq!(name_to_uuid("nexus"), "nexus");
    assert_eq!(name_to_uuid("nexus-"), "");
    assert_eq!(name_to_uuid("nexus-abc"), "abc");
    assert_eq!(name_to_uuid(""), "");
}

#[test]
fn child_io_rules() {
    let mut c = Child::new("x".to_string(), 8);
    assert_eq!(c.state, ChildState::Init);
    assert!(c.read(0, 1).is_err());
    assert!(c.write(0, &[1]).is_err());
    c.open().unwrap();
    assert!(matches!(c.open(), Err(Error::ChildNotAvailable { .. })));
    c.write(2, &[9, 8]).unwrap();
    assert_eq!(c.read(0, 8).unwrap(), vec![0, 0, 9, 8, 0, 0, 0, 0]);
    assert!(c.read(7, 2).is_err());
    assert!(c.write(7, &[1, 2]).is_err());
    c.fault();
    assert_eq!(c.state, ChildState::Faulted);
    c.fault();
    assert_eq!(c.state, ChildState::Faulted);
    assert!(c.read(0, 1).is_err());
    c.close();
    assert_eq!(c.state, ChildState::Closed);
}

#[test]
fn write_is_mirrored_to_online_children() {
    let mut n = two_children(16);
    n.write(4, &[1, 2, 3]).unwrap();
    for c in &n.children {
        assert_eq!(&c.data[4..7], &[1, 2, 3]);
    }
    assert_eq!(n.read(3, 5).unwrap(), vec![0, 1, 2, 3, 0]);
    assert!(matches!(n.write(15, &[1, 2]), Err(Error::DeviceIoError { .. })));
    assert!(n.read(10, 7).is_err());
}

#[test]
fn write_reaches_degraded_but_not_faulted() {
    let mut n = two_children(8);
    n.add_child("c").unwrap();
    n.offline_child("b").unwrap();
    n.write(0, &[5, 5]).unwrap();
    assert_eq!(&n.children[0].data[0..2], &[5, 5]);
    assert_eq!(&n.children[1].data[0..2], &[0, 0]);
    assert_eq!(&n.children[2].data[0..2], &[5, 5]);
}

#[test]
fn offline_last_child_faults_nexus() {
    let mut n = two_children(8);
    n.offline_child("a").unwrap();
    assert_eq!(n.state, NexusState::Open);
    n.offline_child("b").unwrap();
    assert_eq!(n.state, NexusState::Faulted);
    assert!(matches!(n.write(0, &[1]), Err(Error::DeviceIoError { .. })));
    assert!(n.read(0, 1).is_err());
    assert!(matches!(n.offline_child("zz"), Err(Error::ChildNotFound { .. })));
}

#[test]
fn online_child_returns_degraded() {
    let mut n = two_children(8);
    n.offline_child("b").unwrap();
    n.online_child("b").unwrap();
    assert_eq!(n.children[1].state, ChildState::Degraded);
    n.online_child("a").unwrap();
    assert_eq!(n.children[0].state, ChildState::Online);
    assert!(matches!(n.online_child("zz"), Err(Error::ChildNotFound { .. })));
}

#[test]
fn duplicate_children_rejected() {
    let ch = vec!["a".to_string(), "a".to_string()];
    assert!(matches!(
        Nexus::new("n".to_string(), 8, &ch),
        Err(Error::ChildAlreadyExists { .. })
    ));
    let mut n = two_children(8);
    assert!(matches!(n.add_child("a"), Err(Error::ChildAlreadyExists { .. })));
    assert_eq!(n.children.len(), 2);
}

#[test]
fn second_rebuild_fails() {
    let mut n = two_children(200_000);
    n.add_child("c").unwrap();
    n.start_rebuild("c").unwrap();
    n.rebuild_step("c").unwrap();
    let before = (n.rebuilds[0].cursor, n.rebuilds[0].state);
    assert_eq!(
        n.start_rebuild("c"),
        Err(Error::RebuildJobAlreadyExists { child: "c".to_string() })
    );
    assert_eq!(n.rebuilds.len(), 1);
    assert_eq!((n.rebuilds[0].cursor, n.rebuilds[0].state), before);
}

#[test]
fn start_rebuild_errors() {
    let mut n = two_children(8);
    assert!(matches!(n.start_rebuild("zz"), Err(Error::ChildNotFound { .. })));
    assert!(matches!(n.start_rebuild("a"), Err(Error::ChildNotAvailable { .. })));
    assert!(n.rebuilds.is_empty());
}

#[test]
fn rebuild_copies_and_promotes() {
    let mut n = two_children(REBUILD_SEGMENT * 2 + 10);
    n.write(REBUILD_SEGMENT - 1, &[7, 7, 7]).unwrap();
    n.add_child("c").unwrap();
    n.start_rebuild("c").unwrap();
    assert_eq!(n.get_rebuild_state("c").unwrap(), RebuildState::Running);
    assert_eq!(n.get_rebuild_progress("c").unwrap(), 0);
    assert_eq!(n.rebuild_step("c").unwrap(), RebuildState::Running);
    // a write during the rebuild lands on the target too
    n.write(REBUILD_SEGMENT * 2, &[3]).unwrap();
    assert_eq!(n.get_rebuild_progress("c").unwrap(), 49);
    assert_eq!(rebuild_to_end(&mut n, "c"), RebuildState::Completed);
    assert_eq!(n.children[2].state, ChildState::Online);
    assert_eq!(n.children[2].data, n.children[0].data);
    assert_eq!(n.children[2].data[REBUILD_SEGMENT as usize * 2], 3);
    assert!(n.rebuilds.is_empty());
}

#[test]
fn stop_after_completed_fails() {
    let mut n = two_children(100);
    n.add_child("c").unwrap();
    n.start_rebuild("c").unwrap();
    assert_eq!(rebuild_to_end(&mut n, "c"), RebuildState::Completed);
    assert_eq!(
        n.stop_rebuild("c"),
        Err(Error::RebuildJobNotFound { child: "c".to_string() })
    );
    assert!(matches!(n.get_rebuild_state("c"), Err(Error::RebuildJobNotFound { .. })));
    assert!(matches!(n.get_rebuild_progress("c"), Err(Error::RebuildJobNotFound { .. })));
    assert!(matches!(n.rebuild_step("c"), Err(Error::RebuildJobNotFound { .. })));
}

#[test]
fn stop_rebuild_faults_target() {
    let mut n = two_children(REBUILD_SEGMENT * 3);
    n.add_child("c").unwrap();
    n.start_rebuild("c").unwrap();
    n.rebuild_step("c").unwrap();
    n.stop_rebuild("c").unwrap();
    assert_eq!(n.children[2].state, ChildState::Faulted);
    assert!(n.rebuilds.is_empty());
}

#[test]
fn rebuild_fails_without_source() {
    let ch = vec!["a".to_string()];
    let mut n = Nexus::new("n".to_string(), REBUILD_SEGMENT * 3, &ch).unwrap();
    n.add_child("c").unwrap();
    n.start_rebuild("c").unwrap();
    n.offline_child("a").unwrap();
    assert_eq!(n.rebuild_step("c").unwrap(), RebuildState::Failed);
    assert_eq!(n.children[1].state, ChildState::Faulted);
    assert!(n.rebuilds.is_empty());
}

#[test]
fn remove_last_online_child_fails() {
    let ch = vec!["a".to_string()];
    let mut n = Nexus::new("n".to_string(), 8, &ch).unwrap();
    n.add_child("c").unwrap();
    assert_eq!(
        n.remove_child("a"),
        Err(Error::LastChildRemove { name: "n".to_string(), child: "a".to_string() })
    );
    assert_eq!(n.children.len(), 2);
    assert_eq!(n.children[0].uri, "a");
    assert_eq!(n.children[1].uri, "c");
    n.remove_child("c").unwrap();
    assert_eq!(n.children.len(), 1);
    assert!(matches!(n.remove_child("zz"), Err(Error::ChildNotFound { .. })));
}

#[test]
fn remove_child_stops_its_rebuild() {
    let mut n = two_children(REBUILD_SEGMENT * 2);
    n.add_child("c").unwrap();
    n.start_rebuild("c").unwrap();
    n.remove_child("c").unwrap();
    assert!(n.rebuilds.is_empty());
    assert_eq!(n.children.len(), 2);
    n.remove_child("a").unwrap();
    assert_eq!(n.children[0].uri, "b");
}

#[test]
fn rebuild_job_state_machine() {
    let mut j = RebuildJob::new("s".to_string(), "t".to_string(), 10, 4);
    assert_eq!(j.progress(), 0);
    assert_eq!(j.next_segment(), None);
    assert!(!j.transition(RebuildState::Paused));
    assert!(j.transition(RebuildState::Running));
    assert_eq!(j.next_segment(), Some((0, 4)));
    j.advance();
    assert_eq!(j.progress(), 40);
    assert!(j.transition(RebuildState::Paused));
    assert_eq!(j.next_segment(), None);
    assert!(j.transition(RebuildState::Running));
    j.advance();
    assert_eq!(j.next_segment(), Some((8, 2)));
    j.advance();
    assert_eq!(j.state, RebuildState::Completed);
    assert_eq!(j.progress(), 100);
    assert!(!j.transition(RebuildState::Stopped));
    let empty = RebuildJob::new("s".to_string(), "t".to_string(), 0, 4);
    assert_eq!(empty.progress(), 100);
}

#[test]
fn share_is_idempotent() {
    let mut n = two_children(8);
    let p = n.share(ShareProtocol::Iscsi, None).unwrap();
    assert_eq!(p, "iscsi:///n");
    assert_eq!(n.state, NexusState::Shared);
    assert_eq!(n.share(ShareProtocol::Nvmf, None).unwrap(), p);
    n.unshare().unwrap();
    assert_eq!(n.state, NexusState::Unshared);
    assert!(n.share.is_none());
    n.unshare().unwrap();
    assert_eq!(n.share(ShareProtocol::Nvmf, None).unwrap(), "nvmf:///n");
}

#[test]
fn protocol_codes() {
    assert_eq!(ShareProtocol::from_code(0), Some(ShareProtocol::Nbd));
    assert_eq!(ShareProtocol::from_code(1), Some(ShareProtocol::Iscsi));
    assert_eq!(ShareProtocol::from_code(2), Some(ShareProtocol::Nvmf));
    assert_eq!(ShareProtocol::from_code(3), None);
    assert_eq!(ShareProtocol::from_code(-1), None);
}

#[test]
fn destroy_closes_everything() {
    let mut n = two_children(8);
    n.share(ShareProtocol::Nbd, None).unwrap();
    n.add_child("c").unwrap();
    n.start_rebuild("c").unwrap();
    n.destroy().unwrap();
    assert_eq!(n.state, NexusState::Closed);
    assert!(n.share.is_none());
    assert!(n.rebuilds.is_empty());
    assert!(n.children.iter().all(|c| c.state == ChildState::Closed));
}

#[test]
fn registry_create_and_list() {
    let mut r = Registry::new();
    let ch = vec!["a".to_string(), "b".to_string()];
    r.create_nexus(UUID, 64, &ch).unwrap();
    assert!(matches!(r.create_nexus(CANON, 64, &ch), Err(Error::NameExists { .. })));
    assert!(matches!(r.create_nexus("bad", 64, &ch), Err(Error::InvalidUuid { .. })));
    r.nexus_create("plain", 32, &vec!["z".to_string()]).unwrap();
    let l = r.list_nexus();
    assert_eq!(l.len(), 2);
    assert_eq!(l[0].uuid, CANON);
    assert_eq!(l[0].size, 64);
    assert_eq!(l[0].state, NexusState::Open);
    assert_eq!(l[0].children.len(), 2);
    assert_eq!(l[0].children[1].uri, "b");
    assert_eq!(l[0].children[1].state, ChildState::Online);
    assert_eq!(l[0].device_path, "");
    assert_eq!(l[0].rebuilds, 0);
    assert_eq!(l[1].uuid, "plain");
}

#[test]
fn publish_key_rules() {
    let mut r = Registry::new();
    r.create_nexus(UUID, 64, &vec!["a".to_string()]).unwrap();
    assert_eq!(r.publish_nexus(UUID, "abcde", 0), Err(Error::InvalidKey));
    assert!(r.nexuses[0].share.is_none());
    assert_eq!(
        r.publish_nexus(UUID, "", 9),
        Err(Error::InvalidShareProtocol { sp_value: 9 })
    );
    let p1 = r.publish_nexus(UUID, "", 0).unwrap();
    assert!(r.nexuses[0].share.as_ref().unwrap().key.is_none());
    let p2 = r.publish_nexus(UUID, "", 0).unwrap();
    assert_eq!(p1, p2);
    assert_eq!(p1, format!("nbd:///nexus-{}", CANON));
    assert_eq!(r.list_nexus()[0].device_path, p1);
    r.unpublish_nexus(UUID).unwrap();
    let p3 = r.publish_nexus(UUID, "0123456789abcdef", 2).unwrap();
    assert_eq!(p3, format!("nvmf:///nexus-{}", CANON));
    assert_eq!(
        r.nexuses[0].share.as_ref().unwrap().key,
        Some("0123456789abcdef".to_string())
    );
}

#[test]
fn destroy_unknown_nexus() {
    let mut r = Registry::new();
    r.create_nexus(UUID, 64, &vec!["a".to_string()]).unwrap();
    let other = "11111111-2222-3333-4444-555555555555";
    assert_eq!(
        r.destroy_nexus(other),
        Err(Error::NexusNotFound { name: other.to_string() })
    );
    assert_eq!(r.nexuses.len(), 1);
    assert!(matches!(r.destroy_nexus("x"), Err(Error::InvalidUuid { .. })));
    r.destroy_nexus(UUID).unwrap();
    assert!(r.nexuses.is_empty());
    r.create_nexus(UUID, 64, &vec!["a".to_string()]).unwrap();
}

#[test]
fn registry_child_and_rebuild_commands() {
    let mut r = Registry::new();
    r.create_nexus(UUID, REBUILD_SEGMENT + 5, &vec!["a".to_string()]).unwrap();
    assert!(matches!(r.add_child_nexus("x", "b"), Err(Error::InvalidUuid { .. })));
    r.add_child_nexus(UUID, "b").unwrap();
    r.start_rebuild(UUID, "b").unwrap();
    assert_eq!(r.get_rebuild_state(UUID, "b").unwrap(), RebuildState::Running);
    assert_eq!(r.rebuild_step(UUID, "b").unwrap(), RebuildState::Running);
    assert_eq!(r.get_rebuild_progress(UUID, "b").unwrap(), 99);
    assert_eq!(r.list_nexus()[0].rebuilds, 1);
    assert_eq!(r.rebuild_step(UUID, "b").unwrap(), RebuildState::Completed);
    assert!(matches!(r.stop_rebuild(UUID, "b"), Err(Error::RebuildJobNotFound { .. })));
    r.remove_child_nexus(UUID, "a").unwrap();
    assert!(matches!(
        r.remove_child_nexus(UUID, "b"),
        Err(Error::LastChildRemove { .. })
    ));
    let other = "11111111-2222-3333-4444-555555555555";
    assert!(matches!(r.start_rebuild(other, "b"), Err(Error::NexusNotFound { .. })));
}

#[test]
fn pause_and_resume_rebuild() {
    let mut n = two_children(REBUILD_SEGMENT * 2);
    n.add_child("c").unwrap();
    n.start_rebuild("c").unwrap();
    assert_eq!(n.rebuild_step("c").unwrap(), RebuildState::Running);
    n.pause_rebuild("c").unwrap();
    assert_eq!(n.get_rebuild_state("c").unwrap(), RebuildState::Paused);
    assert_eq!(n.rebuild_step("c").unwrap(), RebuildState::Paused);
    assert_eq!(n.get_rebuild_progress("c").unwrap(), 50);
    n.resume_rebuild("c").unwrap();
    assert_eq!(n.get_rebuild_state("c").unwrap(), RebuildState::Running);
    assert_eq!(n.rebuild_step("c").unwrap(), RebuildState::Completed);
    assert!(matches!(n.pause_rebuild("c"), Err(Error::RebuildJobNotFound { .. })));
    assert!(matches!(n.resume_rebuild("c"), Err(Error::RebuildJobNotFound { .. })));
}

#[test]
fn state_names() {
    assert_eq!(ChildState::Online.name(), "online");
    assert_eq!(ChildState::Degraded.name(), "degraded");
    assert_eq!(ChildState::Faulted.name(), "faulted");
    assert_eq!(RebuildState::Completed.name(), "completed");
    assert_eq!(RebuildState::Paused.name(), "paused");
    assert_eq!(NexusState::Shared.name(), "shared");
    assert_eq!(NexusState::Faulted.name(), "faulted");
}

#[test]
fn rebuild_to_end_runs_job_out() {
    let mut n = two_children(REBUILD_SEGMENT * 3 + 1);
    n.write(REBUILD_SEGMENT * 3, &[42]).unwrap();
    n.add_child("c").unwrap();
    assert!(matches!(n.rebuild_to_end("c"), Err(Error::RebuildJobNotFound { .. })));
    n.start_rebuild("c").unwrap();
    assert_eq!(n.rebuild_to_end("c").unwrap(), RebuildState::Completed);
    assert_eq!(n.children[2].state, ChildState::Online);
    assert_eq!(n.children[2].data, n.children[1].data);
    assert_eq!(n.children[2].data[REBUILD_SEGMENT as usize * 3], 42);

    n.offline_child("c").unwrap();
    n.online_child("c").unwrap();
    n.start_rebuild("c").unwrap();
    n.pause_rebuild("c").unwrap();
    assert_eq!(n.rebuild_to_end("c").unwrap(), RebuildState::Paused);
}

#[test]
fn registry_offline_online() {
    let mut r = Registry::new();
    r.create_nexus(UUID, 16, &vec!["a".to_string(), "b".to_string()]).unwrap();
    r.offline_child(UUID, "b").unwrap();
    assert_eq!(r.list_nexus()[0].children[1].state, ChildState::Faulted);
    r.online_child(UUID, "b").unwrap();
    assert_eq!(r.list_nexus()[0].children[1].state, ChildState::Degraded);
    assert!(matches!(r.offline_child(UUID, "zz"), Err(Error::ChildNotFound { .. })));
    assert!(matches!(r.online_child("bad", "b"), Err(Error::InvalidUuid { .. })));
}

#[test]
fn name_of_canonical_prefixes() {
    assert_eq!(mayastor::naming::name_of_canonical(CANON), format!("nexus-{}", CANON));
    assert_eq!(mayastor::naming::name_of_canonical(""), "nexus-");
}

#[test]
fn registry_rebuild_errors() {
    let mut r = Registry::new();
    r.create_nexus(UUID, REBUILD_SEGMENT * 2, &vec!["a".to_string()]).unwrap();
    r.add_child_nexus(UUID, "b").unwrap();
    assert!(matches!(r.add_child_nexus(UUID, "b"), Err(Error::ChildAlreadyExists { .. })));
    assert!(matches!(r.start_rebuild(UUID, "zz"), Err(Error::ChildNotFound { .. })));
    r.start_rebuild(UUID, "b").unwrap();
    assert_eq!(
        r.start_rebuild(UUID, "b"),
        Err(Error::RebuildJobAlreadyExists { child: "b".to_string() })
    );
    assert_eq!(r.list_nexus()[0].rebuilds, 1);
    r.stop_rebuild(UUID, "b").unwrap();
    assert_eq!(r.list_nexus()[0].children[1].state, ChildState::Faulted);
    assert!(matches!(r.get_rebuild_state(UUID, "b"), Err(Error::RebuildJobNotFound { .. })));
    assert!(matches!(r.get_rebuild_progress(UUID, "b"), Err(Error::RebuildJobNotFound { .. })));
    assert!(matches!(r.rebuild_step(UUID, "b"), Err(Error::RebuildJobNotFound { .. })));
    assert!(matches!(r.remove_child_nexus(UUID, "zz"), Err(Error::ChildNotFound { .. })));
}

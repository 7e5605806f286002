use vstd::prelude::*;

use crate::child::{in_range, write_range, Child, ChildState};
use crate::error::Error;
use crate::naming::{chars_of, string_of};
use crate::rebuild::{RebuildJob, RebuildState};

verus! {

/// Lifecycle of a nexus.
#[derive(Debug, Clone, Copy, PartialEq, Eq, Structural)]
pub enum NexusState {
    Init,
    Open,
    Shared,
    Unshared,
    Closing,
    Closed,
    Faulted,
}

/// The protocols over which a nexus can be exposed.
#[derive(Debug, Clone, Copy, PartialEq, Eq, Structural)]
pub enum ShareProtocol {
    Nbd,
    Iscsi,
    Nvmf,
}

/// The one exposure of a nexus: its protocol, device path and key.
#[derive(Debug)]
pub struct Share {
    pub protocol: ShareProtocol,
    pub device_path: String,
    pub key: Option<String>,
}

/// Length of each segment that a rebuild copies at a time.
pub const REBUILD_SEGMENT: u64 = 65536;

/// A virtual block device mirrored over its children.
#[derive(Debug)]
pub struct Nexus {
    pub name: String,
    pub size: u64,
    pub state: NexusState,
    pub children: Vec<Child>,
    pub share: Option<Share>,
    pub rebuilds: Vec<RebuildJob>,
}

/// No two children carry the same URI.
pub open spec fn uris_unique(cs: Seq<Child>) -> bool {
    forall|i: int, j: int|
        0 <= i < cs.len() && 0 <= j < cs.len() && i != j ==> #[trigger] cs[i].uri@
            != #[trigger] cs[j].uri@
}

/// Some child carries the URI `u`.
pub open spec fn has_child(cs: Seq<Child>, u: Seq<char>) -> bool {
    exists|i: int| 0 <= i < cs.len() && #[trigger] cs[i].uri@ == u
}

/// Every two `Online` children hold the same bytes.
pub open spec fn mirrored(cs: Seq<Child>) -> bool {
    forall|i: int, j: int|
        0 <= i < cs.len() && 0 <= j < cs.len() && #[trigger] cs[i].readable()
            && #[trigger] cs[j].readable() ==> cs[i].data@ == cs[j].data@
}

/// The number of `Online` children.
pub open spec fn online_count(cs: Seq<Child>) -> nat
    decreases cs.len(),
{
    if cs.len() == 0 {
        0
    } else {
        online_count(cs.drop_last()) + if cs.last().readable() {
            1nat
        } else {
            0nat
        }
    }
}

proof fn lemma_online_count_zero(cs: Seq<Child>)
    requires
        forall|i: int| 0 <= i < cs.len() ==> !(#[trigger] cs[i]).readable(),
    ensures
        online_count(cs) == 0,
    decreases cs.len(),
{
    if cs.len() > 0 {
        assert(!cs[cs.len() - 1].readable());
        lemma_online_count_zero(cs.drop_last());
    }
}

proof fn lemma_online_count_pos(cs: Seq<Child>)
    requires
        exists|i: int| 0 <= i < cs.len() && (#[trigger] cs[i]).readable(),
    ensures
        online_count(cs) > 0,
    decreases cs.len(),
{
    let i = choose|i: int| 0 <= i < cs.len() && (#[trigger] cs[i]).readable();
    if i < cs.len() - 1 {
        assert(cs.drop_last()[i] == cs[i]);
        lemma_online_count_pos(cs.drop_last());
    }
}

proof fn lemma_online_count_same(cs: Seq<Child>, cs2: Seq<Child>)
    requires
        same_states(cs, cs2),
    ensures
        online_count(cs) == online_count(cs2),
    decreases cs.len(),
{
    if cs.len() > 0 {
        let a = cs.drop_last();
        let b = cs2.drop_last();
        assert forall|i: int| 0 <= i < a.len() implies (#[trigger] b[i]).state == a[i].state by {
            assert(b[i] == cs2[i] && a[i] == cs[i]);
        }
        lemma_online_count_same(a, b);
        assert(cs2.last().state == cs.last().state);
    }
}

/// The target of job `j` is a `Degraded` child, and what the job has copied
/// so far agrees with every `Online` child.
pub open spec fn job_consistent(cs: Seq<Child>, j: RebuildJob) -> bool {
    &&& has_child(cs, j.target@)
    &&& forall|t: int|
        0 <= t < cs.len() && #[trigger] cs[t].uri@ == j.target@ ==> cs[t].state
            == ChildState::Degraded
    &&& forall|t: int, s: int|
        0 <= t < cs.len() && 0 <= s < cs.len() && #[trigger] cs[t].uri@ == j.target@
            && #[trigger] cs[s].readable() ==> cs[t].data@.take(j.cursor as int)
            == cs[s].data@.take(j.cursor as int)
}

/// The jobs are active, sized to the nexus, consistent with the children, and
/// target distinct children.
pub open spec fn jobs_ok(cs: Seq<Child>, js: Seq<RebuildJob>, size: u64) -> bool {
    &&& forall|k: int|
        0 <= k < js.len() ==> {
            &&& (#[trigger] js[k]).wf()
            &&& js[k].total == size
            &&& (js[k].state == RebuildState::Running || js[k].state == RebuildState::Paused)
            &&& job_consistent(cs, js[k])
        }
    &&& forall|k: int, l: int|
        0 <= k < js.len() && 0 <= l < js.len() && k != l ==> #[trigger] js[k].target@
            != #[trigger] js[l].target@
}

/// Some job targets the URI `u`.
pub open spec fn has_job(js: Seq<RebuildJob>, u: Seq<char>) -> bool {
    exists|k: int| 0 <= k < js.len() && #[trigger] js[k].target@ == u
}

/// How far the job that targets `u` has come.
pub open spec fn job_cursor(js: Seq<RebuildJob>, u: Seq<char>) -> int {
    let k = choose|k: int| 0 <= k < js.len() && #[trigger] js[k].target@ == u;
    js[k].cursor as int
}

/// The state of the job that targets `u`.
pub open spec fn job_state(js: Seq<RebuildJob>, u: Seq<char>) -> RebuildState {
    let k = choose|k: int| 0 <= k < js.len() && #[trigger] js[k].target@ == u;
    js[k].state
}

/// Every child keeps its state.
pub open spec fn same_states(cs: Seq<Child>, cs2: Seq<Child>) -> bool {
    &&& cs2.len() == cs.len()
    &&& forall|i: int| 0 <= i < cs.len() ==> (#[trigger] cs2[i]).state == cs[i].state
}

/// The device path under which a nexus of name `n` is exposed over `p`.
pub open spec fn device_path_of(p: ShareProtocol, n: Seq<char>) -> Seq<char> {
    protocol_scheme(p) + n
}

pub open spec fn protocol_scheme(p: ShareProtocol) -> Seq<char> {
    match p {
        ShareProtocol::Nbd => seq!['n', 'b', 'd', ':', '/', '/', '/'],
        ShareProtocol::Iscsi => seq!['i', 's', 'c', 's', 'i', ':', '/', '/', '/'],
        ShareProtocol::Nvmf => seq!['n', 'v', 'm', 'f', ':', '/', '/', '/'],
    }
}

/// The name under which the command surface reports a nexus state.
pub open spec fn nexus_state_name(s: NexusState) -> Seq<char> {
    match s {
        NexusState::Init => seq!['i', 'n', 'i', 't'],
        NexusState::Open => seq!['o', 'p', 'e', 'n'],
        NexusState::Shared => seq!['s', 'h', 'a', 'r', 'e', 'd'],
        NexusState::Unshared => seq!['u', 'n', 's', 'h', 'a', 'r', 'e', 'd'],
        NexusState::Closing => seq!['c', 'l', 'o', 's', 'i', 'n', 'g'],
        NexusState::Closed => seq!['c', 'l', 'o', 's', 'e', 'd'],
        NexusState::Faulted => seq!['f', 'a', 'u', 'l', 't', 'e', 'd'],
    }
}

impl NexusState {
    /// A name for the state, as the command surface reports it.
    pub fn name(&self) -> (r: &'static str)
        ensures
            r@ == nexus_state_name(*self),
    {
        match self {
            NexusState::Init => {
                proof { reveal_strlit("init"); }
                "init"
            },
            NexusState::Open => {
                proof { reveal_strlit("open"); }
                "open"
            },
            NexusState::Shared => {
                proof { reveal_strlit("shared"); }
                "shared"
            },
            NexusState::Unshared => {
                proof { reveal_strlit("unshared"); }
                "unshared"
            },
            NexusState::Closing => {
                proof { reveal_strlit("closing"); }
                "closing"
            },
            NexusState::Closed => {
                proof { reveal_strlit("closed"); }
                "closed"
            },
            NexusState::Faulted => {
                proof { reveal_strlit("faulted"); }
                "faulted"
            },
        }
    }
}

impl ShareProtocol {
    pub open spec fn spec_from_code(code: i32) -> Option<ShareProtocol> {
        match code {
            0 => Some(ShareProtocol::Nbd),
            1 => Some(ShareProtocol::Iscsi),
            2 => Some(ShareProtocol::Nvmf),
            _ => None,
        }
    }

    /// The protocol of a wire code, if the code names one.
    pub fn from_code(code: i32) -> (r: Option<ShareProtocol>)
        ensures
            r == Self::spec_from_code(code),
    {
        match code {
            0 => Some(ShareProtocol::Nbd),
            1 => Some(ShareProtocol::Iscsi),
            2 => Some(ShareProtocol::Nvmf),
            _ => None,
        }
    }

    fn scheme(&self) -> (r: Vec<char>)
        ensures
            r@ == protocol_scheme(*self),
    {
        let r = match self {
            ShareProtocol::Nbd => vec!['n', 'b', 'd', ':', '/', '/', '/'],
            ShareProtocol::Iscsi => vec!['i', 's', 'c', 's', 'i', ':', '/', '/', '/'],
            ShareProtocol::Nvmf => vec!['n', 'v', 'm', 'f', ':', '/', '/', '/'],
        };
        assert(r@ =~= protocol_scheme(*self));
        r
    }
}

/// `cs2` is `cs` after `buf` was written at `off` to every child that takes
/// writes; the others, and every URI and state, are as they were.
pub open spec fn written(cs: Seq<Child>, cs2: Seq<Child>, off: int, buf: Seq<u8>) -> bool {
    &&& cs2.len() == cs.len()
    &&& forall|i: int|
        0 <= i < cs.len() ==> {
            &&& (#[trigger] cs2[i]).uri == cs[i].uri
            &&& cs2[i].state == cs[i].state
            &&& cs2[i].data@ == if cs[i].writable() {
                write_range(cs[i].data@, off, buf)
            } else {
                cs[i].data@
            }
        }
}

proof fn lemma_write_range_take(d1: Seq<u8>, d2: Seq<u8>, off: int, buf: Seq<u8>, c: int)
    requires
        d1.len() == d2.len(),
        0 <= c <= d1.len(),
        d1.take(c) == d2.take(c),
    ensures
        write_range(d1, off, buf).take(c) == write_range(d2, off, buf).take(c),
{
    assert forall|k: int| 0 <= k < c implies d1[k] == d2[k] by {
        assert(d1.take(c)[k] == d1[k]);
        assert(d2.take(c)[k] == d2[k]);
        assert(d1.take(c)[k] == d2.take(c)[k]);
    }
    assert(write_range(d1, off, buf).take(c) =~= write_range(d2, off, buf).take(c));
}

/// A write keeps the children mirrored and every job consistent.
proof fn lemma_written_wf(n: &Nexus, cs2: Seq<Child>, off: int, buf: Seq<u8>)
    requires
        n.wf(),
        written(n.children@, cs2, off, buf),
    ensures
        uris_unique(cs2),
        forall|i: int| 0 <= i < cs2.len() ==> (#[trigger] cs2[i]).data@.len() == n.size,
        mirrored(cs2),
        jobs_ok(cs2, n.rebuilds@, n.size),
{
    let cs = n.children@;
    assert forall|i: int| 0 <= i < cs2.len() implies (#[trigger] cs2[i]).data@.len() == n.size by {
        assert(cs[i].data@.len() == n.size);
    }
    assert forall|i: int, j: int|
        0 <= i < cs2.len() && 0 <= j < cs2.len() && i != j implies #[trigger] cs2[i].uri@
        != #[trigger] cs2[j].uri@ by {
        assert(cs[i].uri@ != cs[j].uri@);
    }
    assert forall|i: int, j: int|
        0 <= i < cs2.len() && 0 <= j < cs2.len() && #[trigger] cs2[i].readable()
            && #[trigger] cs2[j].readable() implies cs2[i].data@ == cs2[j].data@ by {
        assert(cs[i].readable() && cs[j].readable());
    }
    assert forall|k: int| 0 <= k < n.rebuilds@.len() implies job_consistent(
        cs2,
        #[trigger] n.rebuilds@[k],
    ) by {
        let j = n.rebuilds@[k];
        assert(job_consistent(cs, j));
        let t0 = choose|t: int| 0 <= t < cs.len() && #[trigger] cs[t].uri@ == j.target@;
        assert(cs2[t0].uri@ == j.target@);
        assert forall|t: int, s: int|
            0 <= t < cs2.len() && 0 <= s < cs2.len() && #[trigger] cs2[t].uri@ == j.target@
                && #[trigger] cs2[s].readable() implies cs2[t].data@.take(j.cursor as int)
            == cs2[s].data@.take(j.cursor as int) by {
            assert(cs[t].uri@ == j.target@ && cs[s].readable());
            assert(cs[t].state == ChildState::Degraded);
            assert(cs[t].data@.len() == n.size && cs[s].data@.len() == n.size);
            lemma_write_range_take(cs[t].data@, cs[s].data@, off, buf, j.cursor as int);
        }
    }
}

/// Mirror consistency: once a write has been taken, every `Online` child
/// holds the written bytes in the written range.
pub proof fn lemma_write_mirrored(cs: Seq<Child>, cs2: Seq<Child>, off: int, buf: Seq<u8>)
    requires
        written(cs, cs2, off, buf),
        forall|i: int| 0 <= i < cs.len() ==> in_range(
            (#[trigger] cs[i]).data@.len() as int,
            off,
            buf.len() as int,
        ),
    ensures
        forall|i: int|
            0 <= i < cs2.len() && (#[trigger] cs2[i]).readable() ==> cs2[i].data@.subrange(
                off,
                off + buf.len(),
            ) == buf,
{
    assert forall|i: int| 0 <= i < cs2.len() && (#[trigger] cs2[i]).readable() implies cs2[i].data@.subrange(
        off,
        off + buf.len(),
    ) == buf by {
        assert(cs[i].readable());
        assert(in_range(cs[i].data@.len() as int, off, buf.len() as int));
        assert(cs2[i].data@.subrange(off, off + buf.len()) =~= buf);
    }
}

/// Removing one job keeps the rest well formed.
proof fn lemma_jobs_remove(cs: Seq<Child>, js: Seq<RebuildJob>, size: u64, k: int)
    requires
        jobs_ok(cs, js, size),
        0 <= k < js.len(),
    ensures
        jobs_ok(cs, js.remove(k), size),
        !has_job(js.remove(k), js[k].target@),
        forall|m: int| 0 <= m < js.remove(k).len() ==> #[trigger] js.remove(k)[m].target@ != js[k].target@,
{
    let js2 = js.remove(k);
    assert forall|m: int| 0 <= m < js2.len() implies #[trigger] js2[m] == js[if m < k { m } else { m + 1 }] by {}
    assert forall|m: int| 0 <= m < js2.len() implies {
        &&& (#[trigger] js2[m]).wf()
        &&& js2[m].total == size
        &&& (js2[m].state == RebuildState::Running || js2[m].state == RebuildState::Paused)
        &&& job_consistent(cs, js2[m])
    } by {
        let mm = if m < k { m } else { m + 1 };
        assert(js2[m] == js[mm]);
    }
    assert forall|a: int, b: int|
        0 <= a < js2.len() && 0 <= b < js2.len() && a != b implies #[trigger] js2[a].target@
        != #[trigger] js2[b].target@ by {
        let aa = if a < k { a } else { a + 1 };
        let bb = if b < k { b } else { b + 1 };
        assert(js2[a] == js[aa] && js2[b] == js[bb]);
    }
    assert forall|m: int| 0 <= m < js2.len() implies #[trigger] js2[m].target@ != js[k].target@ by {
        let mm = if m < k { m } else { m + 1 };
        assert(js2[m] == js[mm]);
    }
}

/// Changing the child at `t` to a state that serves no reads, with its URI
/// kept, keeps every job that does not target it consistent.
proof fn lemma_retire_child(cs: Seq<Child>, cs2: Seq<Child>, js: Seq<RebuildJob>, size: u64, t: int)
    requires
        jobs_ok(cs, js, size),
        0 <= t < cs.len(),
        cs2.len() == cs.len(),
        forall|i: int| 0 <= i < cs.len() && i != t ==> cs2[i] == cs[i],
        cs2[t].uri == cs[t].uri,
        cs2[t].state != ChildState::Online,
        forall|m: int| 0 <= m < js.len() ==> #[trigger] js[m].target@ != cs[t].uri@,
    ensures
        jobs_ok(cs2, js, size),
{
    assert forall|m: int| 0 <= m < js.len() implies job_consistent(cs2, #[trigger] js[m]) by {
        let j = js[m];
        assert(job_consistent(cs, j));
        let t0 = choose|x: int| 0 <= x < cs.len() && #[trigger] cs[x].uri@ == j.target@;
        assert(cs2[t0].uri@ == j.target@);
        assert forall|x: int| 0 <= x < cs2.len() && #[trigger] cs2[x].uri@ == j.target@ implies cs2[x].state
            == ChildState::Degraded by {
            assert(cs[x].uri@ == j.target@);
        }
        assert forall|x: int, y: int|
            0 <= x < cs2.len() && 0 <= y < cs2.len() && #[trigger] cs2[x].uri@ == j.target@
                && #[trigger] cs2[y].readable() implies cs2[x].data@.take(j.cursor as int)
            == cs2[y].data@.take(j.cursor as int) by {
            assert(cs[x].uri@ == j.target@);
            assert(cs[y].readable());
        }
    }
}

proof fn lemma_copy_prefix(dt: Seq<u8>, ds: Seq<u8>, c: int, len: int)
    requires
        dt.len() == ds.len(),
        0 <= c,
        0 <= len,
        c + len <= ds.len(),
        dt.take(c) == ds.take(c),
    ensures
        write_range(dt, c, ds.subrange(c, c + len)).take(c + len) == ds.take(c + len),
{
    assert forall|k: int| 0 <= k < c implies dt[k] == ds[k] by {
        assert(dt.take(c)[k] == dt[k]);
        assert(ds.take(c)[k] == ds[k]);
    }
    assert(write_range(dt, c, ds.subrange(c, c + len)).take(c + len) =~= ds.take(c + len));
}

/// Promoting the `Degraded` child `t`, which holds what the `Online` child
/// `s` holds and is no job's target, keeps the children mirrored and every
/// job consistent.
proof fn lemma_promote(cs: Seq<Child>, cs2: Seq<Child>, js: Seq<RebuildJob>, size: u64, t: int, s: int)
    requires
        jobs_ok(cs, js, size),
        mirrored(cs),
        0 <= t < cs.len(),
        0 <= s < cs.len(),
        cs[s].readable(),
        cs[t].state == ChildState::Degraded,
        cs[t].data@ == cs[s].data@,
        cs2.len() == cs.len(),
        forall|i: int| 0 <= i < cs.len() && i != t ==> cs2[i] == cs[i],
        cs2[t].uri == cs[t].uri,
        cs2[t].data == cs[t].data,
        cs2[t].state == ChildState::Online,
        forall|m: int| 0 <= m < js.len() ==> #[trigger] js[m].target@ != cs[t].uri@,
    ensures
        mirrored(cs2),
        jobs_ok(cs2, js, size),
{
    assert forall|i: int, j: int|
        0 <= i < cs2.len() && 0 <= j < cs2.len() && #[trigger] cs2[i].readable()
            && #[trigger] cs2[j].readable() implies cs2[i].data@ == cs2[j].data@ by {
        let ii = if i == t { s } else { i };
        let jj = if j == t { s } else { j };
        assert(cs[ii].readable() && cs[jj].readable());
    }
    assert forall|m: int| 0 <= m < js.len() implies job_consistent(cs2, #[trigger] js[m]) by {
        let j = js[m];
        assert(job_consistent(cs, j));
        let t0 = choose|x: int| 0 <= x < cs.len() && #[trigger] cs[x].uri@ == j.target@;
        assert(cs2[t0].uri@ == j.target@);
        assert forall|x: int| 0 <= x < cs2.len() && #[trigger] cs2[x].uri@ == j.target@ implies cs2[x].state
            == ChildState::Degraded by {
            assert(cs[x].uri@ == j.target@);
        }
        assert forall|x: int, y: int|
            0 <= x < cs2.len() && 0 <= y < cs2.len() && #[trigger] cs2[x].uri@ == j.target@
                && #[trigger] cs2[y].readable() implies cs2[x].data@.take(j.cursor as int)
            == cs2[y].data@.take(j.cursor as int) by {
            assert(cs[x].uri@ == j.target@);
            let yy = if y == t { s } else { y };
            assert(cs[yy].readable());
        }
    }
}

/// Removing the child at `t`, which no job targets, keeps the rest well
/// formed.
proof fn lemma_remove_child(cs: Seq<Child>, js: Seq<RebuildJob>, size: u64, t: int)
    requires
        jobs_ok(cs, js, size),
        mirrored(cs),
        uris_unique(cs),
        forall|i: int| 0 <= i < cs.len() ==> (#[trigger] cs[i]).data@.len() == size,
        0 <= t < cs.len(),
        forall|m: int| 0 <= m < js.len() ==> #[trigger] js[m].target@ != cs[t].uri@,
    ensures
        jobs_ok(cs.remove(t), js, size),
        mirrored(cs.remove(t)),
        uris_unique(cs.remove(t)),
        forall|i: int| 0 <= i < cs.remove(t).len() ==> (#[trigger] cs.remove(t)[i]).data@.len() == size,
{
    let cs2 = cs.remove(t);
    assert forall|i: int| 0 <= i < cs2.len() implies #[trigger] cs2[i] == cs[if i < t { i } else { i + 1 }] by {}
    assert forall|i: int| 0 <= i < cs2.len() implies (#[trigger] cs2[i]).data@.len() == size by {
        assert(cs2[i] == cs[if i < t { i } else { i + 1 }]);
    }
    assert forall|i: int, j: int|
        0 <= i < cs2.len() && 0 <= j < cs2.len() && i != j implies #[trigger] cs2[i].uri@
        != #[trigger] cs2[j].uri@ by {
        assert(cs2[i] == cs[if i < t { i } else { i + 1 }]);
        assert(cs2[j] == cs[if j < t { j } else { j + 1 }]);
    }
    assert forall|i: int, j: int|
        0 <= i < cs2.len() && 0 <= j < cs2.len() && #[trigger] cs2[i].readable()
            && #[trigger] cs2[j].readable() implies cs2[i].data@ == cs2[j].data@ by {
        assert(cs2[i] == cs[if i < t { i } else { i + 1 }]);
        assert(cs2[j] == cs[if j < t { j } else { j + 1 }]);
    }
    assert forall|m: int| 0 <= m < js.len() implies job_consistent(cs2, #[trigger] js[m]) by {
        let j = js[m];
        assert(job_consistent(cs, j));
        let t0 = choose|x: int| 0 <= x < cs.len() && #[trigger] cs[x].uri@ == j.target@;
        let w = if t0 < t { t0 } else { t0 - 1 };
        assert(cs2[w] == cs[t0]);
        assert forall|x: int| 0 <= x < cs2.len() && #[trigger] cs2[x].uri@ == j.target@ implies cs2[x].state
            == ChildState::Degraded by {
            assert(cs2[x] == cs[if x < t { x } else { x + 1 }]);
        }
        assert forall|x: int, y: int|
            0 <= x < cs2.len() && 0 <= y < cs2.len() && #[trigger] cs2[x].uri@ == j.target@
                && #[trigger] cs2[y].readable() implies cs2[x].data@.take(j.cursor as int)
            == cs2[y].data@.take(j.cursor as int) by {
            assert(cs2[x] == cs[if x < t { x } else { x + 1 }]);
            assert(cs2[y] == cs[if y < t { y } else { y + 1 }]);
        }
    }
}

/// A child that a completed rebuild turned `Online` holds, byte for byte,
/// what every other `Online` child holds.
pub proof fn lemma_rebuilt_child_matches(n: &Nexus, uri: Seq<char>)
    requires
        n.wf(),
        forall|i: int| 0 <= i < n.children@.len() && #[trigger] n.children@[i].uri@ == uri ==> n.children@[i].readable(),
    ensures
        forall|t: int, s: int|
            0 <= t < n.children@.len() && 0 <= s < n.children@.len() && #[trigger] n.children@[t].uri@ == uri && #[trigger] n.children@[s].readable() ==> n.children@[t].data@ == n.children@[s].data@,
{
    assert forall|t: int, s: int|
        0 <= t < n.children@.len() && 0 <= s < n.children@.len() && #[trigger] n.children@[t].uri@ == uri && #[trigger] n.children@[s].readable() implies n.children@[t].data@ == n.children@[s].data@ by {
        assert(n.children@[t].readable());
    }
}

/// What `Nexus::add_child` does.
pub open spec fn add_child_post(n0: Nexus, n1: Nexus, uri: Seq<char>, r: Result<(), Error>) -> bool {
    &&& r is Ok <==> !has_child(n0.children@, uri)
    &&& n1.name == n0.name
    &&& n1.size == n0.size
    &&& n1.state == n0.state
    &&& n1.share == n0.share
    &&& n1.rebuilds == n0.rebuilds
    &&& r is Err ==> n1.children == n0.children
    &&& r is Ok ==> {
        &&& n1.children@.len() == n0.children@.len() + 1
        &&& n1.children@.take(n0.children@.len() as int)
            == n0.children@
        &&& n1.children@.last().uri@ == uri
        &&& n1.children@.last().state == ChildState::Degraded
        &&& n1.children@.last().data@ == Seq::new(
            n0.size as nat,
            |k: int| 0u8,
        )
    }
    &&& r matches Err(e) ==> (e matches Error::ChildAlreadyExists { name, child } && name@
        == n0.name@ && child@ == uri)
    &&& r is Err ==> n1 == n0
}

/// What `Nexus::start_rebuild` does.
pub open spec fn start_rebuild_post(n0: Nexus, n1: Nexus, uri: Seq<char>, r: Result<(), Error>) -> bool {
    &&& !has_child(n0.children@, uri) ==> (r matches Err(e) && (e matches Error::ChildNotFound { name, child } && name@ == n0.name@ && child@ == uri))
    &&& has_child(n0.children@, uri) && has_job(n0.rebuilds@, uri) ==> (r matches Err(e) && (e matches Error::RebuildJobAlreadyExists { child } && child@ == uri))
    &&& r is Ok <==> {
        &&& has_child(n0.children@, uri)
        &&& !has_job(n0.rebuilds@, uri)
        &&& (forall|i: int| 0 <= i < n0.children@.len() && #[trigger] n0.children@[i].uri@ == uri ==> n0.children@[i].state == ChildState::Degraded)
        &&& online_count(n0.children@) > 0
    }
    &&& r is Err ==> n1.rebuilds == n0.rebuilds
    &&& r is Ok ==> {
        &&& n1.rebuilds@.len() == n0.rebuilds@.len() + 1
        &&& n1.rebuilds@.take(n0.rebuilds@.len() as int) == n0.rebuilds@
        &&& n1.rebuilds@.last().target@ == uri
        &&& n1.rebuilds@.last().cursor == 0
        &&& n1.rebuilds@.last().state == RebuildState::Running
    }
    &&& n1.children == n0.children
    &&& n1.name == n0.name
    &&& n1.size == n0.size
    &&& n1.state == n0.state
    &&& n1.share == n0.share
    &&& r is Err ==> n1 == n0
}

/// What `Nexus::stop_rebuild` does.
pub open spec fn stop_rebuild_post(n0: Nexus, n1: Nexus, uri: Seq<char>, r: Result<(), Error>) -> bool {
    &&& r is Ok <==> has_job(n0.rebuilds@, uri)
    &&& r matches Err(e) ==> (e matches Error::RebuildJobNotFound { child } && child@ == uri)
    &&& r is Err ==> n1.rebuilds == n0.rebuilds && n1.children == n0.children
    &&& r is Ok ==> {
        &&& !has_job(n1.rebuilds@, uri)
        &&& n1.rebuilds@.len() + 1 == n0.rebuilds@.len()
        &&& n1.children@.len() == n0.children@.len()
        &&& forall|i: int| 0 <= i < n0.children@.len() ==> if n0.children@[i].uri@ == uri {
            &&& (#[trigger] n1.children@[i]).state == ChildState::Faulted
            &&& n1.children@[i].uri == n0.children@[i].uri
            &&& n1.children@[i].data == n0.children@[i].data
        } else {
            n1.children@[i] == n0.children@[i]
        }
    }
    &&& n1.name == n0.name
    &&& n1.size == n0.size
    &&& n1.state == n0.state
    &&& n1.share == n0.share
    &&& r is Err ==> n1 == n0
}

/// What `Nexus::rebuild_step` does.
pub open spec fn rebuild_step_post(n0: Nexus, n1: Nexus, uri: Seq<char>, r: Result<RebuildState, Error>) -> bool {
    &&& r is Ok <==> has_job(n0.rebuilds@, uri)
    &&& r matches Err(e) ==> (e matches Error::RebuildJobNotFound { child } && child@ == uri)
    &&& r is Err ==> n1.rebuilds == n0.rebuilds && n1.children == n0.children
    &&& r matches Ok(st) ==> st == RebuildState::Running || st == RebuildState::Paused || st == RebuildState::Completed || st == RebuildState::Failed
    &&& r matches Ok(st) ==> (has_job(n1.rebuilds@, uri) <==> (st == RebuildState::Running || st == RebuildState::Paused))
    &&& r == Ok::<RebuildState, Error>(RebuildState::Failed) ==> online_count(n0.children@) == 0
    &&& r == Ok::<RebuildState, Error>(RebuildState::Running) ==> job_cursor(n0.rebuilds@, uri) < job_cursor(n1.rebuilds@, uri)
    &&& r matches Ok(st) ==> (st == RebuildState::Paused <==> job_state(n0.rebuilds@, uri) == RebuildState::Paused)
    &&& has_job(n0.rebuilds@, uri) && job_state(n0.rebuilds@, uri) == RebuildState::Running && online_count(n0.children@) > 0 ==> (r matches Ok(st) && (st == RebuildState::Running || st == RebuildState::Completed))
    &&& r == Ok::<RebuildState, Error>(RebuildState::Running) ==> job_state(n1.rebuilds@, uri) == RebuildState::Running && same_states(n0.children@, n1.children@)
    &&& r == Ok::<RebuildState, Error>(RebuildState::Paused) ==> n1 == n0
    &&& r is Err ==> n1 == n0
    &&& r == Ok::<RebuildState, Error>(RebuildState::Completed) ==> {
        &&& has_child(n1.children@, uri)
        &&& forall|i: int| 0 <= i < n1.children@.len() && #[trigger] n1.children@[i].uri@ == uri ==> n1.children@[i].readable()
    }
    &&& n1.children@.len() == n0.children@.len()
    &&& forall|i: int| 0 <= i < n0.children@.len() ==> (#[trigger] n1.children@[i]).uri == n0.children@[i].uri
    &&& n1.name == n0.name
    &&& n1.size == n0.size
    &&& n1.state == n0.state
    &&& n1.share == n0.share
}

/// What `Nexus::offline_child` does.
pub open spec fn offline_child_post(n0: Nexus, n1: Nexus, uri: Seq<char>, r: Result<(), Error>) -> bool {
    &&& r is Ok <==> has_child(n0.children@, uri)
    &&& r matches Err(e) ==> (e matches Error::ChildNotFound { name, child } && name@ == n0.name@ && child@ == uri)
    &&& r is Err ==> n1.children == n0.children && n1.rebuilds == n0.rebuilds && n1.state == n0.state
    &&& r is Ok ==> {
        &&& !has_job(n1.rebuilds@, uri)
        &&& n1.children@.len() == n0.children@.len()
        &&& forall|i: int| 0 <= i < n0.children@.len() ==> if n0.children@[i].uri@ == uri {
            &&& (#[trigger] n1.children@[i]).state == if n0.children@[i].writable() { ChildState::Faulted } else { n0.children@[i].state }
            &&& n1.children@[i].uri == n0.children@[i].uri
            &&& n1.children@[i].data == n0.children@[i].data
        } else {
            n1.children@[i] == n0.children@[i]
        }
        &&& n1.state == if online_count(n1.children@) == 0 { NexusState::Faulted } else { n0.state }
    }
    &&& n1.name == n0.name
    &&& n1.size == n0.size
    &&& n1.share == n0.share
    &&& r is Err ==> n1 == n0
}

/// What `Nexus::online_child` does.
pub open spec fn online_child_post(n0: Nexus, n1: Nexus, uri: Seq<char>, r: Result<(), Error>) -> bool {
    &&& r is Ok <==> has_child(n0.children@, uri)
    &&& r matches Err(e) ==> (e matches Error::ChildNotFound { name, child } && name@ == n0.name@ && child@ == uri)
    &&& n1.children@.len() == n0.children@.len()
    &&& forall|i: int| 0 <= i < n0.children@.len() ==> if n0.children@[i].uri@ == uri {
        &&& (#[trigger] n1.children@[i]).state == if n0.children@[i].state == ChildState::Faulted { ChildState::Degraded } else { n0.children@[i].state }
        &&& n1.children@[i].uri == n0.children@[i].uri
        &&& n1.children@[i].data == n0.children@[i].data
    } else {
        n1.children@[i] == n0.children@[i]
    }
    &&& n1.rebuilds == n0.rebuilds
    &&& n1.name == n0.name
    &&& n1.size == n0.size
    &&& n1.state == n0.state
    &&& n1.share == n0.share
    &&& r is Err ==> n1 == n0
}

/// What `Nexus::remove_child` does.
pub open spec fn remove_child_post(n0: Nexus, n1: Nexus, uri: Seq<char>, r: Result<(), Error>) -> bool {
    &&& !has_child(n0.children@, uri) ==> (r matches Err(e) && (e matches Error::ChildNotFound { name, child } && name@ == n0.name@ && child@ == uri))
    &&& r is Ok <==> has_child(n0.children@, uri) && !(online_count(n0.children@) == 1 && exists|i: int| 0 <= i < n0.children@.len() && #[trigger] n0.children@[i].uri@ == uri && n0.children@[i].readable())
    &&& r matches Err(e) ==> (e matches Error::ChildNotFound { .. } || e matches Error::LastChildRemove { .. })
    &&& has_child(n0.children@, uri) && online_count(n0.children@) == 1 && (exists|i: int| 0 <= i < n0.children@.len() && #[trigger] n0.children@[i].uri@ == uri && n0.children@[i].readable()) ==> (r matches Err(e) && (e matches Error::LastChildRemove { name, child } && name@ == n0.name@ && child@ == uri))
    &&& r is Err ==> n1.children == n0.children && n1.rebuilds == n0.rebuilds
    &&& r is Ok ==> {
        &&& !has_child(n1.children@, uri)
        &&& !has_job(n1.rebuilds@, uri)
        &&& exists|t: int| 0 <= t < n0.children@.len() && n0.children@[t].uri@ == uri && n1.children@ == n0.children@.remove(t)
    }
    &&& n1.name == n0.name
    &&& n1.size == n0.size
    &&& n1.state == n0.state
    &&& n1.share == n0.share
    &&& r is Err ==> n1 == n0
}

/// What `Nexus::get_rebuild_state` does.
pub open spec fn get_rebuild_state_post(n0: Nexus, uri: Seq<char>, r: Result<RebuildState, Error>) -> bool {
    &&& r is Ok <==> has_job(n0.rebuilds@, uri)
    &&& r matches Ok(st) ==> exists|k: int| 0 <= k < n0.rebuilds@.len() && #[trigger] n0.rebuilds@[k].target@ == uri && n0.rebuilds@[k].state == st
    &&& r matches Err(e) ==> (e matches Error::RebuildJobNotFound { child } && child@ == uri)
}

/// What `Nexus::get_rebuild_progress` does.
pub open spec fn get_rebuild_progress_post(n0: Nexus, uri: Seq<char>, r: Result<u64, Error>) -> bool {
    &&& r is Ok <==> has_job(n0.rebuilds@, uri)
    &&& r matches Ok(p) ==> p <= 100
    &&& r matches Ok(p) ==> exists|k: int| 0 <= k < n0.rebuilds@.len() && #[trigger] n0.rebuilds@[k].target@ == uri && p == crate::rebuild::percent(n0.rebuilds@[k].cursor as int, n0.rebuilds@[k].total as int)
    &&& r matches Err(e) ==> (e matches Error::RebuildJobNotFound { child } && child@ == uri)
}

/// No two strings of `us` are equal.
pub open spec fn strs_unique(us: Seq<String>) -> bool {
    forall|i: int, j: int|
        0 <= i < us.len() && 0 <= j < us.len() && i != j ==> #[trigger] us[i]@ != #[trigger] us[j]@
}

/// Index of the child of `cs` with URI `uri`.
fn find_uri(cs: &Vec<Child>, uri: &str) -> (r: Option<usize>)
    ensures
        r is None <==> !has_child(cs@, uri@),
        r matches Some(i) ==> i < cs@.len() && cs@[i as int].uri@ == uri@,
{
    let u = uri.to_owned();
    let mut i: usize = 0;
    while i < cs.len()
        invariant
            i <= cs@.len(),
            u@ == uri@,
            forall|k: int| 0 <= k < i ==> cs@[k].uri@ != uri@,
        decreases cs@.len() - i,
    {
        if cs[i].uri == u {
            return Some(i);
        }
        i += 1;
    }
    None
}

impl Nexus {
    pub open spec fn wf(&self) -> bool {
        &&& self.size <= usize::MAX
        &&& uris_unique(self.children@)
        &&& forall|i: int|
            0 <= i < self.children@.len() ==> (#[trigger] self.children@[i]).data@.len()
                == self.size
        &&& mirrored(self.children@)
        &&& jobs_ok(self.children@, self.rebuilds@, self.size)
        &&& (self.state == NexusState::Shared ==> self.share is Some)
    }

    /// The device path, where the nexus is shared.
    pub open spec fn share_path(&self) -> Option<Seq<char>> {
        match self.share {
            Some(s) => Some(s.device_path@),
            None => None,
        }
    }

    /// Index of the child with URI `uri`.
    pub fn find_child(&self, uri: &str) -> (r: Option<usize>)
        ensures
            r is None <==> !has_child(self.children@, uri@),
            r matches Some(i) ==> i < self.children@.len() && self.children@[i as int].uri@
                == uri@,
    {
        find_uri(&self.children, uri)
    }

    /// Index of the job that targets the child with URI `uri`.
    pub fn find_job(&self, uri: &str) -> (r: Option<usize>)
        ensures
            r is None <==> !has_job(self.rebuilds@, uri@),
            r matches Some(k) ==> k < self.rebuilds@.len() && self.rebuilds@[k as int].target@
                == uri@,
    {
        let u = uri.to_owned();
        let mut k: usize = 0;
        while k < self.rebuilds.len()
            invariant
                k <= self.rebuilds@.len(),
                u@ == uri@,
                forall|m: int| 0 <= m < k ==> self.rebuilds@[m].target@ != uri@,
            decreases self.rebuilds@.len() - k,
        {
            if self.rebuilds[k].target == u {
                return Some(k);
            }
            k += 1;
        }
        None
    }

    /// Index of the first `Online` child.
    pub fn first_online(&self) -> (r: Option<usize>)
        ensures
            r is None <==> forall|i: int|
                0 <= i < self.children@.len() ==> !(#[trigger] self.children@[i]).readable(),
            r matches Some(i) ==> i < self.children@.len() && self.children@[i as int].readable(),
    {
        let mut i: usize = 0;
        while i < self.children.len()
            invariant
                i <= self.children@.len(),
                forall|k: int| 0 <= k < i ==> !(#[trigger] self.children@[k]).readable(),
            decreases self.children@.len() - i,
        {
            if self.children[i].state == ChildState::Online {
                return Some(i);
            }
            i += 1;
        }
        None
    }
}

impl Nexus {
    /// A nexus of `size` bytes over the children `uris`, each opened. Fails
    /// when a URI is listed twice.
    pub fn new(name: String, size: u64, uris: &Vec<String>) -> (r: Result<Nexus, Error>)
        requires
            size <= usize::MAX,
        ensures
            r is Ok <==> strs_unique(uris@),
            r matches Ok(n) ==> {
                &&& n.wf()
                &&& n.name == name
                &&& n.size == size
                &&& n.state == NexusState::Open
                &&& n.share is None
                &&& n.rebuilds@.len() == 0
                &&& n.children@.len() == uris@.len()
                &&& forall|i: int|
                    0 <= i < uris@.len() ==> {
                        &&& (#[trigger] n.children@[i]).uri@ == uris@[i]@
                        &&& n.children@[i].state == ChildState::Online
                        &&& n.children@[i].data@ == Seq::new(size as nat, |k: int| 0u8)
                    }
            },
            r matches Err(e) ==> (e matches Error::ChildAlreadyExists { name: n, child }
                && n@ == name@),
    {
        let mut children: Vec<Child> = Vec::new();
        let mut i: usize = 0;
        while i < uris.len()
            invariant
                i <= uris@.len(),
                size <= usize::MAX,
                children@.len() == i,
                strs_unique(uris@.take(i as int)),
                forall|k: int|
                    0 <= k < i ==> {
                        &&& (#[trigger] children@[k]).uri@ == uris@[k]@
                        &&& children@[k].state == ChildState::Online
                        &&& children@[k].data@ == Seq::new(size as nat, |k: int| 0u8)
                    },
            decreases uris@.len() - i,
        {
            if let Some(j) = find_uri(&children, uris[i].as_str()) {
                assert(uris@[j as int]@ == uris@[i as int]@);
                assert(!strs_unique(uris@));
                return Err(Error::ChildAlreadyExists { name, child: uris[i].clone() });
            }
            let mut c = Child::new(uris[i].clone(), size);
            let _ = c.open();
            children.push(c);
            assert forall|a: int, b: int|
                0 <= a < i + 1 && 0 <= b < i + 1 && a != b implies #[trigger] uris@.take(
                i + 1,
            )[a]@ != #[trigger] uris@.take(i + 1)[b]@ by {
                if a < i && b < i {
                    assert(uris@.take(i as int)[a] == uris@[a]);
                    assert(uris@.take(i as int)[b] == uris@[b]);
                } else if a == i {
                    assert(children@[b].uri@ == uris@[b]@);
                } else {
                    assert(children@[a].uri@ == uris@[a]@);
                }
            }
            i += 1;
        }
        assert(uris@.take(uris@.len() as int) =~= uris@);
        let n = Nexus {
            name,
            size,
            state: NexusState::Open,
            children,
            share: None,
            rebuilds: Vec::new(),
        };
        assert(uris_unique(n.children@)) by {
            assert forall|a: int, b: int|
                0 <= a < n.children@.len() && 0 <= b < n.children@.len() && a != b implies
                #[trigger] n.children@[a].uri@ != #[trigger] n.children@[b].uri@ by {
                assert(uris@.take(uris@.len() as int)[a] == uris@[a]);
            }
        }
        Ok(n)
    }

    /// Attach a new, zeroed child in `Degraded` state at the end of the list;
    /// it serves reads only after a rebuild.
    pub fn add_child(&mut self, uri: &str) -> (r: Result<(), Error>)
        requires
            old(self).wf(),
        ensures
            final(self).wf(),
            add_child_post(*old(self), *final(self), uri@, r),
    {
        if self.find_child(uri).is_some() {
            return Err(Error::ChildAlreadyExists { name: self.name.clone(), child: uri.to_owned() });
        }
        let mut c = Child::new(uri.to_owned(), self.size);
        c.state = ChildState::Degraded;
        let ghost cs0 = self.children@;
        self.children.push(c);
        assert(self.children@.take(cs0.len() as int) =~= cs0);
        assert forall|k: int| 0 <= k < self.rebuilds@.len() implies job_consistent(
            self.children@,
            #[trigger] self.rebuilds@[k],
        ) by {
            let j = self.rebuilds@[k];
            assert(job_consistent(cs0, j));
            let t = choose|t: int| 0 <= t < cs0.len() && #[trigger] cs0[t].uri@ == j.target@;
            assert(self.children@[t].uri@ == j.target@);
        }
        Ok(())
    }

    /// Expose the nexus over `protocol`. Where it is already shared, the
    /// existing device path is returned and nothing changes.
    pub fn share(&mut self, protocol: ShareProtocol, key: Option<String>) -> (r: Result<
        String,
        Error,
    >)
        requires
            old(self).wf(),
        ensures
            final(self).wf(),
            r is Ok,
            r matches Ok(p) ==> p@ == match old(self).share_path() {
                Some(q) => q,
                None => device_path_of(protocol, old(self).name@),
            },
            r matches Ok(p) ==> final(self).share_path() == Some(p@),
            old(self).share is Some ==> final(self).share == old(self).share,
            old(self).share is None ==> (final(self).share matches Some(s) && s.protocol
                == protocol && s.key == key),
            final(self).state == if old(self).share is None {
                NexusState::Shared
            } else {
                old(self).state
            },
            final(self).name == old(self).name,
            final(self).size == old(self).size,
            final(self).children == old(self).children,
            final(self).rebuilds == old(self).rebuilds,
    {
        if let Some(s) = &self.share {
            return Ok(s.device_path.clone());
        }
        let mut v = protocol.scheme();
        let nv = chars_of(self.name.as_str());
        let ghost v0 = v@;
        let mut i: usize = 0;
        while i < nv.len()
            invariant
                i <= nv@.len(),
                v@ == v0 + nv@.take(i as int),
            decreases nv@.len() - i,
        {
            v.push(nv[i]);
            i += 1;
            assert(v@ =~= v0 + nv@.take(i as int));
        }
        assert(nv@.take(nv@.len() as int) =~= nv@);
        let path = string_of(v.as_slice());
        let out = path.clone();
        self.share = Some(Share { protocol, device_path: path, key });
        self.state = NexusState::Shared;
        Ok(out)
    }

    /// Write `buf` at `offset` to every child that takes writes. Fails, with
    /// nothing changed, where no child is `Online` or the range runs past the
    /// end.
    pub fn write(&mut self, offset: u64, buf: &[u8]) -> (r: Result<(), Error>)
        requires
            old(self).wf(),
        ensures
            final(self).wf(),
            r is Ok <==> online_count(old(self).children@) > 0 && in_range(
                old(self).size as int,
                offset as int,
                buf@.len() as int,
            ),
            r is Ok ==> written(old(self).children@, final(self).children@, offset as int, buf@),
            r is Err ==> final(self).children == old(self).children,
            r matches Err(e) ==> (e matches Error::DeviceIoError { name } && name@
                == old(self).name@),
            final(self).name == old(self).name,
            final(self).size == old(self).size,
            final(self).state == old(self).state,
            final(self).share == old(self).share,
            final(self).rebuilds == old(self).rebuilds,
    {
        if self.first_online().is_none() {
            proof { lemma_online_count_zero(self.children@); }
            return Err(Error::DeviceIoError { name: self.name.clone() });
        }
        proof { lemma_online_count_pos(self.children@); }
        if offset > self.size || buf.len() as u64 > self.size - offset {
            return Err(Error::DeviceIoError { name: self.name.clone() });
        }
        let ghost cs0 = self.children@;
        let mut i: usize = 0;
        while i < self.children.len()
            invariant
                i <= self.children@.len(),
                self.children@.len() == cs0.len(),
                cs0 == old(self).children@,
                old(self).wf(),
                offset + buf@.len() <= old(self).size,
                forall|k: int| 0 <= k < cs0.len() ==> (#[trigger] cs0[k]).data@.len() == old(self).size,
                forall|k: int|
                    0 <= k < cs0.len() ==> {
                        &&& (#[trigger] self.children@[k]).uri == cs0[k].uri
                        &&& self.children@[k].state == cs0[k].state
                        &&& self.children@[k].data@ == if k < i && cs0[k].writable() {
                            write_range(cs0[k].data@, offset as int, buf@)
                        } else {
                            cs0[k].data@
                        }
                    },
                self.name == old(self).name,
                self.size == old(self).size,
                self.state == old(self).state,
                self.share == old(self).share,
                self.rebuilds == old(self).rebuilds,
            decreases cs0.len() - i,
        {
            if self.children[i].state == ChildState::Online || self.children[i].state
                == ChildState::Degraded {
                let ghost before = self.children@;
                let mut c = self.children.remove(i);
                let res = c.write(offset, buf);
                assert(res is Ok);
                self.children.insert(i, c);
                assert(self.children@ =~= before.update(i as int, c));
            }
            i += 1;
        }
        proof { lemma_written_wf(old(self), self.children@, offset as int, buf@); }
        Ok(())
    }

    /// Read `len` bytes at `offset` from an `Online` child; all of them hold
    /// the same bytes.
    pub fn read(&self, offset: u64, len: u64) -> (r: Result<Vec<u8>, Error>)
        requires
            self.wf(),
        ensures
            r is Ok <==> online_count(self.children@) > 0 && in_range(
                self.size as int,
                offset as int,
                len as int,
            ),
            r matches Ok(b) ==> forall|i: int|
                0 <= i < self.children@.len() && (#[trigger] self.children@[i]).readable()
                    ==> b@ == self.children@[i].data@.subrange(offset as int, offset + len),
            r matches Err(e) ==> (e matches Error::DeviceIoError { name } && name@ == self.name@),
    {
        match self.first_online() {
            None => {
                proof { lemma_online_count_zero(self.children@); }
                Err(Error::DeviceIoError { name: self.name.clone() })
            },
            Some(s) => {
                proof { lemma_online_count_pos(self.children@); }
                assert(self.children@[s as int].data@.len() == self.size);
                match self.children[s].read(offset, len) {
                    Ok(b) => Ok(b),
                    Err(_) => Err(Error::DeviceIoError { name: self.name.clone() }),
                }
            },
        }
    }

    /// Start rebuilding the `Degraded` child `uri` from the `Online`
    /// children. The job starts running at the beginning of the device.
    pub fn start_rebuild(&mut self, uri: &str) -> (r: Result<(), Error>)
        requires
            old(self).wf(),
        ensures
            final(self).wf(),
            start_rebuild_post(*old(self), *final(self), uri@, r),
    {
        let t = match self.find_child(uri) {
            Some(t) => t,
            None => {
                return Err(Error::ChildNotFound { name: self.name.clone(), child: uri.to_owned() });
            },
        };
        if self.find_job(uri).is_some() {
            return Err(Error::RebuildJobAlreadyExists { child: uri.to_owned() });
        }
        if self.children[t].state != ChildState::Degraded {
            return Err(Error::ChildNotAvailable { child: uri.to_owned() });
        }
        assert forall|i: int| 0 <= i < self.children@.len() && #[trigger] self.children@[i].uri@ == uri@ implies self.children@[i].state == ChildState::Degraded by {
            if i != t {
                assert(self.children@[i].uri@ != self.children@[t as int].uri@);
            }
        }
        let s = match self.first_online() {
            Some(s) => s,
            None => {
                proof { lemma_online_count_zero(self.children@); }
                return Err(Error::DeviceIoError { name: self.name.clone() });
            },
        };
        proof { lemma_online_count_pos(self.children@); }
        let mut job = RebuildJob::new(self.children[s].uri.clone(), uri.to_owned(), self.size, REBUILD_SEGMENT);
        let _ = job.transition(RebuildState::Running);
        let ghost js0 = self.rebuilds@;
        self.rebuilds.push(job);
        assert(self.rebuilds@.take(js0.len() as int) =~= js0);
        proof {
            let cs = self.children@;
            let js = self.rebuilds@;
            assert(js[js0.len() as int] == job);
            assert forall|k: int| 0 <= k < js.len() implies {
                &&& (#[trigger] js[k]).wf()
                &&& js[k].total == self.size
                &&& (js[k].state == RebuildState::Running || js[k].state == RebuildState::Paused)
                &&& job_consistent(cs, js[k])
            } by {
                if k < js0.len() {
                    assert(js[k] == js0[k]);
                } else {
                    assert(cs[t as int].uri@ == job.target@);
                    assert forall|x: int, y: int|
                        0 <= x < cs.len() && 0 <= y < cs.len() && #[trigger] cs[x].uri@ == job.target@
                            && #[trigger] cs[y].readable() implies cs[x].data@.take(0)
                        == cs[y].data@.take(0) by {
                        assert(cs[x].data@.take(0) =~= cs[y].data@.take(0));
                    }
                }
            }
            assert forall|a: int, b: int|
                0 <= a < js.len() && 0 <= b < js.len() && a != b implies #[trigger] js[a].target@
                != #[trigger] js[b].target@ by {
                if a < js0.len() {
                    assert(js[a] == js0[a]);
                }
                if b < js0.len() {
                    assert(js[b] == js0[b]);
                }
            }
        }
        Ok(())
    }

    /// Cancel the job that targets `uri`; its target is left `Faulted`.
    pub fn stop_rebuild(&mut self, uri: &str) -> (r: Result<(), Error>)
        requires
            old(self).wf(),
        ensures
            final(self).wf(),
            stop_rebuild_post(*old(self), *final(self), uri@, r),
    {
        let k = match self.find_job(uri) {
            Some(k) => k,
            None => {
                return Err(Error::RebuildJobNotFound { child: uri.to_owned() });
            },
        };
        proof {
            let j = self.rebuilds@[k as int];
            assert(job_consistent(self.children@, j));
        }
        let t = self.find_child(uri).unwrap();
        let ghost cs0 = self.children@;
        let ghost js0 = self.rebuilds@;
        let mut job = self.rebuilds.remove(k);
        let _ = job.transition(RebuildState::Stopped);
        proof { lemma_jobs_remove(cs0, js0, self.size, k as int); }
        let mut c = self.children.remove(t);
        c.fault();
        self.children.insert(t, c);
        assert(self.children@ =~= cs0.update(t as int, c));
        proof {
            lemma_retire_child(cs0, self.children@, self.rebuilds@, self.size, t as int);
            assert forall|i: int, j: int|
                0 <= i < self.children@.len() && 0 <= j < self.children@.len() && i != j implies #[trigger] self.children@[i].uri@
                != #[trigger] self.children@[j].uri@ by {
                assert(cs0[i].uri@ != cs0[j].uri@);
            }
            assert forall|i: int| 0 <= i < self.children@.len() implies (#[trigger] self.children@[i]).data@.len() == self.size by {
                assert(cs0[i].data@.len() == self.size);
            }
            assert forall|i: int, j: int|
                0 <= i < self.children@.len() && 0 <= j < self.children@.len() && #[trigger] self.children@[i].readable()
                    && #[trigger] self.children@[j].readable() implies self.children@[i].data@ == self.children@[j].data@ by {
                assert(cs0[i].readable() && cs0[j].readable());
            }
            assert forall|i: int| 0 <= i < cs0.len() && cs0[i].uri@ == uri@ implies i == t by {
                if i != t {
                    assert(cs0[i].uri@ != cs0[t as int].uri@);
                }
            }
        }
        Ok(())
    }

    /// Let the job that targets `uri` copy its next segment from an `Online`
    /// child. When the whole range is copied the job completes, leaves the
    /// set of active jobs and its target turns `Online`. Where no child is
    /// `Online` the job fails, leaves the set and its target turns `Faulted`.
    /// A paused job does nothing.
    pub fn rebuild_step(&mut self, uri: &str) -> (r: Result<RebuildState, Error>)
        requires
            old(self).wf(),
        ensures
            final(self).wf(),
            rebuild_step_post(*old(self), *final(self), uri@, r),
    {
        let k = match self.find_job(uri) {
            Some(k) => k,
            None => {
                return Err(Error::RebuildJobNotFound { child: uri.to_owned() });
            },
        };
        proof {
            assert(job_consistent(self.children@, self.rebuilds@[k as int]));
            assert forall|m: int| 0 <= m < self.rebuilds@.len() && #[trigger] self.rebuilds@[m].target@ == uri@ implies m == k by {
                if m != k {
                    assert(self.rebuilds@[m].target@ != self.rebuilds@[k as int].target@);
                }
            }
        }
        proof {
            let k0 = choose|m: int| 0 <= m < self.rebuilds@.len() && #[trigger] self.rebuilds@[m].target@ == uri@;
            assert(k0 == k);
            assert(job_state(self.rebuilds@, uri@) == self.rebuilds@[k as int].state);
        }
        if self.rebuilds[k].state == RebuildState::Paused {
            return Ok(RebuildState::Paused);
        }
        let t = self.find_child(uri).unwrap();
        let ghost cs0 = self.children@;
        let ghost js0 = self.rebuilds@;
        proof {
            assert forall|i: int| 0 <= i < cs0.len() && #[trigger] cs0[i].uri@ == uri@ implies i == t by {
                if i != t {
                    assert(cs0[i].uri@ != cs0[t as int].uri@);
                }
            }
            assert(cs0[t as int].state == ChildState::Degraded);
        }
        let mut job = self.rebuilds.remove(k);
        proof { lemma_jobs_remove(cs0, js0, self.size, k as int); }
        let s = match self.first_online() {
            Some(s) => s,
            None => {
                proof { lemma_online_count_zero(self.children@); }
                let _ = job.transition(RebuildState::Failed);
                let mut c = self.children.remove(t);
                c.fault();
                self.children.insert(t, c);
                assert(self.children@ =~= cs0.update(t as int, c));
                proof {
                    self.lemma_children_update_wf(cs0, t as int);
                    lemma_retire_child(cs0, self.children@, self.rebuilds@, self.size, t as int);
                }
                return Ok(RebuildState::Failed);
            },
        };
        proof {
            lemma_online_count_pos(cs0);
            assert(cs0[s as int].data@.len() == self.size && cs0[t as int].data@.len() == self.size);
        }
        let ghost c0 = job.cursor;
        match job.next_segment() {
            Some(seg) => {
                let bytes = match self.children[s].read(seg.0, seg.1) {
                    Ok(b) => b,
                    Err(_) => {
                        assert(false);
                        Vec::new()
                    },
                };
                let mut c = self.children.remove(t);
                let _ = c.write(seg.0, bytes.as_slice());
                self.children.insert(t, c);
                assert(self.children@ =~= cs0.update(t as int, c));
                job.advance();
                proof {
                    lemma_copy_prefix(cs0[t as int].data@, cs0[s as int].data@, c0 as int, seg.1 as int);
                }
            },
            None => {
                assert(self.children@ =~= cs0);
            },
        }
        let ghost cs1 = self.children@;
        proof {
            lemma_retire_child(cs0, cs1, self.rebuilds@, self.size, t as int);
            self.lemma_children_update_wf(cs0, t as int);
            assert(cs1[t as int].data@.take(job.cursor as int) == cs0[s as int].data@.take(job.cursor as int));
        }
        if job.cursor == job.total {
            let _ = job.transition(RebuildState::Completed);
            let mut c = self.children.remove(t);
            c.state = ChildState::Online;
            self.children.insert(t, c);
            assert(self.children@ =~= cs1.update(t as int, c));
            proof {
                assert(cs1[t as int].data@.take(self.size as int) =~= cs1[t as int].data@);
                assert(cs1[s as int].data@.take(self.size as int) =~= cs1[s as int].data@);
                lemma_promote(cs1, self.children@, self.rebuilds@, self.size, t as int, s as int);
                assert(self.children@[t as int].readable());
                assert(self.children@[t as int].uri@ == uri@);
                assert forall|i: int, j: int|
                    0 <= i < self.children@.len() && 0 <= j < self.children@.len() && i != j implies #[trigger] self.children@[i].uri@
                    != #[trigger] self.children@[j].uri@ by {
                    assert(cs0[i].uri@ != cs0[j].uri@);
                }
                assert forall|i: int| 0 <= i < self.children@.len() implies (#[trigger] self.children@[i]).data@.len() == self.size by {
                    assert(cs0[i].data@.len() == self.size);
                }
                assert forall|i: int| 0 <= i < self.children@.len() && #[trigger] self.children@[i].uri@ == uri@ implies self.children@[i].readable() by {
                    assert(cs0[i].uri@ == uri@);
                }
            }
            Ok(RebuildState::Completed)
        } else {
            let ghost js1 = self.rebuilds@;
            self.rebuilds.insert(k, job);
            proof {
                let js = self.rebuilds@;
                assert(js =~= js1.insert(k as int, job));
                assert forall|m: int| 0 <= m < js.len() implies {
                    &&& (#[trigger] js[m]).wf()
                    &&& js[m].total == self.size
                    &&& (js[m].state == RebuildState::Running || js[m].state == RebuildState::Paused)
                    &&& job_consistent(cs1, js[m])
                } by {
                    if m < k {
                        assert(js[m] == js1[m]);
                    } else if m > k {
                        assert(js[m] == js1[m - 1]);
                    } else {
                        assert(cs1[t as int].uri@ == job.target@);
                        assert forall|x: int, y: int|
                            0 <= x < cs1.len() && 0 <= y < cs1.len() && #[trigger] cs1[x].uri@ == job.target@
                                && #[trigger] cs1[y].readable() implies cs1[x].data@.take(job.cursor as int)
                            == cs1[y].data@.take(job.cursor as int) by {
                            assert(cs0[x].uri@ == uri@);
                            assert(x == t);
                            assert(cs0[y].readable() && cs0[s as int].readable());
                        }
                        assert forall|x: int| 0 <= x < cs1.len() && #[trigger] cs1[x].uri@ == job.target@ implies cs1[x].state
                            == ChildState::Degraded by {
                            assert(cs0[x].uri@ == uri@);
                        }
                    }
                }
                assert forall|a: int, b: int|
                    0 <= a < js.len() && 0 <= b < js.len() && a != b implies #[trigger] js[a].target@
                    != #[trigger] js[b].target@ by {
                    if a != k && b != k {
                        let aa = if a < k { a } else { a - 1 };
                        let bb = if b < k { b } else { b - 1 };
                        assert(js[a] == js1[aa] && js[b] == js1[bb]);
                    } else if a == k {
                        let bb = if b < k { b } else { b - 1 };
                        assert(js[b] == js1[bb]);
                    } else {
                        let aa = if a < k { a } else { a - 1 };
                        assert(js[a] == js1[aa]);
                    }
                }
                assert(js[k as int].target@ == uri@);
                assert(js0[k as int].target@ == uri@);
                let k0 = choose|m: int| 0 <= m < js0.len() && #[trigger] js0[m].target@ == uri@;
                assert(k0 == k);
                let k1 = choose|m: int| 0 <= m < js.len() && #[trigger] js[m].target@ == uri@;
                assert(k1 == k) by {
                    if k1 != k {
                        assert(js[k1].target@ != js[k as int].target@);
                    }
                }
                assert(js[k as int] == job);
                assert(job.cursor > c0);
                assert(job_state(js, uri@) == RebuildState::Running);
                assert forall|i: int| 0 <= i < cs0.len() implies (#[trigger] cs1[i]).state == cs0[i].state by {
                    if i != t {
                        assert(cs1[i] == cs0[i]);
                    }
                }
            }
            Ok(RebuildState::Running)
        }
    }

    /// Let the job that targets `uri` copy segment after segment until it is
    /// no longer running: it completes, fails, or was paused.
    pub fn rebuild_to_end(&mut self, uri: &str) -> (r: Result<RebuildState, Error>)
        requires
            old(self).wf(),
        ensures
            final(self).wf(),
            r is Ok <==> has_job(old(self).rebuilds@, uri@),
            r matches Err(e) ==> (e matches Error::RebuildJobNotFound { child } && child@ == uri@),
            r matches Ok(st) ==> st == RebuildState::Paused || st == RebuildState::Completed || st == RebuildState::Failed,
            r matches Ok(st) ==> (has_job(final(self).rebuilds@, uri@) <==> st == RebuildState::Paused),
            r == Ok::<RebuildState, Error>(RebuildState::Completed) ==> {
                &&& has_child(final(self).children@, uri@)
                &&& forall|i: int| 0 <= i < final(self).children@.len() && #[trigger] final(self).children@[i].uri@ == uri@ ==> final(self).children@[i].readable()
            },
            has_job(old(self).rebuilds@, uri@) && job_state(old(self).rebuilds@, uri@) == RebuildState::Running && online_count(old(self).children@) > 0 ==> r == Ok::<RebuildState, Error>(RebuildState::Completed),
            has_job(old(self).rebuilds@, uri@) && job_state(old(self).rebuilds@, uri@) == RebuildState::Paused ==> r == Ok::<RebuildState, Error>(RebuildState::Paused) && *final(self) == *old(self),
            r is Err ==> *final(self) == *old(self),
            final(self).name == old(self).name,
            final(self).size == old(self).size,
            final(self).state == old(self).state,
            final(self).share == old(self).share,
    {
        if self.find_job(uri).is_none() {
            return Err(Error::RebuildJobNotFound { child: uri.to_owned() });
        }
        loop
            invariant
                self.wf(),
                has_job(self.rebuilds@, uri@),
                has_job(old(self).rebuilds@, uri@),
                job_state(old(self).rebuilds@, uri@) == RebuildState::Paused ==> *self == *old(self),
                job_state(old(self).rebuilds@, uri@) == RebuildState::Running && online_count(old(self).children@) > 0 ==> job_state(self.rebuilds@, uri@) == RebuildState::Running && online_count(self.children@) > 0,
                self.name == old(self).name,
                self.size == old(self).size,
                self.state == old(self).state,
                self.share == old(self).share,
            decreases self.size - job_cursor(self.rebuilds@, uri@),
        {
            proof {
                let k = choose|m: int| 0 <= m < self.rebuilds@.len() && #[trigger] self.rebuilds@[m].target@ == uri@;
                assert(self.rebuilds@[k].wf());
            }
            let ghost before = *self;
            let st = match self.rebuild_step(uri) {
                Ok(st) => st,
                Err(e) => {
                    return Err(e);
                },
            };
            if st != RebuildState::Running {
                return Ok(st);
            }
            proof {
                lemma_online_count_same(before.children@, self.children@);
            }
            proof {
                let k = choose|m: int| 0 <= m < self.rebuilds@.len() && #[trigger] self.rebuilds@[m].target@ == uri@;
                assert(self.rebuilds@[k].wf());
            }
        }
    }

    /// The children `cs0` with only the one at `t` changed in state (away
    /// from `Online`) or bytes keep their URIs unique and sizes.
    proof fn lemma_children_update_wf(&self, cs0: Seq<Child>, t: int)
        requires
            uris_unique(cs0),
            forall|i: int| 0 <= i < cs0.len() ==> (#[trigger] cs0[i]).data@.len() == self.size,
            self.children@.len() == cs0.len(),
            0 <= t < cs0.len(),
            forall|i: int| 0 <= i < cs0.len() && i != t ==> self.children@[i] == cs0[i],
            self.children@[t].uri == cs0[t].uri,
            self.children@[t].data@.len() == self.size,
            !cs0[t].readable(),
            !self.children@[t].readable(),
            mirrored(cs0),
        ensures
            uris_unique(self.children@),
            forall|i: int| 0 <= i < self.children@.len() ==> (#[trigger] self.children@[i]).data@.len() == self.size,
            mirrored(self.children@),
    {
        let cs = self.children@;
        assert forall|i: int, j: int|
            0 <= i < cs.len() && 0 <= j < cs.len() && i != j implies #[trigger] cs[i].uri@
            != #[trigger] cs[j].uri@ by {
            assert(cs0[i].uri@ != cs0[j].uri@);
        }
        assert forall|i: int| 0 <= i < cs.len() implies (#[trigger] cs[i]).data@.len() == self.size by {
            assert(cs0[i].data@.len() == self.size);
        }
        assert forall|i: int, j: int|
            0 <= i < cs.len() && 0 <= j < cs.len() && #[trigger] cs[i].readable()
                && #[trigger] cs[j].readable() implies cs[i].data@ == cs[j].data@ by {
            assert(cs0[i].readable() && cs0[j].readable());
        }
    }

    /// The number of `Online` children.
    pub fn count_online(&self) -> (r: usize)
        ensures
            r == online_count(self.children@),
    {
        let mut n: usize = 0;
        let mut i: usize = 0;
        while i < self.children.len()
            invariant
                i <= self.children@.len(),
                n <= i,
                n == online_count(self.children@.take(i as int)),
            decreases self.children@.len() - i,
        {
            assert(self.children@.take(i + 1).drop_last() =~= self.children@.take(i as int));
            if self.children[i].state == ChildState::Online {
                n += 1;
            }
            i += 1;
        }
        assert(self.children@.take(i as int) =~= self.children@);
        n
    }

    /// Stop the job that targets the child at `t`, if there is one, before
    /// the child is taken out of service.
    fn drop_job_of(&mut self, uri: &str, t: usize)
        requires
            old(self).wf(),
            t < old(self).children@.len(),
            old(self).children@[t as int].uri@ == uri@,
        ensures
            final(self).wf(),
            !has_job(final(self).rebuilds@, uri@),
            forall|m: int| 0 <= m < final(self).rebuilds@.len() ==> #[trigger] final(self).rebuilds@[m].target@ != uri@,
            final(self).children == old(self).children,
            final(self).name == old(self).name,
            final(self).size == old(self).size,
            final(self).state == old(self).state,
            final(self).share == old(self).share,
    {
        if let Some(k) = self.find_job(uri) {
            let ghost js0 = self.rebuilds@;
            let mut job = self.rebuilds.remove(k);
            let _ = job.transition(RebuildState::Stopped);
            proof { lemma_jobs_remove(self.children@, js0, self.size, k as int); }
        } else {
            assert forall|m: int| 0 <= m < self.rebuilds@.len() implies #[trigger] self.rebuilds@[m].target@ != uri@ by {
                if self.rebuilds@[m].target@ == uri@ {
                    assert(has_job(self.rebuilds@, uri@));
                }
            }
        }
    }

    /// Take the child `uri` out of service: its job, if any, is stopped and the
    /// child turns `Faulted`. Where that leaves no `Online` child, the nexus
    /// turns `Faulted`.
    pub fn offline_child(&mut self, uri: &str) -> (r: Result<(), Error>)
        requires
            old(self).wf(),
        ensures
            final(self).wf(),
            offline_child_post(*old(self), *final(self), uri@, r),
    {
        let t = match self.find_child(uri) {
            Some(t) => t,
            None => {
                return Err(Error::ChildNotFound { name: self.name.clone(), child: uri.to_owned() });
            },
        };
        self.drop_job_of(uri, t);
        let ghost cs0 = self.children@;
        let mut c = self.children.remove(t);
        c.fault();
        self.children.insert(t, c);
        assert(self.children@ =~= cs0.update(t as int, c));
        proof {
            lemma_retire_child(cs0, self.children@, self.rebuilds@, self.size, t as int);
            let cs = self.children@;
            assert forall|i: int, j: int|
                0 <= i < cs.len() && 0 <= j < cs.len() && i != j implies #[trigger] cs[i].uri@
                != #[trigger] cs[j].uri@ by {
                assert(cs0[i].uri@ != cs0[j].uri@);
            }
            assert forall|i: int| 0 <= i < cs.len() implies (#[trigger] cs[i]).data@.len() == self.size by {
                assert(cs0[i].data@.len() == self.size);
            }
            assert forall|i: int, j: int|
                0 <= i < cs.len() && 0 <= j < cs.len() && #[trigger] cs[i].readable()
                    && #[trigger] cs[j].readable() implies cs[i].data@ == cs[j].data@ by {
                assert(cs0[i].readable() && cs0[j].readable());
            }
            assert forall|i: int| 0 <= i < cs0.len() && cs0[i].uri@ == uri@ implies i == t by {
                if i != t {
                    assert(cs0[i].uri@ != cs0[t as int].uri@);
                }
            }
        }
        if self.count_online() == 0 {
            self.state = NexusState::Faulted;
        }
        Ok(())
    }

    /// Bring a `Faulted` child back as `Degraded`: it takes writes again but
    /// serves reads only after an explicit rebuild. Children in other states
    /// are left as they are.
    pub fn online_child(&mut self, uri: &str) -> (r: Result<(), Error>)
        requires
            old(self).wf(),
        ensures
            final(self).wf(),
            online_child_post(*old(self), *final(self), uri@, r),
    {
        let t = match self.find_child(uri) {
            Some(t) => t,
            None => {
                return Err(Error::ChildNotFound { name: self.name.clone(), child: uri.to_owned() });
            },
        };
        let ghost cs0 = self.children@;
        proof {
            assert forall|i: int| 0 <= i < cs0.len() && cs0[i].uri@ == uri@ implies i == t by {
                if i != t {
                    assert(cs0[i].uri@ != cs0[t as int].uri@);
                }
            }
        }
        if self.children[t].state == ChildState::Faulted {
            proof {
                assert forall|m: int| 0 <= m < self.rebuilds@.len() implies #[trigger] self.rebuilds@[m].target@ != uri@ by {
                    assert(job_consistent(cs0, self.rebuilds@[m]));
                }
            }
            let mut c = self.children.remove(t);
            c.state = ChildState::Degraded;
            self.children.insert(t, c);
            assert(self.children@ =~= cs0.update(t as int, c));
            proof {
                lemma_retire_child(cs0, self.children@, self.rebuilds@, self.size, t as int);
                self.lemma_children_update_wf(cs0, t as int);
            }
        }
        Ok(())
    }

    /// Detach the child `uri`, stopping its job first. The last `Online`
    /// child cannot be removed.
    pub fn remove_child(&mut self, uri: &str) -> (r: Result<(), Error>)
        requires
            old(self).wf(),
        ensures
            final(self).wf(),
            remove_child_post(*old(self), *final(self), uri@, r),
    {
        let t = match self.find_child(uri) {
            Some(t) => t,
            None => {
                return Err(Error::ChildNotFound { name: self.name.clone(), child: uri.to_owned() });
            },
        };
        let ghost cs0 = self.children@;
        proof {
            assert forall|i: int| 0 <= i < cs0.len() && cs0[i].uri@ == uri@ implies i == t by {
                if i != t {
                    assert(cs0[i].uri@ != cs0[t as int].uri@);
                }
            }
        }
        if self.children[t].state == ChildState::Online && self.count_online() == 1 {
            return Err(Error::LastChildRemove { name: self.name.clone(), child: uri.to_owned() });
        }
        self.drop_job_of(uri, t);
        let mut c = self.children.remove(t);
        c.close();
        proof {
            lemma_remove_child(cs0, self.rebuilds@, self.size, t as int);
            if has_child(self.children@, uri@) {
                let w = choose|i: int| 0 <= i < self.children@.len() && #[trigger] self.children@[i].uri@ == uri@;
                let ww = if w < t { w } else { w + 1 };
                assert(self.children@[w] == cs0[ww]);
            }
        }
        Ok(())
    }

    /// Close the nexus: withdraw the share, stop every job and close every
    /// child.
    pub fn destroy(&mut self) -> (r: Result<(), Error>)
        requires
            old(self).wf(),
        ensures
            final(self).wf(),
            r is Ok,
            final(self).share is None,
            final(self).state == NexusState::Closed,
            final(self).rebuilds@.len() == 0,
            final(self).children@.len() == old(self).children@.len(),
            forall|i: int| 0 <= i < old(self).children@.len() ==> {
                &&& (#[trigger] final(self).children@[i]).state == ChildState::Closed
                &&& final(self).children@[i].uri == old(self).children@[i].uri
            },
            final(self).name == old(self).name,
            final(self).size == old(self).size,
    {
        self.share = None;
        self.state = NexusState::Closing;
        self.rebuilds = Vec::new();
        let ghost cs0 = self.children@;
        let mut i: usize = 0;
        while i < self.children.len()
            invariant
                i <= self.children@.len(),
                self.children@.len() == cs0.len(),
                self.share is None,
                self.rebuilds@.len() == 0,
                self.name == old(self).name,
                self.size == old(self).size,
                forall|k: int| 0 <= k < cs0.len() ==> (#[trigger] cs0[k]).data@.len() == self.size,
                forall|k: int| 0 <= k < cs0.len() ==> {
                    &&& (#[trigger] self.children@[k]).uri == cs0[k].uri
                    &&& self.children@[k].data == cs0[k].data
                    &&& (k < i ==> self.children@[k].state == ChildState::Closed)
                },
            decreases cs0.len() - i,
        {
            let ghost before = self.children@;
            let mut c = self.children.remove(i);
            c.close();
            self.children.insert(i, c);
            assert(self.children@ =~= before.update(i as int, c));
            i += 1;
        }
        self.state = NexusState::Closed;
        proof {
            let cs = self.children@;
            assert forall|a: int, b: int|
                0 <= a < cs.len() && 0 <= b < cs.len() && a != b implies #[trigger] cs[a].uri@
                != #[trigger] cs[b].uri@ by {
                assert(cs0[a].uri@ != cs0[b].uri@);
            }
            assert forall|a: int| 0 <= a < cs.len() implies (#[trigger] cs[a]).data@.len() == self.size by {
                assert(cs0[a].data@.len() == self.size);
            }
            assert forall|a: int| 0 <= a < cs.len() implies !(#[trigger] cs[a]).readable() by {}
        }
        Ok(())
    }

    /// Move the job that targets `uri` between `Running` and `Paused`, where
    /// the state machine allows it.
    fn move_job(&mut self, uri: &str, to: RebuildState) -> (r: Result<(), Error>)
        requires
            old(self).wf(),
            to == RebuildState::Running || to == RebuildState::Paused,
        ensures
            final(self).wf(),
            r is Ok <==> has_job(old(self).rebuilds@, uri@),
            r matches Err(e) ==> (e matches Error::RebuildJobNotFound { child } && child@ == uri@),
            final(self).rebuilds@.len() == old(self).rebuilds@.len(),
            forall|k: int| 0 <= k < old(self).rebuilds@.len() ==> {
                let j0 = old(self).rebuilds@[k];
                let j1 = #[trigger] final(self).rebuilds@[k];
                &&& j1.target == j0.target
                &&& j1.source == j0.source
                &&& j1.cursor == j0.cursor
                &&& j1.total == j0.total
                &&& j1.segment == j0.segment
                &&& j1.state == if j0.target@ == uri@ && crate::rebuild::rebuild_transition(j0.state, to) {
                    to
                } else {
                    j0.state
                }
            },
            final(self).children == old(self).children,
            final(self).name == old(self).name,
            final(self).size == old(self).size,
            final(self).state == old(self).state,
            final(self).share == old(self).share,
    {
        let k = match self.find_job(uri) {
            Some(k) => k,
            None => {
                proof {
                    assert forall|m: int| 0 <= m < self.rebuilds@.len() implies #[trigger] self.rebuilds@[m].target@ != uri@ by {
                        if self.rebuilds@[m].target@ == uri@ {
                            assert(has_job(self.rebuilds@, uri@));
                        }
                    }
                }
                return Err(Error::RebuildJobNotFound { child: uri.to_owned() });
            },
        };
        let ghost js0 = self.rebuilds@;
        proof {
            assert forall|m: int| 0 <= m < js0.len() && #[trigger] js0[m].target@ == uri@ implies m == k by {
                if m != k {
                    assert(js0[m].target@ != js0[k as int].target@);
                }
            }
        }
        let mut job = self.rebuilds.remove(k);
        let _ = job.transition(to);
        self.rebuilds.insert(k, job);
        proof {
            let js = self.rebuilds@;
            assert(js =~= js0.update(k as int, job));
            let cs = self.children@;
            assert(job_consistent(cs, js0[k as int]));
            assert forall|m: int| 0 <= m < js.len() implies {
                &&& (#[trigger] js[m]).wf()
                &&& js[m].total == self.size
                &&& (js[m].state == RebuildState::Running || js[m].state == RebuildState::Paused)
                &&& job_consistent(cs, js[m])
            } by {
                if m != k {
                    assert(js[m] == js0[m]);
                } else {
                    let t0 = choose|x: int| 0 <= x < cs.len() && #[trigger] cs[x].uri@ == js0[k as int].target@;
                    assert(cs[t0].uri@ == js[m].target@);
                }
            }
            assert forall|a: int, b: int|
                0 <= a < js.len() && 0 <= b < js.len() && a != b implies #[trigger] js[a].target@
                != #[trigger] js[b].target@ by {
                assert(js0[a].target@ != js0[b].target@);
            }
        }
        Ok(())
    }

    /// Pause the running job that targets `uri`; it keeps its place and can
    /// be resumed.
    pub fn pause_rebuild(&mut self, uri: &str) -> (r: Result<(), Error>)
        requires
            old(self).wf(),
        ensures
            final(self).wf(),
            r is Ok <==> has_job(old(self).rebuilds@, uri@),
            r matches Err(e) ==> (e matches Error::RebuildJobNotFound { child } && child@ == uri@),
            final(self).rebuilds@.len() == old(self).rebuilds@.len(),
            forall|k: int| 0 <= k < old(self).rebuilds@.len() ==> {
                let j0 = old(self).rebuilds@[k];
                let j1 = #[trigger] final(self).rebuilds@[k];
                &&& j1.target == j0.target
                &&& j1.cursor == j0.cursor
                &&& j1.state == if j0.target@ == uri@ { RebuildState::Paused } else { j0.state }
            },
            final(self).children == old(self).children,
    {
        self.move_job(uri, RebuildState::Paused)
    }

    /// Resume the paused job that targets `uri`.
    pub fn resume_rebuild(&mut self, uri: &str) -> (r: Result<(), Error>)
        requires
            old(self).wf(),
        ensures
            final(self).wf(),
            r is Ok <==> has_job(old(self).rebuilds@, uri@),
            r matches Err(e) ==> (e matches Error::RebuildJobNotFound { child } && child@ == uri@),
            final(self).rebuilds@.len() == old(self).rebuilds@.len(),
            forall|k: int| 0 <= k < old(self).rebuilds@.len() ==> {
                let j0 = old(self).rebuilds@[k];
                let j1 = #[trigger] final(self).rebuilds@[k];
                &&& j1.target == j0.target
                &&& j1.cursor == j0.cursor
                &&& j1.state == if j0.target@ == uri@ { RebuildState::Running } else { j0.state }
            },
            final(self).children == old(self).children,
    {
        self.move_job(uri, RebuildState::Running)
    }

    /// The state of the job that targets `uri`.
    pub fn get_rebuild_state(&self, uri: &str) -> (r: Result<RebuildState, Error>)
        requires
            self.wf(),
        ensures
            get_rebuild_state_post(*self, uri@, r),
    {
        match self.find_job(uri) {
            Some(k) => Ok(self.rebuilds[k].state),
            None => Err(Error::RebuildJobNotFound { child: uri.to_owned() }),
        }
    }

    /// How far the job that targets `uri` has come, in whole percent.
    pub fn get_rebuild_progress(&self, uri: &str) -> (r: Result<u64, Error>)
        requires
            self.wf(),
        ensures
            get_rebuild_progress_post(*self, uri@, r),
    {
        match self.find_job(uri) {
            Some(k) => Ok(self.rebuilds[k].progress()),
            None => Err(Error::RebuildJobNotFound { child: uri.to_owned() }),
        }
    }

    /// Withdraw the exposure; nothing happens where there is none.
    pub fn unshare(&mut self) -> (r: Result<(), Error>)
        requires
            old(self).wf(),
        ensures
            final(self).wf(),
            r is Ok,
            final(self).share is None,
            final(self).state == if old(self).state == NexusState::Shared {
                NexusState::Unshared
            } else {
                old(self).state
            },
            final(self).name == old(self).name,
            final(self).size == old(self).size,
            final(self).children == old(self).children,
            final(self).rebuilds == old(self).rebuilds,
    {
        if self.state == NexusState::Shared {
            self.state = NexusState::Unshared;
        }
        self.share = None;
        Ok(())
    }
}

} // verus!

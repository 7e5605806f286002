use vstd::prelude::*;

use crate::child::ChildState;
use crate::error::Error;
use crate::naming::{chars_of, name_of_uuid, name_to_uuid, uuid_of_name, uuid_to_name};
use crate::nexus::{Nexus, NexusState, ShareProtocol};
use crate::rebuild::RebuildState;

verus! {

/// The live nexus instances of one engine, each under a distinct name.
#[derive(Debug)]
pub struct Registry {
    pub nexuses: Vec<Nexus>,
}

/// What `list_nexus` reports of one child.
#[derive(Debug)]
pub struct ChildSummary {
    pub uri: String,
    pub state: ChildState,
}

/// What `list_nexus` reports of one nexus.
#[derive(Debug)]
pub struct NexusSummary {
    pub uuid: String,
    pub size: u64,
    pub state: NexusState,
    pub children: Vec<ChildSummary>,
    pub device_path: String,
    pub rebuilds: u64,
}

/// No two nexuses carry the same name.
pub open spec fn names_unique(ns: Seq<Nexus>) -> bool {
    forall|i: int, j: int|
        0 <= i < ns.len() && 0 <= j < ns.len() && i != j ==> #[trigger] ns[i].name@
            != #[trigger] ns[j].name@
}

/// Some nexus carries the name `n`.
pub open spec fn has_nexus(ns: Seq<Nexus>, n: Seq<char>) -> bool {
    exists|i: int| 0 <= i < ns.len() && #[trigger] ns[i].name@ == n
}

/// The nexus of UUID text `u` is registered.
pub open spec fn has_uuid(ns: Seq<Nexus>, u: Seq<char>) -> bool {
    name_of_uuid(u) matches Some(n) && has_nexus(ns, n)
}

/// A key is accepted when it is empty or exactly 16 characters long.
pub open spec fn valid_key(k: Seq<char>) -> bool {
    k.len() == 0 || k.len() == 16
}

/// The failure that looking up the nexus of UUID text `u` gives.
pub open spec fn lookup_error(ns: Seq<Nexus>, u: Seq<char>, e: Error) -> bool {
    if name_of_uuid(u) is None {
        e matches Error::InvalidUuid { uuid } && uuid@ == u
    } else {
        e matches Error::NexusNotFound { name } && name@ == u
    }
}

impl Registry {
    pub open spec fn wf(&self) -> bool {
        &&& names_unique(self.nexuses@)
        &&& forall|i: int| 0 <= i < self.nexuses@.len() ==> (#[trigger] self.nexuses@[i]).wf()
    }

    /// `self` is `old` with only the nexus at `i` changed, under its name.
    pub open spec fn replaced_at(&self, old: &Registry, i: int) -> bool {
        &&& self.nexuses@.len() == old.nexuses@.len()
        &&& 0 <= i < old.nexuses@.len()
        &&& self.nexuses@[i].name == old.nexuses@[i].name
        &&& forall|k: int| 0 <= k < old.nexuses@.len() && k != i ==> #[trigger] self.nexuses@[k] == old.nexuses@[k]
    }

    pub fn new() -> (r: Registry)
        ensures
            r.wf(),
            r.nexuses@.len() == 0,
    {
        Registry { nexuses: Vec::new() }
    }

    /// Index of the nexus named `name`.
    pub fn find(&self, name: &str) -> (r: Option<usize>)
        ensures
            r is None <==> !has_nexus(self.nexuses@, name@),
            r matches Some(i) ==> i < self.nexuses@.len() && self.nexuses@[i as int].name@ == name@,
    {
        let u = name.to_owned();
        let mut i: usize = 0;
        while i < self.nexuses.len()
            invariant
                i <= self.nexuses@.len(),
                u@ == name@,
                forall|k: int| 0 <= k < i ==> self.nexuses@[k].name@ != name@,
            decreases self.nexuses@.len() - i,
        {
            if self.nexuses[i].name == u {
                return Some(i);
            }
            i += 1;
        }
        None
    }

    /// Register a new nexus named `name` of `size` bytes over `children`.
    pub fn nexus_create(&mut self, name: &str, size: u64, children: &Vec<String>) -> (r: Result<(), Error>)
        requires
            old(self).wf(),
            size <= usize::MAX,
        ensures
            final(self).wf(),
            has_nexus(old(self).nexuses@, name@) ==> (r matches Err(e) && (e matches Error::NameExists { name: n } && n@ == name@)),
            r is Ok <==> !has_nexus(old(self).nexuses@, name@) && crate::nexus::strs_unique(children@),
            r is Err ==> final(self).nexuses == old(self).nexuses,
            r is Ok ==> {
                &&& final(self).nexuses@.len() == old(self).nexuses@.len() + 1
                &&& final(self).nexuses@.take(old(self).nexuses@.len() as int) == old(self).nexuses@
                &&& final(self).nexuses@.last().name@ == name@
                &&& final(self).nexuses@.last().size == size
                &&& final(self).nexuses@.last().state == NexusState::Open
                &&& final(self).nexuses@.last().children@.len() == children@.len()
                &&& forall|i: int| 0 <= i < children@.len() ==> (#[trigger] final(self).nexuses@.last().children@[i]).uri@ == children@[i]@ && final(self).nexuses@.last().children@[i].state == ChildState::Online
            },
    {
        if self.find(name).is_some() {
            return Err(Error::NameExists { name: name.to_owned() });
        }
        let n = match Nexus::new(name.to_owned(), size, children) {
            Ok(n) => n,
            Err(e) => {
                return Err(e);
            },
        };
        let ghost ns0 = self.nexuses@;
        self.nexuses.push(n);
        assert(self.nexuses@.take(ns0.len() as int) =~= ns0);
        proof {
            let ns = self.nexuses@;
            assert forall|a: int, b: int|
                0 <= a < ns.len() && 0 <= b < ns.len() && a != b implies #[trigger] ns[a].name@
                != #[trigger] ns[b].name@ by {
                if a < ns0.len() && b < ns0.len() {
                    assert(ns0[a] == ns[a] && ns0[b] == ns[b]);
                } else if a < ns0.len() {
                    assert(ns0[a] == ns[a]);
                } else {
                    assert(ns0[b] == ns[b]);
                }
            }
            assert forall|a: int| 0 <= a < ns.len() implies (#[trigger] ns[a]).wf() by {
                if a < ns0.len() {
                    assert(ns0[a] == ns[a]);
                }
            }
        }
        Ok(())
    }

    /// Register a new nexus for the UUID text `uuid`.
    pub fn create_nexus(&mut self, uuid: &str, size: u64, children: &Vec<String>) -> (r: Result<(), Error>)
        requires
            old(self).wf(),
            size <= usize::MAX,
        ensures
            final(self).wf(),
            name_of_uuid(uuid@) is None ==> (r matches Err(e) && (e matches Error::InvalidUuid { uuid: u } && u@ == uuid@)),
            r is Ok <==> !(name_of_uuid(uuid@) is None) && !has_uuid(old(self).nexuses@, uuid@) && crate::nexus::strs_unique(children@),
            r is Err ==> final(self).nexuses == old(self).nexuses,
            r is Ok ==> {
                &&& final(self).nexuses@.len() == old(self).nexuses@.len() + 1
                &&& final(self).nexuses@.take(old(self).nexuses@.len() as int) == old(self).nexuses@
                &&& Some(final(self).nexuses@.last().name@) == name_of_uuid(uuid@)
                &&& final(self).nexuses@.last().size == size
                &&& final(self).nexuses@.last().state == NexusState::Open
                &&& final(self).nexuses@.last().children@.len() == children@.len()
                &&& forall|i: int| 0 <= i < children@.len() ==> (#[trigger] final(self).nexuses@.last().children@[i]).uri@ == children@[i]@ && final(self).nexuses@.last().children@[i].state == ChildState::Online
            },
    {
        let name = match uuid_to_name(uuid) {
            Ok(n) => n,
            Err(e) => {
                return Err(e);
            },
        };
        self.nexus_create(name.as_str(), size, children)
    }

    /// Index of the nexus of UUID text `uuid`.
    pub fn nexus_lookup(&self, uuid: &str) -> (r: Result<usize, Error>)
        ensures
            r is Ok <==> has_uuid(self.nexuses@, uuid@),
            r matches Ok(i) ==> i < self.nexuses@.len() && Some(self.nexuses@[i as int].name@) == name_of_uuid(uuid@),
            r matches Err(e) ==> lookup_error(self.nexuses@, uuid@, e),
    {
        let name = match uuid_to_name(uuid) {
            Ok(n) => n,
            Err(e) => {
                return Err(e);
            },
        };
        match self.find(name.as_str()) {
            Some(i) => Ok(i),
            None => Err(Error::NexusNotFound { name: uuid.to_owned() }),
        }
    }

    /// Destroy the nexus of UUID text `uuid` and free its name.
    pub fn destroy_nexus(&mut self, uuid: &str) -> (r: Result<(), Error>)
        requires
            old(self).wf(),
        ensures
            final(self).wf(),
            r is Ok <==> has_uuid(old(self).nexuses@, uuid@),
            r matches Err(e) ==> lookup_error(old(self).nexuses@, uuid@, e),
            r is Err ==> final(self).nexuses == old(self).nexuses,
            r is Ok ==> !has_uuid(final(self).nexuses@, uuid@) && exists|i: int| 0 <= i < old(self).nexuses@.len() && Some(old(self).nexuses@[i].name@) == name_of_uuid(uuid@) && final(self).nexuses@ == old(self).nexuses@.remove(i),
    {
        let i = match self.nexus_lookup(uuid) {
            Ok(i) => i,
            Err(e) => {
                return Err(e);
            },
        };
        let ghost ns0 = self.nexuses@;
        let mut n = self.nexuses.remove(i);
        let _ = n.destroy();
        proof {
            let ns = self.nexuses@;
            assert forall|k: int| 0 <= k < ns.len() implies #[trigger] ns[k] == ns0[if k < i { k } else { k + 1 }] by {}
            assert forall|a: int, b: int|
                0 <= a < ns.len() && 0 <= b < ns.len() && a != b implies #[trigger] ns[a].name@
                != #[trigger] ns[b].name@ by {
                assert(ns[a] == ns0[if a < i { a } else { a + 1 }]);
                assert(ns[b] == ns0[if b < i { b } else { b + 1 }]);
            }
            assert forall|a: int| 0 <= a < ns.len() implies (#[trigger] ns[a]).wf() by {
                assert(ns[a] == ns0[if a < i { a } else { a + 1 }]);
            }
            if has_uuid(ns, uuid@) {
                let w = choose|k: int| 0 <= k < ns.len() && #[trigger] ns[k].name@ == name_of_uuid(uuid@)->Some_0;
                assert(ns[w] == ns0[if w < i { w } else { w + 1 }]);
            }
        }
        Ok(())
    }

    /// Expose the nexus of UUID text `uuid` over the protocol of wire code
    /// `share`, with `key` unless it is empty. The key and the code are checked
    /// before anything changes. A nexus already shared keeps its device path.
    pub fn publish_nexus(&mut self, uuid: &str, key: &str, share: i32) -> (r: Result<String, Error>)
        requires
            old(self).wf(),
        ensures
            final(self).wf(),
            !valid_key(key@) ==> (r matches Err(e) && e matches Error::InvalidKey),
            valid_key(key@) && ShareProtocol::spec_from_code(share) is None ==> (r matches Err(e) && (e matches Error::InvalidShareProtocol { sp_value } && sp_value == share)),
            valid_key(key@) && ShareProtocol::spec_from_code(share) is Some && !has_uuid(old(self).nexuses@, uuid@) ==> (r matches Err(e) && lookup_error(old(self).nexuses@, uuid@, e)),
            r is Ok <==> valid_key(key@) && ShareProtocol::spec_from_code(share) is Some && has_uuid(old(self).nexuses@, uuid@),
            r is Err ==> final(self).nexuses == old(self).nexuses,
            r matches Ok(p) ==> exists|i: int| {
                &&& final(self).replaced_at(old(self), i)
                &&& Some(old(self).nexuses@[i].name@) == name_of_uuid(uuid@)
                &&& final(self).nexuses@[i].share_path() == Some(p@)
                &&& p@ == match old(self).nexuses@[i].share_path() {
                    Some(q) => q,
                    None => crate::nexus::device_path_of(ShareProtocol::spec_from_code(share)->Some_0, old(self).nexuses@[i].name@),
                }
                &&& old(self).nexuses@[i].share is None ==> (final(self).nexuses@[i].share matches Some(sh) && (sh.key is None <==> key@.len() == 0))
            },
    {
        let kv = chars_of(key);
        if kv.len() != 0 && kv.len() != 16 {
            return Err(Error::InvalidKey);
        }
        let k: Option<String> = if kv.len() == 0 {
            None
        } else {
            Some(key.to_owned())
        };
        let protocol = match ShareProtocol::from_code(share) {
            Some(p) => p,
            None => {
                return Err(Error::InvalidShareProtocol { sp_value: share });
            },
        };
        let i = match self.nexus_lookup(uuid) {
            Ok(i) => i,
            Err(e) => {
                return Err(e);
            },
        };
        let ghost old_reg = *self;
        let mut n = self.nexuses.remove(i);
        let r = n.share(protocol, k);
        self.nexuses.insert(i, n);
        proof {
            assert(self.nexuses@ =~= old_reg.nexuses@.update(i as int, n));
            self.lemma_replaced_wf(&old_reg, i as int);
            assert(self.replaced_at(&old_reg, i as int));
            assert(self.nexuses@[i as int] == n);
        }
        r
    }

    /// Withdraw the exposure of the nexus of UUID text `uuid`.
    pub fn unpublish_nexus(&mut self, uuid: &str) -> (r: Result<(), Error>)
        requires
            old(self).wf(),
        ensures
            final(self).wf(),
            r is Ok <==> has_uuid(old(self).nexuses@, uuid@),
            r matches Err(e) ==> lookup_error(old(self).nexuses@, uuid@, e),
            r is Err ==> final(self).nexuses == old(self).nexuses,
            r is Ok ==> exists|i: int| {
                &&& final(self).replaced_at(old(self), i)
                &&& Some(old(self).nexuses@[i].name@) == name_of_uuid(uuid@)
                &&& final(self).nexuses@[i].share is None
            },
    {
        let i = match self.nexus_lookup(uuid) {
            Ok(i) => i,
            Err(e) => {
                return Err(e);
            },
        };
        let ghost old_reg = *self;
        let mut n = self.nexuses.remove(i);
        let r = n.unshare();
        self.nexuses.insert(i, n);
        proof {
            assert(self.nexuses@ =~= old_reg.nexuses@.update(i as int, n));
            self.lemma_replaced_wf(&old_reg, i as int);
            assert(self.replaced_at(&old_reg, i as int));
            assert(self.nexuses@[i as int] == n);
        }
        r
    }

    /// Attach a new `Degraded` child `uri` to the nexus of UUID text `uuid`.
    pub fn add_child_nexus(&mut self, uuid: &str, uri: &str) -> (r: Result<(), Error>)
        requires
            old(self).wf(),
        ensures
            final(self).wf(),
            !has_uuid(old(self).nexuses@, uuid@) ==> (r matches Err(e) && lookup_error(old(self).nexuses@, uuid@, e)),
            r is Err ==> final(self).nexuses@ == old(self).nexuses@,
            has_uuid(old(self).nexuses@, uuid@) ==> exists|i: int| {
                &&& final(self).replaced_at(old(self), i)
                &&& Some(old(self).nexuses@[i].name@) == name_of_uuid(uuid@)
                &&& crate::nexus::add_child_post(old(self).nexuses@[i], final(self).nexuses@[i], uri@, r)
            },
    {
        let i = match self.nexus_lookup(uuid) {
            Ok(i) => i,
            Err(e) => {
                return Err(e);
            },
        };
        let ghost old_reg = *self;
        let mut n = self.nexuses.remove(i);
        let r = n.add_child(uri);
        self.nexuses.insert(i, n);
        proof {
            assert(self.nexuses@ =~= old_reg.nexuses@.update(i as int, n));
            self.lemma_replaced_wf(&old_reg, i as int);
            assert(self.replaced_at(&old_reg, i as int));
            assert(self.nexuses@[i as int] == n);
            if r is Err {
                assert(self.nexuses@ =~= old_reg.nexuses@);
            }
        }
        r
    }

    /// Detach the child `uri` from the nexus of UUID text `uuid`.
    pub fn remove_child_nexus(&mut self, uuid: &str, uri: &str) -> (r: Result<(), Error>)
        requires
            old(self).wf(),
        ensures
            final(self).wf(),
            !has_uuid(old(self).nexuses@, uuid@) ==> (r matches Err(e) && lookup_error(old(self).nexuses@, uuid@, e)),
            r is Err ==> final(self).nexuses@ == old(self).nexuses@,
            has_uuid(old(self).nexuses@, uuid@) ==> exists|i: int| {
                &&& final(self).replaced_at(old(self), i)
                &&& Some(old(self).nexuses@[i].name@) == name_of_uuid(uuid@)
                &&& crate::nexus::remove_child_post(old(self).nexuses@[i], final(self).nexuses@[i], uri@, r)
            },
    {
        let i = match self.nexus_lookup(uuid) {
            Ok(i) => i,
            Err(e) => {
                return Err(e);
            },
        };
        let ghost old_reg = *self;
        let mut n = self.nexuses.remove(i);
        let r = n.remove_child(uri);
        self.nexuses.insert(i, n);
        proof {
            assert(self.nexuses@ =~= old_reg.nexuses@.update(i as int, n));
            self.lemma_replaced_wf(&old_reg, i as int);
            assert(self.replaced_at(&old_reg, i as int));
            assert(self.nexuses@[i as int] == n);
            if r is Err {
                assert(self.nexuses@ =~= old_reg.nexuses@);
            }
        }
        r
    }

    /// Take the child `uri` of the nexus of UUID text `uuid` out of service.
    pub fn offline_child(&mut self, uuid: &str, uri: &str) -> (r: Result<(), Error>)
        requires
            old(self).wf(),
        ensures
            final(self).wf(),
            !has_uuid(old(self).nexuses@, uuid@) ==> (r matches Err(e) && lookup_error(old(self).nexuses@, uuid@, e)),
            r is Err ==> final(self).nexuses@ == old(self).nexuses@,
            has_uuid(old(self).nexuses@, uuid@) ==> exists|i: int| {
                &&& final(self).replaced_at(old(self), i)
                &&& Some(old(self).nexuses@[i].name@) == name_of_uuid(uuid@)
                &&& crate::nexus::offline_child_post(old(self).nexuses@[i], final(self).nexuses@[i], uri@, r)
            },
    {
        let i = match self.nexus_lookup(uuid) {
            Ok(i) => i,
            Err(e) => {
                return Err(e);
            },
        };
        let ghost old_reg = *self;
        let mut n = self.nexuses.remove(i);
        let r = n.offline_child(uri);
        self.nexuses.insert(i, n);
        proof {
            assert(self.nexuses@ =~= old_reg.nexuses@.update(i as int, n));
            self.lemma_replaced_wf(&old_reg, i as int);
            assert(self.replaced_at(&old_reg, i as int));
            assert(self.nexuses@[i as int] == n);
            if r is Err {
                assert(self.nexuses@ =~= old_reg.nexuses@);
            }
        }
        r
    }

    /// Bring the faulted child `uri` of the nexus of UUID text `uuid` back as
    /// `Degraded`; it needs a rebuild before it serves reads.
    pub fn online_child(&mut self, uuid: &str, uri: &str) -> (r: Result<(), Error>)
        requires
            old(self).wf(),
        ensures
            final(self).wf(),
            !has_uuid(old(self).nexuses@, uuid@) ==> (r matches Err(e) && lookup_error(old(self).nexuses@, uuid@, e)),
            r is Err ==> final(self).nexuses@ == old(self).nexuses@,
            has_uuid(old(self).nexuses@, uuid@) ==> exists|i: int| {
                &&& final(self).replaced_at(old(self), i)
                &&& Some(old(self).nexuses@[i].name@) == name_of_uuid(uuid@)
                &&& crate::nexus::online_child_post(old(self).nexuses@[i], final(self).nexuses@[i], uri@, r)
            },
    {
        let i = match self.nexus_lookup(uuid) {
            Ok(i) => i,
            Err(e) => {
                return Err(e);
            },
        };
        let ghost old_reg = *self;
        let mut n = self.nexuses.remove(i);
        let r = n.online_child(uri);
        self.nexuses.insert(i, n);
        proof {
            assert(self.nexuses@ =~= old_reg.nexuses@.update(i as int, n));
            self.lemma_replaced_wf(&old_reg, i as int);
            assert(self.replaced_at(&old_reg, i as int));
            assert(self.nexuses@[i as int] == n);
            if r is Err {
                assert(self.nexuses@ =~= old_reg.nexuses@);
            }
        }
        r
    }

    /// Start rebuilding the child `uri` of the nexus of UUID text `uuid`.
    pub fn start_rebuild(&mut self, uuid: &str, uri: &str) -> (r: Result<(), Error>)
        requires
            old(self).wf(),
        ensures
            final(self).wf(),
            !has_uuid(old(self).nexuses@, uuid@) ==> (r matches Err(e) && lookup_error(old(self).nexuses@, uuid@, e)),
            r is Err ==> final(self).nexuses@ == old(self).nexuses@,
            has_uuid(old(self).nexuses@, uuid@) ==> exists|i: int| {
                &&& final(self).replaced_at(old(self), i)
                &&& Some(old(self).nexuses@[i].name@) == name_of_uuid(uuid@)
                &&& crate::nexus::start_rebuild_post(old(self).nexuses@[i], final(self).nexuses@[i], uri@, r)
            },
    {
        let i = match self.nexus_lookup(uuid) {
            Ok(i) => i,
            Err(e) => {
                return Err(e);
            },
        };
        let ghost old_reg = *self;
        let mut n = self.nexuses.remove(i);
        let r = n.start_rebuild(uri);
        self.nexuses.insert(i, n);
        proof {
            assert(self.nexuses@ =~= old_reg.nexuses@.update(i as int, n));
            self.lemma_replaced_wf(&old_reg, i as int);
            assert(self.replaced_at(&old_reg, i as int));
            assert(self.nexuses@[i as int] == n);
            if r is Err {
                assert(self.nexuses@ =~= old_reg.nexuses@);
            }
        }
        r
    }

    /// Cancel the rebuild of the child `uri` of the nexus of UUID text `uuid`;
    /// the child is left `Faulted`.
    pub fn stop_rebuild(&mut self, uuid: &str, uri: &str) -> (r: Result<(), Error>)
        requires
            old(self).wf(),
        ensures
            final(self).wf(),
            !has_uuid(old(self).nexuses@, uuid@) ==> (r matches Err(e) && lookup_error(old(self).nexuses@, uuid@, e)),
            r is Err ==> final(self).nexuses@ == old(self).nexuses@,
            has_uuid(old(self).nexuses@, uuid@) ==> exists|i: int| {
                &&& final(self).replaced_at(old(self), i)
                &&& Some(old(self).nexuses@[i].name@) == name_of_uuid(uuid@)
                &&& crate::nexus::stop_rebuild_post(old(self).nexuses@[i], final(self).nexuses@[i], uri@, r)
            },
    {
        let i = match self.nexus_lookup(uuid) {
            Ok(i) => i,
            Err(e) => {
                return Err(e);
            },
        };
        let ghost old_reg = *self;
        let mut n = self.nexuses.remove(i);
        let r = n.stop_rebuild(uri);
        self.nexuses.insert(i, n);
        proof {
            assert(self.nexuses@ =~= old_reg.nexuses@.update(i as int, n));
            self.lemma_replaced_wf(&old_reg, i as int);
            assert(self.replaced_at(&old_reg, i as int));
            assert(self.nexuses@[i as int] == n);
            if r is Err {
                assert(self.nexuses@ =~= old_reg.nexuses@);
            }
        }
        r
    }

    /// Let the rebuild of the child `uri` of the nexus of UUID text `uuid`
    /// copy its next segment.
    pub fn rebuild_step(&mut self, uuid: &str, uri: &str) -> (r: Result<RebuildState, Error>)
        requires
            old(self).wf(),
        ensures
            final(self).wf(),
            !has_uuid(old(self).nexuses@, uuid@) ==> (r matches Err(e) && lookup_error(old(self).nexuses@, uuid@, e)),
            r is Err ==> final(self).nexuses@ == old(self).nexuses@,
            has_uuid(old(self).nexuses@, uuid@) ==> exists|i: int| {
                &&& final(self).replaced_at(old(self), i)
                &&& Some(old(self).nexuses@[i].name@) == name_of_uuid(uuid@)
                &&& crate::nexus::rebuild_step_post(old(self).nexuses@[i], final(self).nexuses@[i], uri@, r)
            },
    {
        let i = match self.nexus_lookup(uuid) {
            Ok(i) => i,
            Err(e) => {
                return Err(e);
            },
        };
        let ghost old_reg = *self;
        let mut n = self.nexuses.remove(i);
        let r = n.rebuild_step(uri);
        self.nexuses.insert(i, n);
        proof {
            assert(self.nexuses@ =~= old_reg.nexuses@.update(i as int, n));
            self.lemma_replaced_wf(&old_reg, i as int);
            assert(self.replaced_at(&old_reg, i as int));
            assert(self.nexuses@[i as int] == n);
            if r is Err {
                assert(self.nexuses@ =~= old_reg.nexuses@);
            }
        }
        r
    }

    /// The state of the rebuild of the child `uri` of the nexus of UUID text
    /// `uuid`.
    pub fn get_rebuild_state(&self, uuid: &str, uri: &str) -> (r: Result<RebuildState, Error>)
        requires
            self.wf(),
        ensures
            !has_uuid(self.nexuses@, uuid@) ==> (r matches Err(e) && lookup_error(self.nexuses@, uuid@, e)),
            has_uuid(self.nexuses@, uuid@) ==> exists|i: int| {
                &&& 0 <= i < self.nexuses@.len()
                &&& Some(self.nexuses@[i].name@) == name_of_uuid(uuid@)
                &&& crate::nexus::get_rebuild_state_post(self.nexuses@[i], uri@, r)
            },
    {
        let i = match self.nexus_lookup(uuid) {
            Ok(i) => i,
            Err(e) => {
                return Err(e);
            },
        };
        self.nexuses[i].get_rebuild_state(uri)
    }

    /// The progress, in whole percent, of the rebuild of the child `uri` of the
    /// nexus of UUID text `uuid`.
    pub fn get_rebuild_progress(&self, uuid: &str, uri: &str) -> (r: Result<u64, Error>)
        requires
            self.wf(),
        ensures
            !has_uuid(self.nexuses@, uuid@) ==> (r matches Err(e) && lookup_error(self.nexuses@, uuid@, e)),
            has_uuid(self.nexuses@, uuid@) ==> exists|i: int| {
                &&& 0 <= i < self.nexuses@.len()
                &&& Some(self.nexuses@[i].name@) == name_of_uuid(uuid@)
                &&& crate::nexus::get_rebuild_progress_post(self.nexuses@[i], uri@, r)
            },
    {
        let i = match self.nexus_lookup(uuid) {
            Ok(i) => i,
            Err(e) => {
                return Err(e);
            },
        };
        self.nexuses[i].get_rebuild_progress(uri)
    }

    /// A summary of every registered nexus, in registration order.
    pub fn list_nexus(&self) -> (r: Vec<NexusSummary>)
        ensures
            r@.len() == self.nexuses@.len(),
            forall|i: int| 0 <= i < r@.len() ==> {
                let n = self.nexuses@[i];
                &&& (#[trigger] r@[i]).uuid@ == uuid_of_name(n.name@)
                &&& r@[i].size == n.size
                &&& r@[i].state == n.state
                &&& r@[i].device_path@ == match n.share_path() {
                    Some(p) => p,
                    None => Seq::<char>::empty(),
                }
                &&& r@[i].rebuilds == n.rebuilds@.len()
                &&& r@[i].children@.len() == n.children@.len()
                &&& forall|j: int| 0 <= j < n.children@.len() ==> (#[trigger] r@[i].children@[j]).uri == n.children@[j].uri && r@[i].children@[j].state == n.children@[j].state
            },
    {
        let mut out: Vec<NexusSummary> = Vec::new();
        let mut i: usize = 0;
        while i < self.nexuses.len()
            invariant
                i <= self.nexuses@.len(),
                out@.len() == i,
                forall|k: int| 0 <= k < i ==> {
                    let n = self.nexuses@[k];
                    &&& (#[trigger] out@[k]).uuid@ == uuid_of_name(n.name@)
                    &&& out@[k].size == n.size
                    &&& out@[k].state == n.state
                    &&& out@[k].device_path@ == match n.share_path() {
                        Some(p) => p,
                        None => Seq::<char>::empty(),
                    }
                    &&& out@[k].rebuilds == n.rebuilds@.len()
                    &&& out@[k].children@.len() == n.children@.len()
                    &&& forall|j: int| 0 <= j < n.children@.len() ==> (#[trigger] out@[k].children@[j]).uri == n.children@[j].uri && out@[k].children@[j].state == n.children@[j].state
                },
            decreases self.nexuses@.len() - i,
        {
            let n = &self.nexuses[i];
            let mut cs: Vec<ChildSummary> = Vec::new();
            let mut j: usize = 0;
            while j < n.children.len()
                invariant
                    j <= n.children@.len(),
                    cs@.len() == j,
                    forall|m: int| 0 <= m < j ==> (#[trigger] cs@[m]).uri == n.children@[m].uri && cs@[m].state == n.children@[m].state,
                decreases n.children@.len() - j,
            {
                cs.push(ChildSummary { uri: n.children[j].uri.clone(), state: n.children[j].state });
                j += 1;
            }
            let device_path = match &n.share {
                Some(sh) => sh.device_path.clone(),
                None => String::new(),
            };
            let rebuilds = n.rebuilds.len() as u64;
            out.push(NexusSummary {
                uuid: name_to_uuid(n.name.as_str()),
                size: n.size,
                state: n.state,
                children: cs,
                device_path,
                rebuilds,
            });
            i += 1;
        }
        out
    }

    proof fn lemma_replaced_wf(&self, old: &Registry, i: int)
        requires
            old.wf(),
            self.replaced_at(old, i),
            self.nexuses@[i].wf(),
        ensures
            self.wf(),
    {
        let ns = self.nexuses@;
        assert forall|a: int, b: int|
            0 <= a < ns.len() && 0 <= b < ns.len() && a != b implies #[trigger] ns[a].name@
            != #[trigger] ns[b].name@ by {
            assert(old.nexuses@[a].name@ != old.nexuses@[b].name@);
        }
        assert forall|a: int| 0 <= a < ns.len() implies (#[trigger] ns[a]).wf() by {
            if a != i {
                assert(ns[a] == old.nexuses@[a]);
            }
        }
    }
}

} // verus!

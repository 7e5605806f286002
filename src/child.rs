use vstd::prelude::*;

use crate::error::Error;

verus! {

/// Health of one child of a nexus.
#[derive(Debug, Clone, Copy, PartialEq, Eq, Structural)]
pub enum ChildState {
    Init,
    Online,
    Degraded,
    Faulted,
    Destroying,
    Closed,
}

/// One underlying block device of a nexus, with its contents held in memory.
#[derive(Debug)]
pub struct Child {
    pub uri: String,
    pub state: ChildState,
    pub data: Vec<u8>,
}

/// `d` with the bytes from `off` on replaced by `buf`.
pub open spec fn write_range(d: Seq<u8>, off: int, buf: Seq<u8>) -> Seq<u8> {
    Seq::new(d.len(), |k: int| if off <= k < off + buf.len() { buf[k - off] } else { d[k] })
}

/// A range that lies within a device of `len` bytes.
pub open spec fn in_range(len: int, off: int, n: int) -> bool {
    0 <= off && 0 <= n && off + n <= len
}

pub fn zeroed(size: u64) -> (r: Vec<u8>)
    requires
        size <= usize::MAX,
    ensures
        r@ == Seq::new(size as nat, |k: int| 0u8),
{
    let mut r: Vec<u8> = Vec::new();
    let mut i: u64 = 0;
    while i < size
        invariant
            i <= size,
            r@ == Seq::new(i as nat, |k: int| 0u8),
        decreases size - i,
    {
        r.push(0u8);
        i += 1;
        assert(r@ =~= Seq::new(i as nat, |k: int| 0u8));
    }
    r
}

/// The name under which the command surface reports a child state.
pub open spec fn child_state_name(s: ChildState) -> Seq<char> {
    match s {
        ChildState::Init => seq!['i', 'n', 'i', 't'],
        ChildState::Online => seq!['o', 'n', 'l', 'i', 'n', 'e'],
        ChildState::Degraded => seq!['d', 'e', 'g', 'r', 'a', 'd', 'e', 'd'],
        ChildState::Faulted => seq!['f', 'a', 'u', 'l', 't', 'e', 'd'],
        ChildState::Destroying => seq!['d', 'e', 's', 't', 'r', 'o', 'y', 'i', 'n', 'g'],
        ChildState::Closed => seq!['c', 'l', 'o', 's', 'e', 'd'],
    }
}

impl ChildState {
    /// A name for the state, as the command surface reports it.
    pub fn name(&self) -> (r: &'static str)
        ensures
            r@ == child_state_name(*self),
    {
        match self {
            ChildState::Init => {
                proof { reveal_strlit("init"); }
                "init"
            },
            ChildState::Online => {
                proof { reveal_strlit("online"); }
                "online"
            },
            ChildState::Degraded => {
                proof { reveal_strlit("degraded"); }
                "degraded"
            },
            ChildState::Faulted => {
                proof { reveal_strlit("faulted"); }
                "faulted"
            },
            ChildState::Destroying => {
                proof { reveal_strlit("destroying"); }
                "destroying"
            },
            ChildState::Closed => {
                proof { reveal_strlit("closed"); }
                "closed"
            },
        }
    }
}

impl Child {
    /// Eligible as a read source and a rebuild source.
    pub open spec fn readable(&self) -> bool {
        self.state == ChildState::Online
    }

    /// Eligible for writes and as a rebuild target.
    pub open spec fn writable(&self) -> bool {
        self.state == ChildState::Online || self.state == ChildState::Degraded
    }

    /// A child of `size` zeroed bytes, not yet opened.
    pub fn new(uri: String, size: u64) -> (r: Child)
        requires
            size <= usize::MAX,
        ensures
            r.uri == uri,
            r.state == ChildState::Init,
            r.data@ == Seq::new(size as nat, |k: int| 0u8),
    {
        Child { uri, state: ChildState::Init, data: zeroed(size) }
    }

    /// Attach the device: `Init` becomes `Online`.
    pub fn open(&mut self) -> (r: Result<(), Error>)
        ensures
            final(self).uri == old(self).uri,
            final(self).data == old(self).data,
            r is Ok <==> old(self).state == ChildState::Init,
            r is Ok ==> final(self).state == ChildState::Online,
            r is Err ==> final(self).state == old(self).state,
            r matches Err(e) ==> (e matches Error::ChildNotAvailable { child } && child@
                == old(self).uri@),
    {
        if self.state == ChildState::Init {
            self.state = ChildState::Online;
            Ok(())
        } else {
            Err(Error::ChildNotAvailable { child: self.uri.clone() })
        }
    }

    /// Read `len` bytes from `offset`; only an `Online` child serves reads.
    pub fn read(&self, offset: u64, len: u64) -> (r: Result<Vec<u8>, Error>)
        ensures
            r is Ok <==> self.readable() && in_range(
                self.data@.len() as int,
                offset as int,
                len as int,
            ),
            r matches Ok(b) ==> b@ == self.data@.subrange(offset as int, offset + len),
            r matches Err(e) ==> (e matches Error::ChildNotAvailable { child } && child@
                == self.uri@),
    {
        if self.state != ChildState::Online || offset > self.data.len() as u64 || len
            > self.data.len() as u64 - offset {
            return Err(Error::ChildNotAvailable { child: self.uri.clone() });
        }
        let mut out: Vec<u8> = Vec::new();
        let mut k: usize = offset as usize;
        let end: usize = (offset + len) as usize;
        while k < end
            invariant
                offset <= k <= end,
                end == offset + len,
                end <= self.data@.len(),
                out@ == self.data@.subrange(offset as int, k as int),
            decreases end - k,
        {
            out.push(self.data[k]);
            k += 1;
            assert(out@ =~= self.data@.subrange(offset as int, k as int));
        }
        Ok(out)
    }

    /// Write `buf` at `offset`; `Online` and `Degraded` children take writes.
    pub fn write(&mut self, offset: u64, buf: &[u8]) -> (r: Result<(), Error>)
        ensures
            final(self).uri == old(self).uri,
            final(self).state == old(self).state,
            r is Ok <==> old(self).writable() && in_range(
                old(self).data@.len() as int,
                offset as int,
                buf@.len() as int,
            ),
            r is Ok ==> final(self).data@ == write_range(old(self).data@, offset as int, buf@),
            r is Err ==> final(self).data == old(self).data,
            r matches Err(e) ==> (e matches Error::ChildNotAvailable { child } && child@
                == old(self).uri@),
    {
        let n = self.data.len();
        if !(self.state == ChildState::Online || self.state == ChildState::Degraded) || offset
            > n as u64 || buf.len() as u64 > n as u64 - offset {
            return Err(Error::ChildNotAvailable { child: self.uri.clone() });
        }
        let ghost d0 = self.data@;
        let mut i: usize = 0;
        while i < buf.len()
            invariant
                i <= buf@.len(),
                offset + buf@.len() <= n,
                n == d0.len(),
                d0 == old(self).data@,
                self.uri == old(self).uri,
                self.state == old(self).state,
                self.data@.len() == n,
                forall|k: int|
                    0 <= k < n ==> #[trigger] self.data@[k] == if offset <= k < offset + i {
                        buf@[k - offset]
                    } else {
                        d0[k]
                    },
            decreases buf@.len() - i,
        {
            self.data.set(offset as usize + i, buf[i]);
            i += 1;
        }
        assert(self.data@ =~= write_range(d0, offset as int, buf@));
        Ok(())
    }

    /// Force the child out of service; a child that takes no I/O is left as
    /// it is.
    pub fn fault(&mut self)
        ensures
            final(self).uri == old(self).uri,
            final(self).data == old(self).data,
            final(self).state == if old(self).writable() {
                ChildState::Faulted
            } else {
                old(self).state
            },
    {
        if self.state == ChildState::Online || self.state == ChildState::Degraded {
            self.state = ChildState::Faulted;
        }
    }

    /// Release the device.
    pub fn close(&mut self)
        ensures
            final(self).uri == old(self).uri,
            final(self).data == old(self).data,
            final(self).state == ChildState::Closed,
    {
        self.state = ChildState::Closed;
    }
}

} // verus!

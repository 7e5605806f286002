use vstd::prelude::*;

verus! {

/// Where a rebuild job stands.
#[derive(Debug, Clone, Copy, PartialEq, Eq, Structural)]
pub enum RebuildState {
    Init,
    Running,
    Paused,
    Completed,
    Failed,
    Stopped,
}

/// The moves that the rebuild state machine allows.
pub open spec fn rebuild_transition(a: RebuildState, b: RebuildState) -> bool {
    match (a, b) {
        (RebuildState::Init, RebuildState::Running) => true,
        (RebuildState::Running, RebuildState::Paused) => true,
        (RebuildState::Paused, RebuildState::Running) => true,
        (RebuildState::Running, RebuildState::Completed) => true,
        (RebuildState::Running, RebuildState::Failed) => true,
        (RebuildState::Paused, RebuildState::Failed) => true,
        (RebuildState::Init, RebuildState::Stopped) => true,
        (RebuildState::Running, RebuildState::Stopped) => true,
        (RebuildState::Paused, RebuildState::Stopped) => true,
        _ => false,
    }
}

/// The share of `total` that `cursor` has covered, in whole percent.
pub open spec fn percent(cursor: int, total: int) -> int {
    if total == 0 {
        100
    } else {
        cursor * 100 / total
    }
}

/// A job that copies the range `[0, total)` of the source child onto the
/// target child, one segment at a time.
#[derive(Debug)]
pub struct RebuildJob {
    pub source: String,
    pub target: String,
    pub cursor: u64,
    pub total: u64,
    pub segment: u64,
    pub state: RebuildState,
}

/// The name under which the command surface reports a rebuild state.
pub open spec fn rebuild_state_name(s: RebuildState) -> Seq<char> {
    match s {
        RebuildState::Init => seq!['i', 'n', 'i', 't'],
        RebuildState::Running => seq!['r', 'u', 'n', 'n', 'i', 'n', 'g'],
        RebuildState::Paused => seq!['p', 'a', 'u', 's', 'e', 'd'],
        RebuildState::Completed => seq!['c', 'o', 'm', 'p', 'l', 'e', 't', 'e', 'd'],
        RebuildState::Failed => seq!['f', 'a', 'i', 'l', 'e', 'd'],
        RebuildState::Stopped => seq!['s', 't', 'o', 'p', 'p', 'e', 'd'],
    }
}

impl RebuildState {
    /// A name for the state, as the command surface reports it.
    pub fn name(&self) -> (r: &'static str)
        ensures
            r@ == rebuild_state_name(*self),
    {
        match self {
            RebuildState::Init => {
                proof { reveal_strlit("init"); }
                "init"
            },
            RebuildState::Running => {
                proof { reveal_strlit("running"); }
                "running"
            },
            RebuildState::Paused => {
                proof { reveal_strlit("paused"); }
                "paused"
            },
            RebuildState::Completed => {
                proof { reveal_strlit("completed"); }
                "completed"
            },
            RebuildState::Failed => {
                proof { reveal_strlit("failed"); }
                "failed"
            },
            RebuildState::Stopped => {
                proof { reveal_strlit("stopped"); }
                "stopped"
            },
        }
    }
}

impl RebuildJob {
    pub open spec fn wf(&self) -> bool {
        &&& self.cursor <= self.total
        &&& self.segment > 0
        &&& (self.state == RebuildState::Completed ==> self.cursor == self.total)
    }

    /// The length of the next segment to copy from `cursor`.
    pub open spec fn next_len(&self) -> int {
        if self.total - self.cursor < self.segment {
            self.total - self.cursor
        } else {
            self.segment as int
        }
    }

    pub fn new(source: String, target: String, total: u64, segment: u64) -> (r: RebuildJob)
        requires
            segment > 0,
        ensures
            r.wf(),
            r.source == source,
            r.target == target,
            r.total == total,
            r.segment == segment,
            r.cursor == 0,
            r.state == RebuildState::Init,
    {
        RebuildJob { source, target, cursor: 0, total, segment, state: RebuildState::Init }
    }

    /// Move to state `to` where the state machine allows it; report whether
    /// it did.
    pub fn transition(&mut self, to: RebuildState) -> (r: bool)
        requires
            old(self).wf(),
            to == RebuildState::Completed ==> old(self).cursor == old(self).total,
        ensures
            final(self).wf(),
            r == rebuild_transition(old(self).state, to),
            final(self).state == if r {
                to
            } else {
                old(self).state
            },
            final(self).source == old(self).source,
            final(self).target == old(self).target,
            final(self).cursor == old(self).cursor,
            final(self).total == old(self).total,
            final(self).segment == old(self).segment,
    {
        let ok = match (self.state, to) {
            (RebuildState::Init, RebuildState::Running) => true,
            (RebuildState::Running, RebuildState::Paused) => true,
            (RebuildState::Paused, RebuildState::Running) => true,
            (RebuildState::Running, RebuildState::Completed) => true,
            (RebuildState::Running, RebuildState::Failed) => true,
            (RebuildState::Paused, RebuildState::Failed) => true,
            (RebuildState::Init, RebuildState::Stopped) => true,
            (RebuildState::Running, RebuildState::Stopped) => true,
            (RebuildState::Paused, RebuildState::Stopped) => true,
            _ => false,
        };
        if ok {
            self.state = to;
        }
        ok
    }

    /// The range `(offset, length)` that the job copies next, while it runs
    /// and has not reached the end.
    pub fn next_segment(&self) -> (r: Option<(u64, u64)>)
        requires
            self.wf(),
        ensures
            r is Some <==> self.state == RebuildState::Running && self.cursor < self.total,
            r matches Some(p) ==> p.0 == self.cursor && p.1 == self.next_len() && p.1 > 0,
    {
        if self.state == RebuildState::Running && self.cursor < self.total {
            let left = self.total - self.cursor;
            let len = if left < self.segment {
                left
            } else {
                self.segment
            };
            Some((self.cursor, len))
        } else {
            None
        }
    }

    /// Record that the next segment was copied; the job completes when the
    /// cursor reaches the end.
    pub fn advance(&mut self)
        requires
            old(self).wf(),
            old(self).state == RebuildState::Running,
            old(self).cursor < old(self).total,
        ensures
            final(self).wf(),
            final(self).cursor == old(self).cursor + old(self).next_len(),
            final(self).state == if final(self).cursor == old(self).total {
                RebuildState::Completed
            } else {
                RebuildState::Running
            },
            final(self).source == old(self).source,
            final(self).target == old(self).target,
            final(self).total == old(self).total,
            final(self).segment == old(self).segment,
    {
        let left = self.total - self.cursor;
        if left < self.segment {
            self.cursor = self.total;
        } else {
            self.cursor = self.cursor + self.segment;
        }
        if self.cursor == self.total {
            self.state = RebuildState::Completed;
        }
    }

    /// Progress in whole percent.
    pub fn progress(&self) -> (r: u64)
        requires
            self.wf(),
        ensures
            r == percent(self.cursor as int, self.total as int),
            r <= 100,
    {
        if self.total == 0 {
            100
        } else {
            let p = (self.cursor as u128) * 100 / (self.total as u128);
            assert((self.cursor as int) * 100 / (self.total as int) <= 100) by (nonlinear_arith)
                requires
                    self.cursor <= self.total,
                    self.total > 0,
            ;
            p as u64
        }
    }
}

} // verus!

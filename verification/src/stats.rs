//! Move bookkeeping shared by every annealer: how many moves were proposed,
//! how many were accepted, and how many times the temperature was raised.

use vstd::prelude::*;

verus! {

/// Counters of one annealing chain.
pub struct MoveStats {
    /// Moves proposed.
    pub iterations: u64,
    /// Moves accepted.
    pub accepted: u64,
    /// Reheat events.
    pub reheats: u64,
}

impl MoveStats {
    /// No more moves were accepted than proposed.
    pub open spec fn is_consistent(&self) -> bool {
        self.accepted <= self.iterations
    }

    /// All counters at zero.
    pub fn new() -> (s: Self)
        ensures
            s.iterations == 0,
            s.accepted == 0,
            s.reheats == 0,
            s.is_consistent(),
    {
        MoveStats { iterations: 0, accepted: 0, reheats: 0 }
    }

    /// Records one proposed move, counting it as accepted when `accepted` holds.
    pub fn record_move(&mut self, accepted: bool)
        requires
            old(self).iterations < u64::MAX,
            accepted ==> old(self).accepted < u64::MAX,
        ensures
            final(self).iterations == old(self).iterations + 1,
            final(self).accepted == old(self).accepted + if accepted {
                1int
            } else {
                0int
            },
            final(self).reheats == old(self).reheats,
            old(self).is_consistent() ==> final(self).is_consistent(),
    {
        self.iterations = self.iterations + 1;
        if accepted {
            self.accepted = self.accepted + 1;
        }
    }

    /// Records one reheat event.
    pub fn record_reheat(&mut self)
        requires
            old(self).reheats < u64::MAX,
        ensures
            final(self).reheats == old(self).reheats + 1,
            final(self).iterations == old(self).iterations,
            final(self).accepted == old(self).accepted,
    {
        self.reheats = self.reheats + 1;
    }
}

} // verus!

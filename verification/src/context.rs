use vstd::prelude::*;

use crate::blackboard::Blackboard;

verus! {

/// What one `tick` call sees: the tick counter after this call's advance,
/// the number of simulation ticks the call covers, and the blackboard. The
/// context lives only for the duration of one tick; the tree moves its
/// blackboard in before evaluating and takes it back after.
pub struct Context {
    pub tick: u64,
    pub delta_ticks: u32,
    pub blackboard: Blackboard,
}

impl Context {
    pub fn new(tick: u64, delta_ticks: u32, blackboard: Blackboard) -> (r: Self)
        ensures
            r.tick == tick,
            r.delta_ticks == delta_ticks,
            r.blackboard == blackboard,
    {
        Context { tick, delta_ticks, blackboard }
    }

    /// The tick counter as of this call.
    pub fn tick(&self) -> (r: u64)
        ensures
            r == self.tick,
    {
        self.tick
    }

    /// How many simulation ticks this call advances.
    pub fn delta_ticks(&self) -> (r: u32)
        ensures
            r == self.delta_ticks,
    {
        self.delta_ticks
    }

    pub fn blackboard(&self) -> (r: &Blackboard)
        ensures
            r == &self.blackboard,
    {
        &self.blackboard
    }

    pub fn blackboard_mut(&mut self) -> (r: &mut Blackboard)
        ensures
            *r == old(self).blackboard,
            final(self).blackboard == *final(r),
            final(self).tick == old(self).tick,
            final(self).delta_ticks == old(self).delta_ticks,
    {
        &mut self.blackboard
    }
}

} // verus!

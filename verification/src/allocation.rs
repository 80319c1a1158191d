use crate::candidate::CandidateSolution;
use crate::data::instance::Instance;
use vstd::prelude::*;

verus! {

/// One event placed in one (timeslot, room) cell, with the violation count
/// that was charged to this cell when it was stored.
#[derive(PartialEq, Eq, Structural, Clone, Copy, Debug)]
pub struct Allocation {
    pub event_index: usize,
    pub timeslot_index: usize,
    pub room_index: usize,
    pub violations: usize,
}

impl Allocation {
    pub fn new(event_index: usize, timeslot_index: usize, room_index: usize) -> (a: Allocation)
        ensures
            a == (Allocation { event_index, timeslot_index, room_index, violations: 0 }),
    {
        Allocation { event_index, timeslot_index, room_index, violations: 0 }
    }

    pub fn set_violations(&mut self, violations: usize)
        ensures
            *final(self) == (Allocation { violations, ..*old(self) }),
    {
        self.violations = violations;
    }

    pub fn event_index(&self) -> (i: usize)
        ensures
            i == self.event_index,
    {
        self.event_index
    }

    pub fn violations(&self) -> (v: usize)
        ensures
            v == self.violations,
    {
        self.violations
    }

    pub fn timeslot_index(&self) -> (i: usize)
        ensures
            i == self.timeslot_index,
    {
        self.timeslot_index
    }

    pub fn room_index(&self) -> (i: usize)
        ensures
            i == self.room_index,
    {
        self.room_index
    }
}

/// The interface of an allocation strategy: once ready for a problem
/// description, it produces candidate timetables ranked ascending by
/// score, every one consistent with the description.
pub trait AllocationStrategy {
    /// When the strategy is prepared to search this instance.
    spec fn strategy_ready(&self, instance: Instance) -> bool;

    /// Run the search and return the ranked candidates.
    fn allocate(&mut self, instance: &Instance) -> (result: Vec<CandidateSolution>)
        requires
            old(self).strategy_ready(*instance),
        ensures
            crate::genetic::sorted_by_score(result@),
            forall|i: int| 0 <= i < result@.len() ==> (#[trigger] result@[i]).wf(*instance),
    ;
}

} // verus!

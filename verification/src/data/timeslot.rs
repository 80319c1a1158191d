use vstd::prelude::*;

verus! {

/// One schedulable (day, period) pair; two timeslots are equal exactly when
/// both fields are equal.
#[derive(PartialEq, Eq, Structural, Clone, Copy, Debug)]
pub struct TimeSlot {
    pub day: usize,
    pub period: usize,
}

impl TimeSlot {
    pub fn new(day: usize, period: usize) -> (t: TimeSlot)
        ensures
            t.day == day,
            t.period == period,
    {
        TimeSlot { day, period }
    }
}

} // verus!

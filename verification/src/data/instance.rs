use crate::data::constraints::{
    Constraint, CurriculumConstraint, RoomCapacityConstraint, TeacherConstraint,
};
use crate::data::event::Event;
use crate::data::room::Room;
use crate::data::timeslot::TimeSlot;
use vstd::prelude::*;

verus! {

/// The largest number of event-scoped constraints attached to any one event.
pub open spec fn max_event_constraints(events: Seq<Event>) -> int
    decreases events.len(),
{
    if events.len() == 0 {
        0
    } else {
        let rest = max_event_constraints(events.drop_last());
        let last = events.last().constraints@.len() as int;
        if last > rest {
            last
        } else {
            rest
        }
    }
}

/// Every event's own constraint count is below the maximum.
pub proof fn lemma_event_constraints_le_max(events: Seq<Event>, i: int)
    requires
        0 <= i < events.len(),
    ensures
        events[i].constraints@.len() <= max_event_constraints(events),
        max_event_constraints(events) >= 0,
    decreases events.len(),
{
    if i == events.len() - 1 {
        if events.len() > 1 {
            lemma_event_constraints_le_max(events.drop_last(), 0);
        }
    } else {
        lemma_event_constraints_le_max(events.drop_last(), i);
        assert(events.drop_last()[i] == events[i]);
    }
}

/// The whole static description of one timetabling problem. It is built once
/// by a loader and read (never changed) by the search.
pub struct Instance {
    pub name: Option<String>,
    pub daily_lectures: (usize, usize),
    pub timeslots: Vec<TimeSlot>,
    pub days: usize,
    pub periods_per_day: usize,
    pub rooms: Vec<Room>,
    pub events: Vec<Event>,
    /// The instance-wide constraints, scored on every occupied cell.
    pub constraints: Vec<Constraint>,
}

impl Instance {
    /// Internal consistency: every declared valid-room index points at a room.
    pub open spec fn wf(self) -> bool {
        forall|e: int, j: int|
            0 <= e < self.events@.len() && 0 <= j < self.events@[e].valid_rooms@.len()
                ==> #[trigger] self.events@[e].valid_rooms@[j] < self.rooms@.len()
    }

    /// An upper bound on the violations any single cell can be charged:
    /// each applicable constraint contributes at most `rooms + 1`.
    pub open spec fn cell_bound(self) -> int {
        (max_event_constraints(self.events@) + self.constraints@.len()) * (self.rooms@.len() + 1)
    }

    /// The machine-level headroom the incremental bookkeeping needs: a full
    /// grid of worst-case cells, one more such cell, and the unallocated
    /// count all fit in `usize` arithmetic.
    pub open spec fn fits(self) -> bool {
        &&& self.timeslots@.len() * self.rooms@.len() <= usize::MAX
        &&& (self.timeslots@.len() * self.rooms@.len() + 1) * self.cell_bound()
            + self.events@.len() <= usize::MAX
    }

    pub fn new() -> (inst: Instance)
        ensures
            inst.name is None,
            inst.daily_lectures == (0usize, 24usize),
            inst.timeslots@ =~= Seq::<TimeSlot>::empty(),
            inst.days == 0,
            inst.periods_per_day == 0,
            inst.rooms@ =~= Seq::<Room>::empty(),
            inst.events@ =~= Seq::<Event>::empty(),
            inst.constraints@ =~= seq![
                Constraint::RoomCapacity,
                Constraint::Curriculum,
                Constraint::Teacher,
            ],
            inst.wf(),
    {
        let mut constraints: Vec<Constraint> = Vec::new();
        constraints.push(RoomCapacityConstraint::new());
        constraints.push(CurriculumConstraint::new());
        constraints.push(TeacherConstraint::new());

        Instance {
            name: None,
            daily_lectures: (0, 24),
            timeslots: Vec::new(),
            days: 0,
            periods_per_day: 0,
            rooms: Vec::new(),
            events: Vec::new(),
            constraints,
        }
    }

    pub fn set_name(&mut self, name: String)
        ensures
            *final(self) == (Instance { name: Some(name), ..*old(self) }),
    {
        self.name = Some(name);
    }

    /// Fill the timeslot list densely: slot `day * periods_per_day + period`
    /// is the pair (day, period).
    pub fn set_timeslots(&mut self, days: usize, periods_per_day: usize)
        requires
            old(self).timeslots@.len() == 0,
            days * periods_per_day <= usize::MAX,
        ensures
            final(self).days == days,
            final(self).periods_per_day == periods_per_day,
            final(self).timeslots@.len() == days * periods_per_day,
            forall|d: int, p: int|
                0 <= d < days && 0 <= p < periods_per_day
                    ==> #[trigger] final(self).timeslots@[d * periods_per_day + p]
                        == (TimeSlot { day: d as usize, period: p as usize }),
            final(self).name == old(self).name,
            final(self).daily_lectures == old(self).daily_lectures,
            final(self).rooms == old(self).rooms,
            final(self).events == old(self).events,
            final(self).constraints == old(self).constraints,
    {
        self.days = days;
        self.periods_per_day = periods_per_day;
        let ghost base = self.timeslots@;
        let mut day: usize = 0;
        while day < days
            invariant
                day <= days,
                self.days == days,
                self.periods_per_day == periods_per_day,
                days * periods_per_day <= usize::MAX,
                self.timeslots@.len() == day * periods_per_day,
                forall|d: int, p: int|
                    0 <= d < day && 0 <= p < periods_per_day
                        ==> #[trigger] self.timeslots@[d * periods_per_day + p]
                            == (TimeSlot { day: d as usize, period: p as usize }),
                self.name == old(self).name,
                self.daily_lectures == old(self).daily_lectures,
                self.rooms == old(self).rooms,
                self.events == old(self).events,
                self.constraints == old(self).constraints,
            decreases days - day,
        {
            let mut period: usize = 0;
            while period < periods_per_day
                invariant
                    day < days,
                    period <= periods_per_day,
                    self.days == days,
                    self.periods_per_day == periods_per_day,
                    days * periods_per_day <= usize::MAX,
                    self.timeslots@.len() == day * periods_per_day + period,
                    forall|d: int, p: int|
                        0 <= d < day && 0 <= p < periods_per_day
                            ==> #[trigger] self.timeslots@[d * periods_per_day + p]
                                == (TimeSlot { day: d as usize, period: p as usize }),
                    forall|p: int|
                        0 <= p < period
                            ==> #[trigger] self.timeslots@[day * periods_per_day + p]
                                == (TimeSlot { day: day as usize, period: p as usize }),
                    self.name == old(self).name,
                    self.daily_lectures == old(self).daily_lectures,
                    self.rooms == old(self).rooms,
                    self.events == old(self).events,
                    self.constraints == old(self).constraints,
                decreases periods_per_day - period,
            {
                proof {
                    lemma_slot_prefix_bound(day as int, days as int, periods_per_day as int);
                }
                let timeslot = TimeSlot::new(day, period);
                self.timeslots.push(timeslot);
                period = period + 1;
                proof {
                    assert forall|d: int, p: int|
                        0 <= d < day && 0 <= p < periods_per_day
                            implies #[trigger] self.timeslots@[d * periods_per_day + p]
                                == (TimeSlot { day: d as usize, period: p as usize }) by {
                        lemma_slot_index_lt(d, day as int, p, periods_per_day as int);
                    }
                }
            }
            proof {
                assert((day as int + 1) * (periods_per_day as int)
                    == (day as int) * (periods_per_day as int) + (periods_per_day as int))
                    by (nonlinear_arith);
            }
            day = day + 1;
        }
        proof {
            lemma_slot_prefix_bound(days as int, days as int, periods_per_day as int);
        }
    }

    pub fn set_daily_lectures(&mut self, min_max: (usize, usize))
        ensures
            *final(self) == (Instance { daily_lectures: min_max, ..*old(self) }),
    {
        self.daily_lectures = min_max;
    }

    pub fn events(&self) -> (r: &Vec<Event>)
        ensures
            r == &self.events,
    {
        &self.events
    }

    pub fn add_event(&mut self, event: Event)
        ensures
            final(self).events@ == old(self).events@.push(event),
            final(self).name == old(self).name,
            final(self).daily_lectures == old(self).daily_lectures,
            final(self).timeslots == old(self).timeslots,
            final(self).days == old(self).days,
            final(self).periods_per_day == old(self).periods_per_day,
            final(self).rooms == old(self).rooms,
            final(self).constraints == old(self).constraints,
    {
        self.events.push(event);
    }

    pub fn add_room(&mut self, room: Room)
        ensures
            final(self).rooms@ == old(self).rooms@.push(room),
            final(self).name == old(self).name,
            final(self).daily_lectures == old(self).daily_lectures,
            final(self).timeslots == old(self).timeslots,
            final(self).days == old(self).days,
            final(self).periods_per_day == old(self).periods_per_day,
            final(self).events == old(self).events,
            final(self).constraints == old(self).constraints,
    {
        self.rooms.push(room);
    }

    pub fn name(&self) -> (r: Option<&str>)
        ensures
            r is Some <==> self.name is Some,
            r is Some ==> (r->0)@ == (self.name->0)@,
    {
        match &self.name {
            Some(name) => Some(name.as_str()),
            None => None,
        }
    }

    pub fn timeslot(&self, timeslot_index: usize) -> (r: Option<&TimeSlot>)
        ensures
            r is Some <==> timeslot_index < self.timeslots@.len(),
            r is Some ==> *(r->0) == self.timeslots@[timeslot_index as int],
    {
        if timeslot_index < self.timeslots.len() {
            Some(&self.timeslots[timeslot_index])
        } else {
            None
        }
    }

    pub fn timeslots(&self) -> (r: &Vec<TimeSlot>)
        ensures
            r == &self.timeslots,
    {
        &self.timeslots
    }

    /// The dense index of the slot (day, period).
    pub fn to_timeslot_index(&self, day: usize, period: usize) -> (i: usize)
        requires
            self.periods_per_day * day + period <= usize::MAX,
        ensures
            i == self.periods_per_day * day + period,
    {
        self.periods_per_day * day + period
    }

    pub fn days(&self) -> (d: usize)
        ensures
            d == self.days,
    {
        self.days
    }

    pub fn periods_per_day(&self) -> (p: usize)
        ensures
            p == self.periods_per_day,
    {
        self.periods_per_day
    }

    pub fn event(&self, event_index: usize) -> (r: Option<&Event>)
        ensures
            r is Some <==> event_index < self.events@.len(),
            r is Some ==> r->0 == &self.events@[event_index as int],
    {
        if event_index < self.events.len() {
            Some(&self.events[event_index])
        } else {
            None
        }
    }

    pub fn constraints(&self) -> (r: &Vec<Constraint>)
        ensures
            r == &self.constraints,
    {
        &self.constraints
    }

    pub fn room(&self, room_index: usize) -> (r: Option<&Room>)
        ensures
            r is Some <==> room_index < self.rooms@.len(),
            r is Some ==> r->0 == &self.rooms@[room_index as int],
    {
        if room_index < self.rooms.len() {
            Some(&self.rooms[room_index])
        } else {
            None
        }
    }

    pub fn rooms(&self) -> (r: &Vec<Room>)
        ensures
            r == &self.rooms,
    {
        &self.rooms
    }

    pub fn num_timeslots(&self) -> (n: usize)
        ensures
            n == self.timeslots@.len(),
    {
        self.timeslots.len()
    }

    pub fn num_rooms(&self) -> (n: usize)
        ensures
            n == self.rooms@.len(),
    {
        self.rooms.len()
    }

    pub fn num_events(&self) -> (n: usize)
        ensures
            n == self.events@.len(),
    {
        self.events.len()
    }
}


impl Instance {
    /// Decide `wf` at run time: scan every event's valid-room list for an
    /// index outside the room list.
    pub fn well_formed(&self) -> (b: bool)
        ensures
            b == self.wf(),
    {
        let num_rooms = self.rooms.len();
        let mut e: usize = 0;
        while e < self.events.len()
            invariant
                num_rooms == self.rooms@.len(),
                e <= self.events@.len(),
                forall|e2: int, j: int|
                    0 <= e2 < e && 0 <= j < self.events@[e2].valid_rooms@.len()
                        ==> #[trigger] self.events@[e2].valid_rooms@[j] < self.rooms@.len(),
            decreases self.events@.len() - e,
        {
            let event = &self.events[e];
            let mut j: usize = 0;
            while j < event.valid_rooms.len()
                invariant
                    num_rooms == self.rooms@.len(),
                    e < self.events@.len(),
                    event == &self.events@[e as int],
                    j <= event.valid_rooms@.len(),
                    forall|j2: int|
                        0 <= j2 < j ==> #[trigger] event.valid_rooms@[j2] < self.rooms@.len(),
                decreases event.valid_rooms@.len() - j,
            {
                if event.valid_rooms[j] >= num_rooms {
                    return false;
                }
                j = j + 1;
            }
            e = e + 1;
        }
        true
    }

    /// Decide `fits` at run time with checked arithmetic: whether a full
    /// grid of worst-case cells plus one more cell plus the event count
    /// stays within machine bounds.
    pub fn check_fits(&self) -> (b: bool)
        ensures
            b == self.fits(),
    {
        let num_timeslots = self.timeslots.len();
        let num_rooms = self.rooms.len();
        let num_events = self.events.len();
        let cells = match num_timeslots.checked_mul(num_rooms) {
            Some(v) => v,
            None => {
                return false;
            },
        };
        let mut max_ec: usize = 0;
        let mut e: usize = 0;
        while e < self.events.len()
            invariant
                e <= self.events@.len(),
                max_ec as int == max_event_constraints(self.events@.take(e as int)),
            decreases self.events@.len() - e,
        {
            let count = self.events[e].constraints.len();
            proof {
                assert(self.events@.take(e + 1).drop_last() =~= self.events@.take(e as int));
                assert(self.events@.take(e + 1).last() == self.events@[e as int]);
            }
            if count > max_ec {
                max_ec = count;
            }
            e = e + 1;
        }
        proof {
            assert(self.events@.take(self.events@.len() as int) =~= self.events@);
        }
        let per_cell_rules = match max_ec.checked_add(self.constraints.len()) {
            Some(v) => v,
            None => {
                proof {
                    lemma_fits_needs_small_bound(*self);
                    assert(self.cell_bound() >= max_event_constraints(self.events@)
                        + self.constraints@.len()) by (nonlinear_arith)
                        requires
                            self.cell_bound() == (max_event_constraints(self.events@)
                                + self.constraints@.len()) * (self.rooms@.len() + 1),
                            max_event_constraints(self.events@) + self.constraints@.len() >= 0,
                            self.rooms@.len() >= 0;
                }
                return false;
            },
        };
        if per_cell_rules == 0 {
            proof {
                assert(self.cell_bound() == 0) by (nonlinear_arith)
                    requires
                        self.cell_bound() == (max_event_constraints(self.events@)
                            + self.constraints@.len()) * (self.rooms@.len() + 1),
                        max_event_constraints(self.events@) + self.constraints@.len() == 0;
                assert((self.timeslots@.len() * self.rooms@.len() + 1) * self.cell_bound()
                    == 0) by (nonlinear_arith)
                    requires
                        self.cell_bound() == 0;
            }
            return true;
        }
        let rooms_plus_one = match num_rooms.checked_add(1) {
            Some(v) => v,
            None => {
                proof {
                    lemma_fits_needs_small_bound(*self);
                    assert(self.cell_bound() >= self.rooms@.len() + 1) by (nonlinear_arith)
                        requires
                            self.cell_bound() == (max_event_constraints(self.events@)
                                + self.constraints@.len()) * (self.rooms@.len() + 1),
                            max_event_constraints(self.events@) + self.constraints@.len() >= 1,
                            self.rooms@.len() >= 0;
                }
                return false;
            },
        };
        let bound = match per_cell_rules.checked_mul(rooms_plus_one) {
            Some(v) => v,
            None => {
                proof {
                    lemma_fits_needs_small_bound(*self);
                }
                return false;
            },
        };
        let cells_plus_one = match cells.checked_add(1) {
            Some(v) => v,
            None => {
                proof {
                    assert(self.cell_bound() >= 1) by (nonlinear_arith)
                        requires
                            self.cell_bound() == (max_event_constraints(self.events@)
                                + self.constraints@.len()) * (self.rooms@.len() + 1),
                            max_event_constraints(self.events@) + self.constraints@.len() >= 1,
                            self.rooms@.len() >= 0;
                    assert((self.timeslots@.len() * self.rooms@.len() + 1) * self.cell_bound()
                        >= self.timeslots@.len() * self.rooms@.len() + 1) by (nonlinear_arith)
                        requires
                            self.cell_bound() >= 1,
                            self.timeslots@.len() >= 0,
                            self.rooms@.len() >= 0;
                }
                return false;
            },
        };
        let grid_total = match cells_plus_one.checked_mul(bound) {
            Some(v) => v,
            None => {
                return false;
            },
        };
        match grid_total.checked_add(num_events) {
            Some(_) => true,
            None => false,
        }
    }
}

/// When the per-cell bound does not even fit the machine, `fits` fails:
/// the whole-grid product dominates the single-cell bound.
proof fn lemma_fits_needs_small_bound(instance: Instance)
    ensures
        (instance.timeslots@.len() * instance.rooms@.len() + 1) * instance.cell_bound()
            >= instance.cell_bound(),
{
    crate::candidate::lemma_cell_bound_nonneg(instance);
    assert((instance.timeslots@.len() * instance.rooms@.len() + 1) * instance.cell_bound()
        >= instance.cell_bound()) by (nonlinear_arith)
        requires
            instance.cell_bound() >= 0,
            instance.timeslots@.len() >= 0,
            instance.rooms@.len() >= 0;
}

/// With a full row of `periods` slots per day, days below `day_bound`
/// fill exactly `day * periods` positions.
pub proof fn lemma_slot_prefix_bound(day: int, day_bound: int, periods: int)
    by (nonlinear_arith)
    requires
        0 <= day <= day_bound,
        0 <= periods,
        day_bound * periods <= usize::MAX,
    ensures
        day * periods <= day_bound * periods,
{
}

/// A position of an earlier day lies strictly below the current day's base.
pub proof fn lemma_slot_index_lt(d: int, day: int, p: int, periods: int)
    by (nonlinear_arith)
    requires
        0 <= d < day,
        0 <= p < periods,
    ensures
        d * periods + p < day * periods,
{
}

} // verus!

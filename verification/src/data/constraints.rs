use crate::candidate::CandidateSolution;
use crate::data::event::Event;
use crate::data::instance::Instance;
use crate::data::timeslot::TimeSlot;
use vstd::prelude::*;

verus! {

/// The closed set of scheduling rules. A constraint scores one grid cell
/// against the problem description; an empty cell always scores 0.
///
/// The first two kinds are event-scoped (attached to single events), the
/// last three are instance-wide.
#[derive(PartialEq, Eq, Structural, Clone, Copy, Debug)]
pub enum Constraint {
    /// The event must sit in one of its declared valid rooms; an event that
    /// declares no valid rooms may sit anywhere.
    Room,
    /// The event must not sit in one of its banned timeslots.
    TimeSlot,
    /// One violation when the room's capacity is strictly greater than the
    /// event's student count.
    RoomCapacity,
    /// Within the cell's timeslot, every further cell whose event carries the
    /// same curriculum id is one violation.
    Curriculum,
    /// One violation when the event's teacher occupies more than one cell
    /// (or, counting the cell itself, a count other than one) in the
    /// cell's timeslot.
    Teacher,
}

/// Builder for the valid-room rule.
pub struct RoomConstraint;

impl RoomConstraint {
    pub fn new() -> (c: Constraint)
        ensures
            c == Constraint::Room,
    {
        Constraint::Room
    }
}

/// Builder for the banned-timeslot rule.
pub struct TimeSlotConstraint;

impl TimeSlotConstraint {
    pub fn new() -> (c: Constraint)
        ensures
            c == Constraint::TimeSlot,
    {
        Constraint::TimeSlot
    }
}

/// Builder for the room-capacity rule.
pub struct RoomCapacityConstraint;

impl RoomCapacityConstraint {
    pub fn new() -> (c: Constraint)
        ensures
            c == Constraint::RoomCapacity,
    {
        Constraint::RoomCapacity
    }
}

/// Builder for the shared-curriculum rule.
pub struct CurriculumConstraint;

impl CurriculumConstraint {
    pub fn new() -> (c: Constraint)
        ensures
            c == Constraint::Curriculum,
    {
        Constraint::Curriculum
    }
}

/// Builder for the teacher-clash rule.
pub struct TeacherConstraint;

impl TeacherConstraint {
    pub fn new() -> (c: Constraint)
        ensures
            c == Constraint::Teacher,
    {
        Constraint::Teacher
    }
}

/// The event, if any, that a flattened grid holds in cell (t, r).
pub open spec fn slot_event(grid: Seq<Option<usize>>, width: int, t: int, r: int) -> Option<
    usize,
> {
    grid[r * width + t]
}

/// The curriculum id of an optional string, as contracts compare it.
pub open spec fn opt_str_view(o: Option<String>) -> Option<Seq<char>> {
    match o {
        Some(s) => Some(s@),
        None => None,
    }
}

/// Cells among (t, 0) .. (t, r_end) whose event's teacher is `teacher`.
pub open spec fn teacher_matches_upto(
    grid: Seq<Option<usize>>,
    width: int,
    instance: Instance,
    t: int,
    teacher: Seq<char>,
    r_end: int,
) -> int
    decreases r_end,
{
    if r_end <= 0 {
        0
    } else {
        teacher_matches_upto(grid, width, instance, t, teacher, r_end - 1) + (match slot_event(
            grid,
            width,
            t,
            r_end - 1,
        ) {
            Some(e) => if instance.events@[e as int].teacher@ == teacher {
                1int
            } else {
                0
            },
            None => 0,
        })
    }
}

/// Cells in timeslot t (over every room) whose event's teacher is `teacher`.
pub open spec fn teacher_matches(
    grid: Seq<Option<usize>>,
    width: int,
    instance: Instance,
    t: int,
    teacher: Seq<char>,
) -> int {
    teacher_matches_upto(grid, width, instance, t, teacher, instance.rooms@.len() as int)
}

/// Cells among (t, 0) .. (t, r_end) whose event carries curriculum id `cid`.
pub open spec fn curriculum_matches_upto(
    grid: Seq<Option<usize>>,
    width: int,
    instance: Instance,
    t: int,
    cid: Option<Seq<char>>,
    r_end: int,
) -> int
    decreases r_end,
{
    if r_end <= 0 {
        0
    } else {
        curriculum_matches_upto(grid, width, instance, t, cid, r_end - 1) + (match slot_event(
            grid,
            width,
            t,
            r_end - 1,
        ) {
            Some(e) => if instance.events@[e as int].spec_curriculum() == cid {
                1int
            } else {
                0
            },
            None => 0,
        })
    }
}

/// Cells in timeslot t (over every room) whose event carries curriculum `cid`.
pub open spec fn curriculum_matches(
    grid: Seq<Option<usize>>,
    width: int,
    instance: Instance,
    t: int,
    cid: Option<Seq<char>>,
) -> int {
    curriculum_matches_upto(grid, width, instance, t, cid, instance.rooms@.len() as int)
}

/// What one constraint scores on cell (t, r) of a grid: 0 for an empty cell,
/// else exactly the rule of the constraint's kind.
pub open spec fn constraint_violations(
    con: Constraint,
    grid: Seq<Option<usize>>,
    width: int,
    instance: Instance,
    t: int,
    r: int,
) -> int {
    match slot_event(grid, width, t, r) {
        None => 0,
        Some(e) => {
            let ev = instance.events@[e as int];
            match con {
                Constraint::Room => if ev.valid_rooms@.len() > 0 && !ev.valid_rooms@.contains(
                    r as usize,
                ) {
                    1
                } else {
                    0
                },
                Constraint::TimeSlot => if ev.banned_timeslots@.contains(
                    instance.timeslots@[t],
                ) {
                    1
                } else {
                    0
                },
                Constraint::RoomCapacity => if instance.rooms@[r].capacity > ev.students {
                    1
                } else {
                    0
                },
                Constraint::Curriculum => {
                    let m = curriculum_matches(grid, width, instance, t, ev.spec_curriculum());
                    if m >= 1 {
                        m - 1
                    } else {
                        0
                    }
                },
                Constraint::Teacher => if teacher_matches(grid, width, instance, t, ev.teacher@)
                    == 1 {
                    0
                } else {
                    1
                },
            }
        },
    }
}

/// The sum of a constraint list's scores on cell (t, r).
pub open spec fn constraints_total(
    cons: Seq<Constraint>,
    grid: Seq<Option<usize>>,
    width: int,
    instance: Instance,
    t: int,
    r: int,
) -> int
    decreases cons.len(),
{
    if cons.len() == 0 {
        0
    } else {
        constraints_total(cons.drop_last(), grid, width, instance, t, r) + constraint_violations(
            cons.last(),
            grid,
            width,
            instance,
            t,
            r,
        )
    }
}

/// Everything cell (t, r) is charged: the occupant's own event-scoped
/// constraints plus every instance-wide constraint; 0 for an empty cell.
pub open spec fn cell_violations(
    grid: Seq<Option<usize>>,
    width: int,
    instance: Instance,
    t: int,
    r: int,
) -> int {
    match slot_event(grid, width, t, r) {
        None => 0,
        Some(e) => constraints_total(
            instance.events@[e as int].constraints@,
            grid,
            width,
            instance,
            t,
            r,
        ) + constraints_total(instance.constraints@, grid, width, instance, t, r),
    }
}

/// The flattened grid of a candidate reads back the candidate's cells.
pub proof fn lemma_slot_event_is_cell(c: CandidateSolution, t: int, r: int)
    requires
        c.allocation_table.wf(),
        0 <= t < c.num_timeslots_spec(),
        0 <= r < c.num_rooms_spec(),
    ensures
        slot_event(c.event_grid(), c.num_timeslots_spec(), t, r) == (match c.cell(t, r) {
            Some(a) => Some(a.event_index),
            None => None,
        }),
{
    crate::boxed_slice2d::lemma_flat_index_in_bounds(
        t,
        r,
        c.num_timeslots_spec(),
        c.num_rooms_spec(),
    );
}

pub(crate) fn vec_contains_usize(v: &Vec<usize>, x: usize) -> (b: bool)
    ensures
        b == v@.contains(x),
{
    let mut i: usize = 0;
    while i < v.len()
        invariant
            i <= v@.len(),
            forall|j: int| 0 <= j < i ==> v@[j] != x,
        decreases v@.len() - i,
    {
        if v[i] == x {
            return true;
        }
        i = i + 1;
    }
    false
}

pub(crate) fn vec_contains_timeslot(v: &Vec<TimeSlot>, x: &TimeSlot) -> (b: bool)
    ensures
        b == v@.contains(*x),
{
    let mut i: usize = 0;
    while i < v.len()
        invariant
            i <= v@.len(),
            forall|j: int| 0 <= j < i ==> v@[j] != *x,
        decreases v@.len() - i,
    {
        if v[i] == *x {
            return true;
        }
        i = i + 1;
    }
    false
}

fn opt_string_eq(a: &Option<String>, b: &Option<String>) -> (r: bool)
    ensures
        r == (opt_str_view(*a) == opt_str_view(*b)),
{
    match (a, b) {
        (Some(x), Some(y)) => *x == *y,
        (None, None) => true,
        _ => false,
    }
}

impl Constraint {
    /// What this constraint scores on the given cell of the candidate's
    /// grid, computed from the live grid.
    pub fn check_for_violations(
        &self,
        candidate: &CandidateSolution,
        allocation_index: (usize, usize),
        instance: &Instance,
    ) -> (v: usize)
        requires
            candidate.grid_wf(*instance),
            allocation_index.0 < candidate.num_timeslots_spec(),
            allocation_index.1 < candidate.num_rooms_spec(),
        ensures
            v as int == constraint_violations(
                *self,
                candidate.event_grid(),
                candidate.num_timeslots_spec(),
                *instance,
                allocation_index.0 as int,
                allocation_index.1 as int,
            ),
            v <= instance.rooms@.len() + 1,
    {
        let t = allocation_index.0;
        let r = allocation_index.1;
        proof {
            lemma_slot_event_is_cell(*candidate, t as int, r as int);
        }
        let allocation = match candidate.get_allocation(t, r) {
            Some(a) => a,
            None => {
                return 0;
            },
        };
        let event = &instance.events[allocation.event_index];
        match self {
            Constraint::Room => {
                if event.valid_rooms.len() == 0 {
                    0
                } else if vec_contains_usize(&event.valid_rooms, allocation.room_index) {
                    0
                } else {
                    1
                }
            },
            Constraint::TimeSlot => {
                let timeslot = &instance.timeslots[allocation.timeslot_index];
                if vec_contains_timeslot(&event.banned_timeslots, timeslot) {
                    1
                } else {
                    0
                }
            },
            Constraint::RoomCapacity => {
                let room = &instance.rooms[allocation.room_index];
                if room.capacity > event.students {
                    1
                } else {
                    0
                }
            },
            Constraint::Curriculum => {
                let m = count_curriculum_matches(candidate, t, event, instance);
                if m == 0 {
                    0
                } else {
                    m - 1
                }
            },
            Constraint::Teacher => {
                let m = count_teacher_matches(candidate, t, event, instance);
                if m == 1 {
                    0
                } else {
                    1
                }
            },
        }
    }
}

/// Count the cells in timeslot `t` whose event shares `event`'s curriculum id.
fn count_curriculum_matches(
    candidate: &CandidateSolution,
    t: usize,
    event: &Event,
    instance: &Instance,
) -> (m: usize)
    requires
        candidate.grid_wf(*instance),
        t < candidate.num_timeslots_spec(),
    ensures
        m as int == curriculum_matches(
            candidate.event_grid(),
            candidate.num_timeslots_spec(),
            *instance,
            t as int,
            event.spec_curriculum(),
        ),
        m <= instance.rooms@.len(),
{
    let num_rooms = instance.num_rooms();
    let mut m: usize = 0;
    let mut ri: usize = 0;
    while ri < num_rooms
        invariant
            candidate.grid_wf(*instance),
            t < candidate.num_timeslots_spec(),
            ri <= num_rooms,
            num_rooms == instance.rooms@.len(),
            m <= ri,
            m as int == curriculum_matches_upto(
                candidate.event_grid(),
                candidate.num_timeslots_spec(),
                *instance,
                t as int,
                event.spec_curriculum(),
                ri as int,
            ),
        decreases num_rooms - ri,
    {
        proof {
            lemma_slot_event_is_cell(*candidate, t as int, ri as int);
        }
        if let Some(other) = candidate.get_allocation(t, ri) {
            let other_event = &instance.events[other.event_index];
            if opt_string_eq(&event.curriculum_id, &other_event.curriculum_id) {
                m = m + 1;
            }
        }
        ri = ri + 1;
    }
    m
}

/// Count the cells in timeslot `t` whose event shares `event`'s teacher.
pub(crate) fn count_teacher_matches(
    candidate: &CandidateSolution,
    t: usize,
    event: &Event,
    instance: &Instance,
) -> (m: usize)
    requires
        candidate.grid_wf(*instance),
        t < candidate.num_timeslots_spec(),
    ensures
        m as int == teacher_matches(
            candidate.event_grid(),
            candidate.num_timeslots_spec(),
            *instance,
            t as int,
            event.teacher@,
        ),
        m <= instance.rooms@.len(),
{
    let num_rooms = instance.num_rooms();
    let mut m: usize = 0;
    let mut ri: usize = 0;
    while ri < num_rooms
        invariant
            candidate.grid_wf(*instance),
            t < candidate.num_timeslots_spec(),
            ri <= num_rooms,
            num_rooms == instance.rooms@.len(),
            m <= ri,
            m as int == teacher_matches_upto(
                candidate.event_grid(),
                candidate.num_timeslots_spec(),
                *instance,
                t as int,
                event.teacher@,
                ri as int,
            ),
        decreases num_rooms - ri,
    {
        proof {
            lemma_slot_event_is_cell(*candidate, t as int, ri as int);
        }
        if let Some(other) = candidate.get_allocation(t, ri) {
            let other_event = &instance.events[other.event_index];
            if event.teacher == other_event.teacher {
                m = m + 1;
            }
        }
        ri = ri + 1;
    }
    m
}

/// An event that declares no valid rooms is never charged by the
/// valid-room rule, in any room.
pub proof fn lemma_room_constraint_unrestricted(
    grid: Seq<Option<usize>>,
    width: int,
    instance: Instance,
    t: int,
    r: int,
)
    requires
        slot_event(grid, width, t, r) matches Some(e) && instance.events@[
            e as int
        ].valid_rooms@.len() == 0,
    ensures
        constraint_violations(Constraint::Room, grid, width, instance, t, r) == 0,
{
}

/// An event restricted to exactly one room is charged by the valid-room
/// rule in every room but that one, and not there.
pub proof fn lemma_room_constraint_single_room(
    grid: Seq<Option<usize>>,
    width: int,
    instance: Instance,
    t: int,
    r: int,
    only: usize,
)
    requires
        0 <= r <= usize::MAX,
        slot_event(grid, width, t, r) matches Some(e) && instance.events@[e as int].valid_rooms@
            =~= seq![only],
    ensures
        constraint_violations(Constraint::Room, grid, width, instance, t, r) == (if r == only {
            0int
        } else {
            1int
        }),
{
    let e = slot_event(grid, width, t, r)->0;
    let rooms = instance.events@[e as int].valid_rooms@;
    if r == only {
        assert(rooms[0] == only);
        assert(rooms.contains(r as usize));
    } else {
        if rooms.contains(r as usize) {
            let i = choose|i: int| 0 <= i < rooms.len() && rooms[i] == r as usize;
            assert(i == 0);
            assert(rooms[0] == only);
            assert(r as usize == only);
            assert(false);
        }
    }
}

/// The teacher rule on an occupied cell: a match count of one in its
/// timeslot (the cell itself) is free; any other count is one violation.
pub proof fn lemma_teacher_constraint_counts(
    grid: Seq<Option<usize>>,
    width: int,
    instance: Instance,
    t: int,
    r: int,
)
    requires
        slot_event(grid, width, t, r) is Some,
    ensures
        teacher_matches(
            grid,
            width,
            instance,
            t,
            instance.events@[slot_event(grid, width, t, r)->0 as int].teacher@,
        ) == 1 ==> constraint_violations(Constraint::Teacher, grid, width, instance, t, r) == 0,
        teacher_matches(
            grid,
            width,
            instance,
            t,
            instance.events@[slot_event(grid, width, t, r)->0 as int].teacher@,
        ) != 1 ==> constraint_violations(Constraint::Teacher, grid, width, instance, t, r) == 1,
{
}

/// In a timeslot where the cells holding the given teacher are exactly the
/// rooms `r1` and `r2`, the teacher-match count is two, or one when the
/// two rooms coincide.
pub proof fn lemma_teacher_matches_from_positions(
    grid: Seq<Option<usize>>,
    width: int,
    instance: Instance,
    t: int,
    teacher: Seq<char>,
    r1: int,
    r2: int,
    r_end: int,
)
    requires
        0 <= r_end,
        forall|r: int|
            0 <= r < r_end ==> ((match #[trigger] slot_event(grid, width, t, r) {
                Some(e) => instance.events@[e as int].teacher@ == teacher,
                None => false,
            }) <==> (r == r1 || r == r2)),
    ensures
        teacher_matches_upto(grid, width, instance, t, teacher, r_end) == (if 0 <= r1 < r_end {
            1int
        } else {
            0int
        }) + (if r2 != r1 && 0 <= r2 < r_end {
            1int
        } else {
            0int
        }),
    decreases r_end,
{
    if r_end > 0 {
        lemma_teacher_matches_from_positions(grid, width, instance, t, teacher, r1, r2, r_end - 1);
    }
}

/// In a timeslot where the cells carrying the given curriculum id are
/// exactly the rooms `r1` and `r2`, the curriculum-match count is two, or
/// one when the two rooms coincide.
pub proof fn lemma_curriculum_matches_from_positions(
    grid: Seq<Option<usize>>,
    width: int,
    instance: Instance,
    t: int,
    cid: Option<Seq<char>>,
    r1: int,
    r2: int,
    r_end: int,
)
    requires
        0 <= r_end,
        forall|r: int|
            0 <= r < r_end ==> ((match #[trigger] slot_event(grid, width, t, r) {
                Some(e) => instance.events@[e as int].spec_curriculum() == cid,
                None => false,
            }) <==> (r == r1 || r == r2)),
    ensures
        curriculum_matches_upto(grid, width, instance, t, cid, r_end) == (if 0 <= r1 < r_end {
            1int
        } else {
            0int
        }) + (if r2 != r1 && 0 <= r2 < r_end {
            1int
        } else {
            0int
        }),
    decreases r_end,
{
    if r_end > 0 {
        lemma_curriculum_matches_from_positions(grid, width, instance, t, cid, r1, r2, r_end - 1);
    }
}

/// Two events sharing a curriculum id and placed in the same timeslot, in
/// two different rooms with no further match in that timeslot, are each
/// charged exactly one violation by the curriculum rule; an event whose
/// curriculum id matches no other cell of its timeslot is charged none.
pub proof fn lemma_curriculum_pair_scores(
    grid: Seq<Option<usize>>,
    width: int,
    instance: Instance,
    t: int,
    cid: Option<Seq<char>>,
    r1: int,
    r2: int,
)
    requires
        0 <= r1 < instance.rooms@.len(),
        0 <= r2 < instance.rooms@.len(),
        slot_event(grid, width, t, r1) matches Some(e1) && instance.events@[
            e1 as int
        ].spec_curriculum() == cid,
        forall|r: int|
            0 <= r < instance.rooms@.len() ==> ((match #[trigger] slot_event(grid, width, t, r) {
                Some(e) => instance.events@[e as int].spec_curriculum() == cid,
                None => false,
            }) <==> (r == r1 || r == r2)),
    ensures
        r1 != r2 ==> constraint_violations(Constraint::Curriculum, grid, width, instance, t, r1)
            == 1,
        r1 == r2 ==> constraint_violations(Constraint::Curriculum, grid, width, instance, t, r1)
            == 0,
{
    lemma_curriculum_matches_from_positions(
        grid,
        width,
        instance,
        t,
        cid,
        r1,
        r2,
        instance.rooms@.len() as int,
    );
}

/// Match counts are bounded by the number of rooms examined.
pub proof fn lemma_matches_upto_bounds(
    grid: Seq<Option<usize>>,
    width: int,
    instance: Instance,
    t: int,
    teacher: Seq<char>,
    cid: Option<Seq<char>>,
    r_end: int,
)
    requires
        0 <= r_end,
    ensures
        0 <= teacher_matches_upto(grid, width, instance, t, teacher, r_end) <= r_end,
        0 <= curriculum_matches_upto(grid, width, instance, t, cid, r_end) <= r_end,
    decreases r_end,
{
    if r_end > 0 {
        lemma_matches_upto_bounds(grid, width, instance, t, teacher, cid, r_end - 1);
    }
}

/// Filling empty cells of a timeslot never lowers its match counts: where
/// `wide` keeps every occupant `narrow` has in the row (empty cells may
/// have gained one), both counts only grow.
pub proof fn lemma_matches_monotone(
    narrow: Seq<Option<usize>>,
    wide: Seq<Option<usize>>,
    width: int,
    instance: Instance,
    t: int,
    teacher: Seq<char>,
    cid: Option<Seq<char>>,
    r_end: int,
)
    requires
        0 <= r_end,
        forall|r: int|
            0 <= r < r_end && (#[trigger] slot_event(narrow, width, t, r)) is Some
                ==> slot_event(wide, width, t, r) == slot_event(narrow, width, t, r),
    ensures
        teacher_matches_upto(wide, width, instance, t, teacher, r_end) >= teacher_matches_upto(
            narrow,
            width,
            instance,
            t,
            teacher,
            r_end,
        ),
        curriculum_matches_upto(wide, width, instance, t, cid, r_end)
            >= curriculum_matches_upto(narrow, width, instance, t, cid, r_end),
    decreases r_end,
{
    if r_end > 0 {
        lemma_matches_monotone(narrow, wide, width, instance, t, teacher, cid, r_end - 1);
    }
}

/// An occupied cell contributes to its own timeslot's counts: the counts
/// for its event's teacher and curriculum id are at least one.
pub proof fn lemma_self_match(
    grid: Seq<Option<usize>>,
    width: int,
    instance: Instance,
    t: int,
    r: int,
    r_end: int,
)
    requires
        0 <= r < r_end,
        slot_event(grid, width, t, r) is Some,
    ensures
        teacher_matches_upto(
            grid,
            width,
            instance,
            t,
            instance.events@[slot_event(grid, width, t, r)->0 as int].teacher@,
            r_end,
        ) >= 1,
        curriculum_matches_upto(
            grid,
            width,
            instance,
            t,
            instance.events@[slot_event(grid, width, t, r)->0 as int].spec_curriculum(),
            r_end,
        ) >= 1,
    decreases r_end,
{
    let e = slot_event(grid, width, t, r)->0;
    if r == r_end - 1 {
        lemma_matches_upto_bounds(
            grid,
            width,
            instance,
            t,
            instance.events@[e as int].teacher@,
            instance.events@[e as int].spec_curriculum(),
            r_end - 1,
        );
    } else {
        lemma_self_match(grid, width, instance, t, r, r_end - 1);
    }
}

/// Filling empty cells never lowers what any constraint charges an
/// unchanged occupied cell.
pub proof fn lemma_constraint_violations_monotone(
    con: Constraint,
    narrow: Seq<Option<usize>>,
    wide: Seq<Option<usize>>,
    width: int,
    instance: Instance,
    t: int,
    r: int,
)
    requires
        0 <= r < instance.rooms@.len(),
        slot_event(narrow, width, t, r) is Some,
        forall|r2: int|
            0 <= r2 < instance.rooms@.len() && (#[trigger] slot_event(narrow, width, t, r2))
                is Some ==> slot_event(wide, width, t, r2) == slot_event(narrow, width, t, r2),
    ensures
        constraint_violations(con, wide, width, instance, t, r) >= constraint_violations(
            con,
            narrow,
            width,
            instance,
            t,
            r,
        ),
{
    let e = slot_event(narrow, width, t, r)->0;
    assert(slot_event(wide, width, t, r) == slot_event(narrow, width, t, r));
    let teacher = instance.events@[e as int].teacher@;
    let cid = instance.events@[e as int].spec_curriculum();
    let rooms = instance.rooms@.len() as int;
    match con {
        Constraint::Room => {},
        Constraint::TimeSlot => {},
        Constraint::RoomCapacity => {},
        Constraint::Curriculum => {
            lemma_matches_monotone(narrow, wide, width, instance, t, teacher, cid, rooms);
            lemma_matches_upto_bounds(wide, width, instance, t, teacher, cid, rooms);
        },
        Constraint::Teacher => {
            lemma_matches_monotone(narrow, wide, width, instance, t, teacher, cid, rooms);
            lemma_self_match(narrow, width, instance, t, r, rooms);
        },
    }
}

/// The sum of a constraint list's charges on an unchanged occupied cell
/// never drops when empty cells elsewhere are filled.
pub proof fn lemma_constraints_total_monotone(
    cons: Seq<Constraint>,
    narrow: Seq<Option<usize>>,
    wide: Seq<Option<usize>>,
    width: int,
    instance: Instance,
    t: int,
    r: int,
)
    requires
        0 <= r < instance.rooms@.len(),
        slot_event(narrow, width, t, r) is Some,
        forall|r2: int|
            0 <= r2 < instance.rooms@.len() && (#[trigger] slot_event(narrow, width, t, r2))
                is Some ==> slot_event(wide, width, t, r2) == slot_event(narrow, width, t, r2),
    ensures
        constraints_total(cons, wide, width, instance, t, r) >= constraints_total(
            cons,
            narrow,
            width,
            instance,
            t,
            r,
        ),
    decreases cons.len(),
{
    if cons.len() > 0 {
        lemma_constraints_total_monotone(cons.drop_last(), narrow, wide, width, instance, t, r);
        lemma_constraint_violations_monotone(cons.last(), narrow, wide, width, instance, t, r);
    }
}

/// Everything an unchanged occupied cell is charged never drops when empty
/// cells elsewhere are filled.
pub proof fn lemma_cell_violations_monotone(
    narrow: Seq<Option<usize>>,
    wide: Seq<Option<usize>>,
    width: int,
    instance: Instance,
    t: int,
    r: int,
)
    requires
        0 <= r < instance.rooms@.len(),
        slot_event(narrow, width, t, r) is Some,
        forall|r2: int|
            0 <= r2 < instance.rooms@.len() && (#[trigger] slot_event(narrow, width, t, r2))
                is Some ==> slot_event(wide, width, t, r2) == slot_event(narrow, width, t, r2),
    ensures
        cell_violations(wide, width, instance, t, r) >= cell_violations(
            narrow,
            width,
            instance,
            t,
            r,
        ),
{
    let e = slot_event(narrow, width, t, r)->0;
    lemma_constraints_total_monotone(
        instance.events@[e as int].constraints@,
        narrow,
        wide,
        width,
        instance,
        t,
        r,
    );
    lemma_constraints_total_monotone(
        instance.constraints@,
        narrow,
        wide,
        width,
        instance,
        t,
        r,
    );
}

/// No cell's cached count overstates the grid's fresh evaluation of that
/// cell: the running total is a lower bound on a full recount. This holds
/// of any candidate built by filling empty cells only, because the
/// same-timeslot match counts only grow as cells fill.
pub open spec fn caches_conservative(c: CandidateSolution, instance: Instance) -> bool {
    forall|t: int, r: int|
        0 <= t < c.num_timeslots_spec() && 0 <= r < c.num_rooms_spec()
            ==> crate::candidate::cache_of(#[trigger] c.cell(t, r)) <= cell_violations(
            c.event_grid(),
            c.num_timeslots_spec(),
            instance,
            t,
            r,
        )
}

} // verus!

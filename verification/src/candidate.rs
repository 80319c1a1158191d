use crate::allocation::Allocation;
use crate::boxed_slice2d::{table_at, BoxedSlice2D};
use crate::data::constraints::{
    cell_violations, constraints_total, lemma_slot_event_is_cell,
};
use crate::data::instance::{lemma_event_constraints_le_max, Instance};
use vstd::prelude::*;

verus! {

/// 1 for an occupied cell, 0 for an empty one.
pub open spec fn occ_of(c: Option<Allocation>) -> int {
    if c is Some {
        1
    } else {
        0
    }
}

/// The violation count cached in a cell, 0 for an empty one.
pub open spec fn cache_of(c: Option<Allocation>) -> int {
    match c {
        Some(a) => a.violations as int,
        None => 0,
    }
}


/// The events a flat cell vector holds, cell by cell.
pub open spec fn events_of(data: Seq<Option<Allocation>>) -> Seq<Option<usize>> {
    Seq::new(
        data.len(),
        |i: int|
            match data[i] {
                Some(a) => Some(a.event_index),
                None => None,
            },
    )
}

/// Occupied cells of one grid row, among rooms 0 .. r_end.
pub open spec fn grid_occupied_in_row(
    data: Seq<Option<Allocation>>,
    width: int,
    t: int,
    r_end: int,
) -> int
    decreases r_end,
{
    if r_end <= 0 {
        0
    } else {
        grid_occupied_in_row(data, width, t, r_end - 1) + occ_of(
            table_at(data, width, t, r_end - 1),
        )
    }
}

/// Occupied cells of the grid's full rows 0 .. t_end.
pub open spec fn grid_occupied_upto(
    data: Seq<Option<Allocation>>,
    width: int,
    height: int,
    t_end: int,
) -> int
    decreases t_end,
{
    if t_end <= 0 {
        0
    } else {
        grid_occupied_upto(data, width, height, t_end - 1) + grid_occupied_in_row(
            data,
            width,
            t_end - 1,
            height,
        )
    }
}

/// Cached violations of one grid row, among rooms 0 .. r_end.
pub open spec fn grid_cached_in_row(
    data: Seq<Option<Allocation>>,
    width: int,
    t: int,
    r_end: int,
) -> int
    decreases r_end,
{
    if r_end <= 0 {
        0
    } else {
        grid_cached_in_row(data, width, t, r_end - 1) + cache_of(
            table_at(data, width, t, r_end - 1),
        )
    }
}

/// Cached violations of the grid's full rows 0 .. t_end.
pub open spec fn grid_cached_upto(
    data: Seq<Option<Allocation>>,
    width: int,
    height: int,
    t_end: int,
) -> int
    decreases t_end,
{
    if t_end <= 0 {
        0
    } else {
        grid_cached_upto(data, width, height, t_end - 1) + grid_cached_in_row(
            data,
            width,
            t_end - 1,
            height,
        )
    }
}

/// One proposed timetable: a dense grid of optional allocations, a running
/// total of the violations cached in its cells, and the count of events the
/// grid leaves unplaced.
pub struct CandidateSolution {
    pub allocation_table: BoxedSlice2D<Option<Allocation>>,
    pub violations: usize,
    pub num_unallocated_events: usize,
}

impl CandidateSolution {
    #[verifier::inline]
    pub open spec fn num_timeslots_spec(self) -> int {
        self.allocation_table.width as int
    }

    #[verifier::inline]
    pub open spec fn num_rooms_spec(self) -> int {
        self.allocation_table.height as int
    }

    #[verifier::inline]
    pub open spec fn cell(self, t: int, r: int) -> Option<Allocation> {
        self.allocation_table.spec_get(t, r)
    }

    /// The grid reduced to what constraint scoring reads: which event, if
    /// any, sits in each flat slot.
    #[verifier::inline]
    pub open spec fn event_grid(self) -> Seq<Option<usize>> {
        events_of(self.allocation_table.data@)
    }

    /// Occupied cells among (t, 0) .. (t, r_end).
    #[verifier::inline]
    pub open spec fn occupied_in_row(self, t: int, r_end: int) -> int {
        grid_occupied_in_row(
            self.allocation_table.data@,
            self.allocation_table.width as int,
            t,
            r_end,
        )
    }

    /// Occupied cells of the full rows 0 .. t_end.
    #[verifier::inline]
    pub open spec fn occupied_upto(self, t_end: int) -> int {
        grid_occupied_upto(
            self.allocation_table.data@,
            self.allocation_table.width as int,
            self.allocation_table.height as int,
            t_end,
        )
    }

    #[verifier::inline]
    pub open spec fn occupied_count(self) -> int {
        self.occupied_upto(self.num_timeslots_spec())
    }

    /// Cached violations among (t, 0) .. (t, r_end).
    #[verifier::inline]
    pub open spec fn cached_in_row(self, t: int, r_end: int) -> int {
        grid_cached_in_row(
            self.allocation_table.data@,
            self.allocation_table.width as int,
            t,
            r_end,
        )
    }

    /// Cached violations of the full rows 0 .. t_end.
    #[verifier::inline]
    pub open spec fn cached_upto(self, t_end: int) -> int {
        grid_cached_upto(
            self.allocation_table.data@,
            self.allocation_table.width as int,
            self.allocation_table.height as int,
            t_end,
        )
    }

    /// The sum, over every occupied cell, of that cell's cached violations.
    #[verifier::inline]
    pub open spec fn cached_sum(self) -> int {
        self.cached_upto(self.num_timeslots_spec())
    }

    /// The event, if any, in cell (t, r).
    pub open spec fn event_at(self, t: int, r: int) -> Option<usize> {
        match self.cell(t, r) {
            Some(a) => Some(a.event_index),
            None => None,
        }
    }

    /// Every stored allocation names its own cell, a real event, and a
    /// cached count below the instance's per-cell bound.
    pub open spec fn cells_wf(self, instance: Instance) -> bool {
        forall|t: int, r: int|
            #![trigger self.cell(t, r)]
            0 <= t < self.num_timeslots_spec() && 0 <= r < self.num_rooms_spec()
                ==> (match self.cell(t, r) {
                Some(a) => {
                    &&& a.timeslot_index == t
                    &&& a.room_index == r
                    &&& a.event_index < instance.events@.len()
                    &&& a.violations <= instance.cell_bound()
                },
                None => true,
            })
    }

    /// The grid matches the instance's dimensions and holds valid cells.
    pub open spec fn grid_wf(self, instance: Instance) -> bool {
        &&& self.allocation_table.wf()
        &&& self.num_timeslots_spec() == instance.timeslots@.len()
        &&& self.num_rooms_spec() == instance.rooms@.len()
        &&& self.cells_wf(instance)
    }

    /// Events the grid leaves unplaced: the event count less the occupied
    /// cells, floored at zero for a grid holding duplicate events.
    pub open spec fn spec_unallocated(self, instance: Instance) -> int {
        if self.occupied_count() <= instance.events@.len() {
            instance.events@.len() - self.occupied_count()
        } else {
            0
        }
    }

    /// The candidate's counters agree with its grid.
    pub open spec fn wf(self, instance: Instance) -> bool {
        &&& self.grid_wf(instance)
        &&& self.violations as int == self.cached_sum()
        &&& self.num_unallocated_events as int == self.spec_unallocated(instance)
    }

    /// The candidate's score: cached violations plus unplaced events.
    pub open spec fn spec_score(self) -> int {
        self.violations + self.num_unallocated_events
    }
}

/// Two candidates that agree on grid contents, dimensions and counters;
/// every contract of this module gives them the same meaning.
pub open spec fn same_candidate(a: CandidateSolution, b: CandidateSolution) -> bool {
    &&& a.allocation_table.data@ == b.allocation_table.data@
    &&& a.allocation_table.width == b.allocation_table.width
    &&& a.allocation_table.height == b.allocation_table.height
    &&& a.violations == b.violations
    &&& a.num_unallocated_events == b.num_unallocated_events
}

impl Clone for CandidateSolution {
    /// A full, non-aliased duplicate: same grid contents, same counters,
    /// no storage shared with the original.
    fn clone(&self) -> (res: Self)
        ensures
            res.allocation_table.data@ == self.allocation_table.data@,
            res.allocation_table.width == self.allocation_table.width,
            res.allocation_table.height == self.allocation_table.height,
            res.violations == self.violations,
            res.num_unallocated_events == self.num_unallocated_events,
    {
        CandidateSolution {
            allocation_table: self.allocation_table.clone(),
            violations: self.violations,
            num_unallocated_events: self.num_unallocated_events,
        }
    }
}

/// Everything the contracts say of a candidate is carried by its grid
/// contents, its dimensions and its two counters: a value that agrees on
/// those five projections (such as a clone) satisfies the same predicates.
pub proof fn lemma_same_projections_same_state(
    a: CandidateSolution,
    b: CandidateSolution,
    instance: Instance,
)
    requires
        b.allocation_table.data@ == a.allocation_table.data@,
        b.allocation_table.width == a.allocation_table.width,
        b.allocation_table.height == a.allocation_table.height,
        b.violations == a.violations,
        b.num_unallocated_events == a.num_unallocated_events,
    ensures
        b.wf(instance) == a.wf(instance),
        b.spec_score() == a.spec_score(),
        b.event_grid() == a.event_grid(),
        forall|t: int, r: int| #[trigger] b.cell(t, r) == a.cell(t, r),
{
    assert(a.cells_wf(instance) ==> b.cells_wf(instance)) by {
        if a.cells_wf(instance) {
            assert forall|t: int, r: int|
                #![trigger b.cell(t, r)]
                0 <= t < b.num_timeslots_spec() && 0 <= r < b.num_rooms_spec()
                    implies (match b.cell(t, r) {
                    Some(al) => {
                        &&& al.timeslot_index == t
                        &&& al.room_index == r
                        &&& al.event_index < instance.events@.len()
                        &&& al.violations <= instance.cell_bound()
                    },
                    None => true,
                }) by {
                assert(a.cell(t, r) == b.cell(t, r));
            }
        }
    }
    assert(b.cells_wf(instance) ==> a.cells_wf(instance)) by {
        if b.cells_wf(instance) {
            assert forall|t: int, r: int|
                #![trigger a.cell(t, r)]
                0 <= t < a.num_timeslots_spec() && 0 <= r < a.num_rooms_spec()
                    implies (match a.cell(t, r) {
                    Some(al) => {
                        &&& al.timeslot_index == t
                        &&& al.room_index == r
                        &&& al.event_index < instance.events@.len()
                        &&& al.violations <= instance.cell_bound()
                    },
                    None => true,
                }) by {
                assert(a.cell(t, r) == b.cell(t, r));
            }
        }
    }
}

/// Reads are repeatable: `get_allocation` takes the candidate by shared
/// reference (so it can change nothing) and its contract fixes the result
/// to the cell's value, so any two reads of one cell of one candidate
/// return the same allocation.
pub proof fn lemma_get_allocation_repeatable(
    c: CandidateSolution,
    t: int,
    r: int,
    first: Option<Allocation>,
    second: Option<Allocation>,
)
    requires
        first == c.cell(t, r),
        second == c.cell(t, r),
    ensures
        first == second,
{
}

/// A consistent candidate's running total really is the sum of its cells'
/// cached counts, its score decomposes into that total plus the
/// unallocated-event count, and the unallocated count is the instance's
/// event count less the occupied cells whenever the occupied cells do not
/// outnumber the events.
pub proof fn lemma_score_decomposition(c: CandidateSolution, instance: Instance)
    requires
        c.wf(instance),
    ensures
        c.violations as int == c.cached_sum(),
        c.spec_score() == c.cached_sum() + c.spec_unallocated(instance),
        c.occupied_count() <= instance.events@.len() ==> c.num_unallocated_events as int
            == instance.events@.len() - c.occupied_count(),
{
}

/// Under the instance's arithmetic headroom, a consistent candidate's
/// score fits machine arithmetic.
pub proof fn lemma_wf_score_fits(c: CandidateSolution, instance: Instance)
    requires
        c.wf(instance),
        instance.fits(),
    ensures
        c.spec_score() <= usize::MAX,
{
    lemma_cached_sum_le_bound(c, instance, c.num_timeslots_spec());
    lemma_cell_bound_nonneg(instance);
    lemma_grid_counts_bounds(c, c.num_timeslots_spec());
    assert(c.num_timeslots_spec() * (c.num_rooms_spec() * instance.cell_bound())
        + instance.events@.len() <= usize::MAX) by (nonlinear_arith)
        requires
            c.num_timeslots_spec() == instance.timeslots@.len(),
            c.num_rooms_spec() == instance.rooms@.len(),
            instance.cell_bound() >= 0,
            instance.timeslots@.len() >= 0,
            instance.rooms@.len() >= 0,
            (instance.timeslots@.len() * instance.rooms@.len() + 1) * instance.cell_bound()
                + instance.events@.len() <= usize::MAX;
}

/// Rows of an all-empty region count no occupants and no violations.
pub proof fn lemma_empty_row_counts(c: CandidateSolution, t: int, r_end: int)
    requires
        0 <= t < c.num_timeslots_spec(),
        0 <= r_end <= c.num_rooms_spec(),
        forall|x: int, y: int|
            #![trigger c.cell(x, y)]
            0 <= x < c.num_timeslots_spec() && 0 <= y < c.num_rooms_spec()
                ==> c.cell(x, y) is None,
    ensures
        c.occupied_in_row(t, r_end) == 0,
        c.cached_in_row(t, r_end) == 0,
    decreases r_end,
{
    if r_end > 0 {
        lemma_empty_row_counts(c, t, r_end - 1);
    }
}

/// An all-empty grid counts no occupants and no violations.
pub proof fn lemma_empty_counts(c: CandidateSolution, t_end: int)
    requires
        0 <= t_end <= c.num_timeslots_spec(),
        forall|x: int, y: int|
            #![trigger c.cell(x, y)]
            0 <= x < c.num_timeslots_spec() && 0 <= y < c.num_rooms_spec()
                ==> c.cell(x, y) is None,
    ensures
        c.occupied_upto(t_end) == 0,
        c.cached_upto(t_end) == 0,
    decreases t_end,
{
    if t_end > 0 {
        lemma_empty_counts(c, t_end - 1);
        lemma_empty_row_counts(c, t_end - 1, c.num_rooms_spec());
    }
}

/// Row counts sit between zero and the row's width, and dominate any one
/// of the row's cells.
pub proof fn lemma_row_counts_bounds(c: CandidateSolution, t: int, r_end: int)
    requires
        0 <= r_end,
    ensures
        0 <= c.occupied_in_row(t, r_end) <= r_end,
        0 <= c.cached_in_row(t, r_end),
    decreases r_end,
{
    if r_end > 0 {
        lemma_row_counts_bounds(c, t, r_end - 1);
    }
}

/// A row's sums dominate the contribution of any single cell of the row.
pub proof fn lemma_row_counts_ge_cell(c: CandidateSolution, t: int, r0: int, r_end: int)
    requires
        0 <= r0 < r_end,
    ensures
        c.occupied_in_row(t, r_end) >= occ_of(c.cell(t, r0)),
        c.cached_in_row(t, r_end) >= cache_of(c.cell(t, r0)),
    decreases r_end,
{
    lemma_row_counts_bounds(c, t, r0);
    if r0 < r_end - 1 {
        lemma_row_counts_ge_cell(c, t, r0, r_end - 1);
    }
}

/// Grid totals are nonnegative and the occupied count is bounded by the
/// number of cells counted.
pub proof fn lemma_grid_counts_bounds(c: CandidateSolution, t_end: int)
    requires
        0 <= t_end,
    ensures
        0 <= c.occupied_upto(t_end) <= t_end * c.num_rooms_spec(),
        0 <= c.cached_upto(t_end),
    decreases t_end,
{
    if t_end > 0 {
        lemma_grid_counts_bounds(c, t_end - 1);
        lemma_row_counts_bounds(c, t_end - 1, c.num_rooms_spec());
        assert((t_end - 1) * c.num_rooms_spec() + c.num_rooms_spec() == t_end
            * c.num_rooms_spec()) by (nonlinear_arith);
    } else {
        assert(t_end * c.num_rooms_spec() == 0) by (nonlinear_arith)
            requires t_end == 0;
    }
}

/// Grid totals dominate the totals of any single row.
pub proof fn lemma_grid_counts_ge_row(c: CandidateSolution, t0: int, t_end: int)
    requires
        0 <= t0 < t_end,
    ensures
        c.occupied_upto(t_end) >= c.occupied_in_row(t0, c.num_rooms_spec()),
        c.cached_upto(t_end) >= c.cached_in_row(t0, c.num_rooms_spec()),
    decreases t_end,
{
    lemma_grid_counts_bounds(c, t0);
    lemma_row_counts_bounds(c, t0, c.num_rooms_spec());
    if t0 < t_end - 1 {
        lemma_grid_counts_ge_row(c, t0, t_end - 1);
        lemma_row_counts_bounds(c, t_end - 1, c.num_rooms_spec());
    }
}

/// The grid totals dominate any one cell's contribution.
pub proof fn lemma_counts_ge_cell(c: CandidateSolution, t0: int, r0: int)
    requires
        0 <= t0 < c.num_timeslots_spec(),
        0 <= r0 < c.num_rooms_spec(),
    ensures
        c.occupied_count() >= occ_of(c.cell(t0, r0)),
        c.cached_sum() >= cache_of(c.cell(t0, r0)),
{
    lemma_row_counts_ge_cell(c, t0, r0, c.num_rooms_spec());
    lemma_grid_counts_ge_row(c, t0, c.num_timeslots_spec());
}

/// Row totals of two grids that differ in at most the one cell (t0, r0).
pub proof fn lemma_row_counts_update(
    c1: CandidateSolution,
    c2: CandidateSolution,
    t: int,
    t0: int,
    r0: int,
    r_end: int,
)
    requires
        c1.allocation_table.width == c2.allocation_table.width,
        c1.allocation_table.height == c2.allocation_table.height,
        0 <= t0 < c1.num_timeslots_spec(),
        0 <= r0 < c1.num_rooms_spec(),
        0 <= t < c1.num_timeslots_spec(),
        0 <= r_end <= c1.num_rooms_spec(),
        forall|x: int, y: int|
            #![trigger c2.cell(x, y)]
            0 <= x < c1.num_timeslots_spec() && 0 <= y < c1.num_rooms_spec()
                && !(x == t0 && y == r0) ==> c2.cell(x, y) == c1.cell(x, y),
    ensures
        t != t0 || r_end <= r0 ==> {
            &&& c2.occupied_in_row(t, r_end) == c1.occupied_in_row(t, r_end)
            &&& c2.cached_in_row(t, r_end) == c1.cached_in_row(t, r_end)
        },
        t == t0 && r_end > r0 ==> {
            &&& c2.occupied_in_row(t, r_end) == c1.occupied_in_row(t, r_end)
                - occ_of(c1.cell(t0, r0)) + occ_of(c2.cell(t0, r0))
            &&& c2.cached_in_row(t, r_end) == c1.cached_in_row(t, r_end)
                - cache_of(c1.cell(t0, r0)) + cache_of(c2.cell(t0, r0))
        },
    decreases r_end,
{
    if r_end > 0 {
        lemma_row_counts_update(c1, c2, t, t0, r0, r_end - 1);
    }
}

/// Grid totals of two grids that differ in at most the one cell (t0, r0).
pub proof fn lemma_grid_counts_update(
    c1: CandidateSolution,
    c2: CandidateSolution,
    t0: int,
    r0: int,
    t_end: int,
)
    requires
        c1.allocation_table.width == c2.allocation_table.width,
        c1.allocation_table.height == c2.allocation_table.height,
        0 <= t0 < c1.num_timeslots_spec(),
        0 <= r0 < c1.num_rooms_spec(),
        0 <= t_end <= c1.num_timeslots_spec(),
        forall|x: int, y: int|
            #![trigger c2.cell(x, y)]
            0 <= x < c1.num_timeslots_spec() && 0 <= y < c1.num_rooms_spec()
                && !(x == t0 && y == r0) ==> c2.cell(x, y) == c1.cell(x, y),
    ensures
        t_end <= t0 ==> {
            &&& c2.occupied_upto(t_end) == c1.occupied_upto(t_end)
            &&& c2.cached_upto(t_end) == c1.cached_upto(t_end)
        },
        t_end > t0 ==> {
            &&& c2.occupied_upto(t_end) == c1.occupied_upto(t_end)
                - occ_of(c1.cell(t0, r0)) + occ_of(c2.cell(t0, r0))
            &&& c2.cached_upto(t_end) == c1.cached_upto(t_end)
                - cache_of(c1.cell(t0, r0)) + cache_of(c2.cell(t0, r0))
        },
    decreases t_end,
{
    if t_end > 0 {
        lemma_grid_counts_update(c1, c2, t0, r0, t_end - 1);
        lemma_row_counts_update(c1, c2, t_end - 1, t0, r0, c1.num_rooms_spec());
    }
}

/// With every cached cell below the instance's per-cell bound, a row's
/// cached total is below width times that bound, and the grid's cached
/// total below the full-grid product.
pub proof fn lemma_cached_row_le_bound(
    c: CandidateSolution,
    instance: Instance,
    t: int,
    r_end: int,
)
    requires
        c.grid_wf(instance),
        0 <= t < c.num_timeslots_spec(),
        0 <= r_end <= c.num_rooms_spec(),
    ensures
        c.cached_in_row(t, r_end) <= r_end * instance.cell_bound(),
    decreases r_end,
{
    lemma_cell_bound_nonneg(instance);
    if r_end > 0 {
        lemma_cached_row_le_bound(c, instance, t, r_end - 1);
        assert((r_end - 1) * instance.cell_bound() + instance.cell_bound() == r_end
            * instance.cell_bound()) by (nonlinear_arith);
    } else {
        assert(r_end * instance.cell_bound() == 0) by (nonlinear_arith)
            requires r_end == 0;
    }
}

/// The grid's cached total is bounded by cells times the per-cell bound.
pub proof fn lemma_cached_sum_le_bound(c: CandidateSolution, instance: Instance, t_end: int)
    requires
        c.grid_wf(instance),
        0 <= t_end <= c.num_timeslots_spec(),
    ensures
        c.cached_upto(t_end) <= t_end * (c.num_rooms_spec() * instance.cell_bound()),
    decreases t_end,
{
    lemma_cell_bound_nonneg(instance);
    if t_end > 0 {
        lemma_cached_sum_le_bound(c, instance, t_end - 1);
        lemma_cached_row_le_bound(c, instance, t_end - 1, c.num_rooms_spec());
        assert((t_end - 1) * (c.num_rooms_spec() * instance.cell_bound())
            + c.num_rooms_spec() * instance.cell_bound()
            == t_end * (c.num_rooms_spec() * instance.cell_bound())) by (nonlinear_arith);
    } else {
        assert(t_end * (c.num_rooms_spec() * instance.cell_bound()) == 0) by (nonlinear_arith)
            requires t_end == 0;
    }
}

/// The per-cell bound is never negative.
pub proof fn lemma_cell_bound_nonneg(instance: Instance)
    ensures
        instance.cell_bound() >= 0,
{
    if instance.events@.len() > 0 {
        crate::data::instance::lemma_event_constraints_le_max(instance.events@, 0);
    }
    assert((max_ec(instance) + instance.constraints@.len()) * (instance.rooms@.len() + 1)
        >= 0) by (nonlinear_arith)
        requires max_ec(instance) >= 0;
}

/// Shorthand used by the bound lemmas.
pub open spec fn max_ec(instance: Instance) -> int {
    crate::data::instance::max_event_constraints(instance.events@)
}

impl CandidateSolution {
    /// A fresh, fully empty candidate for the given instance: every cell
    /// empty, no violations, every event unallocated.
    pub fn new(instance: &Instance) -> (c: CandidateSolution)
        requires
            instance.timeslots@.len() * instance.rooms@.len() <= usize::MAX,
        ensures
            c.wf(*instance),
            c.num_timeslots_spec() == instance.timeslots@.len(),
            c.num_rooms_spec() == instance.rooms@.len(),
            forall|t: int, r: int|
                #![trigger c.cell(t, r)]
                0 <= t < c.num_timeslots_spec() && 0 <= r < c.num_rooms_spec()
                    ==> c.cell(t, r) is None,
            c.violations == 0,
            c.num_unallocated_events == instance.events@.len(),
    {
        let width = instance.num_timeslots();
        let height = instance.num_rooms();
        let table = BoxedSlice2D::new(width, height, None);
        let c = CandidateSolution {
            allocation_table: table,
            violations: 0,
            num_unallocated_events: instance.num_events(),
        };
        proof {
            assert forall|t: int, r: int|
                #![trigger c.cell(t, r)]
                0 <= t < c.num_timeslots_spec() && 0 <= r < c.num_rooms_spec()
                    implies c.cell(t, r) is None by {
                crate::boxed_slice2d::lemma_flat_index_in_bounds(
                    t,
                    r,
                    c.num_timeslots_spec(),
                    c.num_rooms_spec(),
                );
            }
            lemma_empty_counts(c, c.num_timeslots_spec());
        }
        c
    }

    /// Read one cell; never changes the candidate, and always returns the
    /// value the grid holds there.
    pub fn get_allocation(&self, timeslot: usize, room: usize) -> (a: Option<Allocation>)
        requires
            self.allocation_table.wf(),
            timeslot < self.num_timeslots_spec(),
            room < self.num_rooms_spec(),
        ensures
            a == self.cell(timeslot as int, room as int),
    {
        self.allocation_table.get(timeslot, room)
    }

    /// `get_allocation` with the cell named by a (timeslot, room) pair.
    pub fn get_allocation_with_index(&self, index: (usize, usize)) -> (a: Option<Allocation>)
        requires
            self.allocation_table.wf(),
            index.0 < self.num_timeslots_spec(),
            index.1 < self.num_rooms_spec(),
        ensures
            a == self.cell(index.0 as int, index.1 as int),
    {
        self.allocation_table.get(index.0, index.1)
    }

    /// The candidate's score: cached violations plus unallocated events;
    /// 0 means a fully valid, fully allocated timetable.
    pub fn violations(&self) -> (v: usize)
        requires
            self.spec_score() <= usize::MAX,
        ensures
            v as int == self.spec_score(),
    {
        self.violations + self.num_unallocated_events
    }

    pub fn num_timeslots(&self) -> (n: usize)
        ensures
            n as int == self.num_timeslots_spec(),
    {
        self.allocation_table.width()
    }

    pub fn num_rooms(&self) -> (n: usize)
        ensures
            n as int == self.num_rooms_spec(),
    {
        self.allocation_table.height()
    }

    pub fn num_unallocated_events(&self) -> (n: usize)
        ensures
            n == self.num_unallocated_events,
    {
        self.num_unallocated_events
    }

    /// Recount the occupied cells and refresh the unallocated-event counter
    /// from the grid; nothing else changes.
    pub fn check_all_events_allocated(&mut self, instance: &Instance)
        requires
            old(self).allocation_table.wf(),
            old(self).num_timeslots_spec() == instance.timeslots@.len(),
            old(self).num_rooms_spec() == instance.rooms@.len(),
        ensures
            final(self).allocation_table == old(self).allocation_table,
            final(self).violations == old(self).violations,
            final(self).num_unallocated_events as int == old(self).spec_unallocated(*instance),
    {
        let num_timeslots = instance.num_timeslots();
        let num_rooms = instance.num_rooms();
        let total_cells = self.allocation_table.data.len();
        let mut events_allocated: usize = 0;
        let mut t: usize = 0;
        while t < num_timeslots
            invariant
                self == old(self),
                self.allocation_table.wf(),
                num_timeslots as int == self.num_timeslots_spec(),
                num_rooms as int == self.num_rooms_spec(),
                total_cells == num_timeslots * num_rooms,
                t <= num_timeslots,
                events_allocated as int == self.occupied_upto(t as int),
                events_allocated as int <= t * num_rooms,
            decreases num_timeslots - t,
        {
            let mut r: usize = 0;
            while r < num_rooms
                invariant
                    self == old(self),
                    self.allocation_table.wf(),
                    num_timeslots as int == self.num_timeslots_spec(),
                    num_rooms as int == self.num_rooms_spec(),
                    total_cells == num_timeslots * num_rooms,
                    t < num_timeslots,
                    r <= num_rooms,
                    events_allocated as int == self.occupied_upto(t as int)
                        + self.occupied_in_row(t as int, r as int),
                    events_allocated as int <= t * num_rooms + r,
                decreases num_rooms - r,
            {
                proof {
                    crate::boxed_slice2d::lemma_flat_index_in_bounds(
                        t as int,
                        r as int,
                        self.num_timeslots_spec(),
                        self.num_rooms_spec(),
                    );
                    assert(t * num_rooms + r < num_timeslots * num_rooms) by (nonlinear_arith)
                        requires t < num_timeslots, r < num_rooms, 0 <= t, 0 <= r;
                    assert(num_timeslots * num_rooms == self.allocation_table.data@.len());
                }
                let allocation = self.get_allocation(t, r);
                if allocation.is_some() {
                    events_allocated = events_allocated + 1;
                }
                r = r + 1;
            }
            proof {
                assert(t * num_rooms + num_rooms == (t + 1) * num_rooms) by (nonlinear_arith);
            }
            t = t + 1;
        }
        let num_events = instance.num_events();
        self.num_unallocated_events = if events_allocated <= num_events {
            num_events - events_allocated
        } else {
            0
        };
    }
}

/// After one cell of a well-formed grid is rewritten with a value that is
/// itself well-formed for that cell, the whole grid is well-formed again.
pub proof fn lemma_cells_wf_after_set(
    pre: CandidateSolution,
    post: CandidateSolution,
    instance: Instance,
    ti: int,
    ri: int,
)
    requires
        pre.cells_wf(instance),
        post.num_timeslots_spec() == pre.num_timeslots_spec(),
        post.num_rooms_spec() == pre.num_rooms_spec(),
        0 <= ti < pre.num_timeslots_spec(),
        0 <= ri < pre.num_rooms_spec(),
        forall|x: int, y: int|
            #![trigger post.cell(x, y)]
            0 <= x < pre.num_timeslots_spec() && 0 <= y < pre.num_rooms_spec()
                && !(x == ti && y == ri) ==> post.cell(x, y) == pre.cell(x, y),
        match post.cell(ti, ri) {
            Some(a) => {
                &&& a.timeslot_index == ti
                &&& a.room_index == ri
                &&& a.event_index < instance.events@.len()
                &&& a.violations <= instance.cell_bound()
            },
            None => true,
        },
    ensures
        post.cells_wf(instance),
{
    assert forall|t2: int, r2: int|
        #![trigger post.cell(t2, r2)]
        0 <= t2 < post.num_timeslots_spec() && 0 <= r2 < post.num_rooms_spec()
            implies (match post.cell(t2, r2) {
            Some(a) => {
                &&& a.timeslot_index == t2
                &&& a.room_index == r2
                &&& a.event_index < instance.events@.len()
                &&& a.violations <= instance.cell_bound()
            },
            None => true,
        }) by {
        if !(t2 == ti && r2 == ri) {
            assert(pre.cell(t2, r2) == post.cell(t2, r2));
        }
    }
}

/// The violations the occupant of cell (t, r) is charged, summed over its
/// event's own constraints and the instance-wide ones, read from the live
/// grid (the occupant itself included in same-timeslot counts).
fn evaluate_cell(candidate: &CandidateSolution, t: usize, r: usize, instance: &Instance) -> (v:
    usize)
    requires
        candidate.grid_wf(*instance),
        instance.fits(),
        t < candidate.num_timeslots_spec(),
        r < candidate.num_rooms_spec(),
        candidate.cell(t as int, r as int) is Some,
    ensures
        v as int == cell_violations(
            candidate.event_grid(),
            candidate.num_timeslots_spec(),
            *instance,
            t as int,
            r as int,
        ),
        v as int <= instance.cell_bound(),
{
    proof {
        lemma_slot_event_is_cell(*candidate, t as int, r as int);
        lemma_cell_bound_nonneg(*instance);
    }
    let allocation = candidate.get_allocation(t, r).unwrap();
    let event = &instance.events[allocation.event_index];
    let ghost grid = candidate.event_grid();
    let ghost width = candidate.num_timeslots_spec();
    let ghost rp1 = instance.rooms@.len() + 1;
    let ghost ec = event.constraints@.len() as int;
    let ghost gc = instance.constraints@.len() as int;
    proof {
        lemma_event_constraints_le_max(instance.events@, allocation.event_index as int);
        assert(ec + gc <= crate::data::instance::max_event_constraints(instance.events@) + gc);
        assert((ec + gc) * rp1 <= instance.cell_bound()) by (nonlinear_arith)
            requires
                ec + gc <= crate::data::instance::max_event_constraints(instance.events@) + gc,
                rp1 >= 1,
                instance.cell_bound() == (crate::data::instance::max_event_constraints(
                    instance.events@,
                ) + gc) * rp1;
        assert(instance.cell_bound() <= usize::MAX) by (nonlinear_arith)
            requires
                instance.fits(),
                instance.cell_bound() >= 0,
                instance.timeslots@.len() * instance.rooms@.len() >= 0,
                (instance.timeslots@.len() * instance.rooms@.len() + 1) * instance.cell_bound()
                    + instance.events@.len() <= usize::MAX;
    }
    let mut total: usize = 0;
    let mut i: usize = 0;
    while i < event.constraints.len()
        invariant
            candidate.grid_wf(*instance),
            t < candidate.num_timeslots_spec(),
            r < candidate.num_rooms_spec(),
            i <= event.constraints@.len(),
            grid == candidate.event_grid(),
            width == candidate.num_timeslots_spec(),
            rp1 == instance.rooms@.len() + 1,
            ec == event.constraints@.len() as int,
            gc == instance.constraints@.len() as int,
            (ec + gc) * rp1 <= instance.cell_bound(),
            instance.cell_bound() <= usize::MAX,
            total as int == constraints_total(
                event.constraints@.take(i as int),
                grid,
                width,
                *instance,
                t as int,
                r as int,
            ),
            total as int <= i * rp1,
        decreases event.constraints@.len() - i,
    {
        let v = event.constraints[i].check_for_violations(candidate, (t, r), instance);
        proof {
            assert(total + v <= (i + 1) * rp1) by (nonlinear_arith)
                requires
                    total as int <= i * rp1,
                    v as int <= rp1,
                    i >= 0;
            assert((i + 1) * rp1 <= (ec + gc) * rp1) by (nonlinear_arith)
                requires
                    i + 1 <= ec,
                    0 <= gc,
                    rp1 >= 1;
            assert(event.constraints@.take(i + 1).drop_last() =~= event.constraints@.take(
                i as int,
            ));
            assert(event.constraints@.take(i + 1).last() == event.constraints@[i as int]);
        }
        total = total + v;
        i = i + 1;
    }
    proof {
        assert(event.constraints@.take(ec) =~= event.constraints@);
    }
    let mut j: usize = 0;
    while j < instance.constraints.len()
        invariant
            candidate.grid_wf(*instance),
            t < candidate.num_timeslots_spec(),
            r < candidate.num_rooms_spec(),
            j <= instance.constraints@.len(),
            grid == candidate.event_grid(),
            width == candidate.num_timeslots_spec(),
            rp1 == instance.rooms@.len() + 1,
            ec == event.constraints@.len() as int,
            gc == instance.constraints@.len() as int,
            (ec + gc) * rp1 <= instance.cell_bound(),
            instance.cell_bound() <= usize::MAX,
            total as int == constraints_total(
                event.constraints@,
                grid,
                width,
                *instance,
                t as int,
                r as int,
            ) + constraints_total(
                instance.constraints@.take(j as int),
                grid,
                width,
                *instance,
                t as int,
                r as int,
            ),
            total as int <= (ec + j) * rp1,
        decreases instance.constraints@.len() - j,
    {
        let v = instance.constraints[j].check_for_violations(candidate, (t, r), instance);
        proof {
            assert(total + v <= (ec + j + 1) * rp1) by (nonlinear_arith)
                requires
                    total as int <= (ec + j) * rp1,
                    v as int <= rp1,
                    ec >= 0,
                    j >= 0;
            assert((ec + j + 1) * rp1 <= (ec + gc) * rp1) by (nonlinear_arith)
                requires
                    j + 1 <= gc,
                    0 <= ec,
                    rp1 >= 1;
            assert(instance.constraints@.take(j + 1).drop_last() =~= instance.constraints@.take(
                j as int,
            ));
            assert(instance.constraints@.take(j + 1).last() == instance.constraints@[j as int]);
        }
        total = total + v;
        j = j + 1;
    }
    proof {
        assert(instance.constraints@.take(gc) =~= instance.constraints@);
        assert((ec + gc) * rp1 <= instance.cell_bound());
    }
    total
}

impl CandidateSolution {
    /// Place `event_index` into (or, for `None`, clear) the cell
    /// (timeslot_index, room_index). The old occupant's cached violations
    /// leave the running total; a new occupant is scored against the grid
    /// as it stands after placement, and its score is cached in the cell
    /// and added to the total; finally the unallocated-event counter is
    /// refreshed by a full rescan.
    pub fn allocate_event(
        &mut self,
        timeslot_index: usize,
        room_index: usize,
        event_index: Option<usize>,
        instance: &Instance,
    )
        requires
            old(self).wf(*instance),
            instance.fits(),
            timeslot_index < old(self).num_timeslots_spec(),
            room_index < old(self).num_rooms_spec(),
            event_index matches Some(e) ==> e < instance.events@.len(),
        ensures
            final(self).wf(*instance),
            final(self).num_timeslots_spec() == old(self).num_timeslots_spec(),
            final(self).num_rooms_spec() == old(self).num_rooms_spec(),
            forall|t2: int, r2: int|
                #![trigger final(self).cell(t2, r2)]
                0 <= t2 < old(self).num_timeslots_spec() && 0 <= r2 < old(self).num_rooms_spec()
                    && !(t2 == timeslot_index && r2 == room_index)
                    ==> final(self).cell(t2, r2) == old(self).cell(t2, r2),
            event_index is None ==> final(self).cell(
                timeslot_index as int,
                room_index as int,
            ) is None,
            event_index matches Some(e) ==> final(self).cell(
                timeslot_index as int,
                room_index as int,
            ) == Some(
                Allocation {
                    event_index: e,
                    timeslot_index,
                    room_index,
                    violations: cell_violations(
                        final(self).event_grid(),
                        final(self).num_timeslots_spec(),
                        *instance,
                        timeslot_index as int,
                        room_index as int,
                    ) as usize,
                },
            ),
            event_index is Some ==> cache_of(
                final(self).cell(timeslot_index as int, room_index as int),
            ) == cell_violations(
                final(self).event_grid(),
                final(self).num_timeslots_spec(),
                *instance,
                timeslot_index as int,
                room_index as int,
            ),
    {
        let ghost pre = *self;
        let ghost ti = timeslot_index as int;
        let ghost ri = room_index as int;
        let ghost t_count = pre.num_timeslots_spec();
        let old_cell = self.get_allocation(timeslot_index, room_index);
        let old_violations = match old_cell {
            Some(a) => a.violations(),
            None => 0,
        };
        proof {
            lemma_counts_ge_cell(pre, ti, ri);
            lemma_cell_bound_nonneg(*instance);
        }
        self.violations = self.violations - old_violations;
        match event_index {
            None => {
                self.allocation_table.set(timeslot_index, room_index, None);
                proof {
                    lemma_grid_counts_update(pre, *self, ti, ri, t_count);
                    lemma_cells_wf_after_set(pre, *self, *instance, ti, ri);
                }
            },
            Some(new_event) => {
                let mut allocation = Allocation::new(new_event, timeslot_index, room_index);
                self.allocation_table.set(timeslot_index, room_index, Some(allocation));
                let ghost mid = *self;
                proof {
                    lemma_grid_counts_update(pre, mid, ti, ri, t_count);
                    lemma_cells_wf_after_set(pre, mid, *instance, ti, ri);
                }
                let cell_score = evaluate_cell(&*self, timeslot_index, room_index, instance);
                allocation.set_violations(cell_score);
                self.allocation_table.set(timeslot_index, room_index, Some(allocation));
                proof {
                    lemma_grid_counts_update(mid, *self, ti, ri, t_count);
                    lemma_cells_wf_after_set(mid, *self, *instance, ti, ri);
                    crate::boxed_slice2d::lemma_flat_index_in_bounds(
                        ti,
                        ri,
                        mid.num_timeslots_spec(),
                        mid.num_rooms_spec(),
                    );
                    assert forall|t2: int, r2: int|
                        #![trigger self.cell(t2, r2)]
                        0 <= t2 < pre.num_timeslots_spec() && 0 <= r2 < pre.num_rooms_spec()
                            && !(t2 == ti && r2 == ri)
                            implies self.cell(t2, r2) == pre.cell(t2, r2) by {
                        assert(self.cell(t2, r2) == mid.cell(t2, r2));
                        assert(mid.cell(t2, r2) == pre.cell(t2, r2));
                    }
                    assert forall|i: int| 0 <= i < self.allocation_table.data@.len()
                        implies self.event_grid()[i] == mid.event_grid()[i] by {
                        let flat = ri * mid.allocation_table.width + ti;
                        if i == flat {
                            assert(self.allocation_table.data@[i] == Some(allocation));
                            assert(mid.allocation_table.data@[i] == Some(
                                Allocation {
                                    event_index: new_event,
                                    timeslot_index,
                                    room_index,
                                    violations: 0,
                                },
                            ));
                        } else {
                            assert(mid.allocation_table.data@.update(flat, Some(allocation))[i]
                                == mid.allocation_table.data@[i]);
                        }
                    }
                    assert(self.event_grid() =~= mid.event_grid());
                    lemma_cached_sum_le_bound(*self, *instance, t_count);
                    assert(t_count * (self.num_rooms_spec() * instance.cell_bound()) <= (t_count
                        * self.num_rooms_spec() + 1) * instance.cell_bound()) by (nonlinear_arith)
                        requires
                            t_count >= 0,
                            self.num_rooms_spec() >= 0,
                            instance.cell_bound() >= 0;
                }
                self.violations = self.violations + cell_score;
            },
        }
        self.check_all_events_allocated(instance);
    }
}

} // verus!

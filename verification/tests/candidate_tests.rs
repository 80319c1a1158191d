use time_table::boxed_slice2d::BoxedSlice2D;
use time_table::candidate::CandidateSolution;
use time_table::data::event::Event;
use time_table::data::instance::Instance;
use time_table::data::room::Room;
use time_table::util::vec_from_range;

fn room(name: &str, capacity: usize) -> Room {
    Room::new(name.to_string(), capacity, "B".to_string())
}

fn instance_2x2(teachers: [&str; 2]) -> Instance {
    // Room capacities match the student counts, so the capacity rule
    // (which charges over-sized rooms) stays quiet in these tests.
    let mut instance = Instance::new();
    instance.set_timeslots(1, 2);
    instance.add_room(room("R0", 10));
    instance.add_room(room("R1", 10));
    instance.add_event(Event::new("C0".to_string(), teachers[0].to_string(), 10));
    instance.add_event(Event::new("C1".to_string(), teachers[1].to_string(), 10));
    instance
}

/// The running total always equals the sum of the occupied cells' cached
/// counts, and the score adds the unallocated-event count.
fn assert_counters_consistent(candidate: &CandidateSolution, instance: &Instance) {
    let mut cached_sum = 0usize;
    let mut occupied = 0usize;
    for t in 0..candidate.num_timeslots() {
        for r in 0..candidate.num_rooms() {
            if let Some(allocation) = candidate.get_allocation(t, r) {
                cached_sum += allocation.violations();
                occupied += 1;
            }
        }
    }
    let expected_unallocated = instance.num_events().saturating_sub(occupied);
    assert_eq!(candidate.num_unallocated_events(), expected_unallocated);
    assert_eq!(candidate.violations(), cached_sum + expected_unallocated);
}

#[test]
fn fresh_candidate_is_empty_and_scores_every_event() {
    let instance = instance_2x2(["T", "U"]);
    let candidate = CandidateSolution::new(&instance);
    assert_eq!(candidate.num_timeslots(), 2);
    assert_eq!(candidate.num_rooms(), 2);
    assert_eq!(candidate.num_unallocated_events(), 2);
    assert_eq!(candidate.violations(), 2);
    for t in 0..2 {
        for r in 0..2 {
            assert!(candidate.get_allocation(t, r).is_none());
        }
    }
}

#[test]
fn counters_follow_every_edit() {
    let instance = instance_2x2(["T", "T"]);
    let mut candidate = CandidateSolution::new(&instance);
    assert_counters_consistent(&candidate, &instance);

    candidate.allocate_event(0, 0, Some(0), &instance);
    assert_counters_consistent(&candidate, &instance);
    assert_eq!(candidate.violations(), 1); // one event still unplaced

    // Same teacher in the same timeslot: the new cell is charged once by
    // the teacher rule and once by the curriculum rule (two events with no
    // curriculum id count as sharing one).
    candidate.allocate_event(0, 1, Some(1), &instance);
    assert_counters_consistent(&candidate, &instance);
    assert_eq!(candidate.num_unallocated_events(), 0);
    assert_eq!(candidate.violations(), 2);

    // Deallocate drops the cell's cached count from the total.
    candidate.allocate_event(0, 1, None, &instance);
    assert_counters_consistent(&candidate, &instance);
    assert_eq!(candidate.violations(), 1); // back to one unplaced event

    // Move the second event to the other timeslot: no clash.
    candidate.allocate_event(1, 1, Some(1), &instance);
    assert_counters_consistent(&candidate, &instance);
    assert_eq!(candidate.violations(), 0);
}

#[test]
fn overwriting_a_cell_replaces_its_charge() {
    let instance = instance_2x2(["T", "U"]);
    let mut candidate = CandidateSolution::new(&instance);
    candidate.allocate_event(0, 0, Some(0), &instance);
    candidate.allocate_event(0, 0, Some(1), &instance);
    let allocation = candidate.get_allocation(0, 0).expect("cell should be occupied");
    assert_eq!(allocation.event_index(), 1);
    assert_counters_consistent(&candidate, &instance);
}

#[test]
fn get_allocation_repeats_and_never_mutates() {
    let instance = instance_2x2(["T", "U"]);
    let mut candidate = CandidateSolution::new(&instance);
    candidate.allocate_event(1, 0, Some(0), &instance);
    let first = candidate.get_allocation(1, 0);
    let second = candidate.get_allocation(1, 0);
    assert_eq!(first, second);
    assert_eq!(candidate.get_allocation_with_index((1, 0)), first);
    let score_before = candidate.violations();
    let _ = candidate.get_allocation(0, 1);
    assert_eq!(candidate.violations(), score_before);
    let allocation = first.expect("cell should be occupied");
    assert_eq!(allocation.event_index(), 0);
    assert_eq!(allocation.timeslot_index(), 1);
    assert_eq!(allocation.room_index(), 0);
}

#[test]
fn more_events_than_cells_leaves_the_rest_unallocated() {
    let mut instance = Instance::new();
    instance.set_timeslots(1, 1);
    instance.add_room(room("R0", 1));
    for i in 0..3 {
        instance.add_event(Event::new(format!("C{}", i), format!("T{}", i), 5));
    }
    let mut candidate = CandidateSolution::new(&instance);
    candidate.allocate_event(0, 0, Some(0), &instance);
    assert_eq!(candidate.num_unallocated_events(), 2);
    assert_counters_consistent(&candidate, &instance);
}

#[test]
fn cloning_duplicates_without_sharing() {
    let instance = instance_2x2(["T", "U"]);
    let mut original = CandidateSolution::new(&instance);
    original.allocate_event(0, 0, Some(0), &instance);
    let copy = original.clone();
    assert_eq!(copy.violations(), original.violations());
    assert_eq!(copy.get_allocation(0, 0), original.get_allocation(0, 0));
    // Editing the copy leaves the original untouched.
    let mut copy = copy;
    copy.allocate_event(0, 0, None, &instance);
    assert!(copy.get_allocation(0, 0).is_none());
    assert!(original.get_allocation(0, 0).is_some());
}

#[test]
fn boxed_slice_2d_round_trips_cells() {
    let mut table: BoxedSlice2D<u32> = BoxedSlice2D::new(3, 2, 7);
    assert_eq!(table.width(), 3);
    assert_eq!(table.height(), 2);
    assert_eq!(table.get(2, 1), 7);
    table.set(2, 1, 42);
    assert_eq!(table.get(2, 1), 42);
    assert_eq!(table.get(2, 0), 7);
}

#[test]
fn vec_from_range_lists_the_range() {
    assert_eq!(vec_from_range(0..4), vec![0, 1, 2, 3]);
    assert_eq!(vec_from_range(2..2), Vec::<usize>::new());
    assert_eq!(vec_from_range(5..8), vec![5, 6, 7]);
}

#[test]
fn instance_validators_accept_the_ordinary_case() {
    let instance = instance_2x2(["T", "U"]);
    assert!(instance.well_formed());
    assert!(instance.check_fits());
    assert_eq!(instance.num_timeslots(), 2);
    assert_eq!(instance.num_rooms(), 2);
    assert_eq!(instance.num_events(), 2);
    assert_eq!(instance.days(), 1);
    assert_eq!(instance.periods_per_day(), 2);
    assert_eq!(instance.to_timeslot_index(0, 1), 1);
    assert!(instance.timeslot(1).is_some());
    assert!(instance.timeslot(2).is_none());
    assert!(instance.event(1).is_some());
    assert!(instance.event(2).is_none());
    assert!(instance.room(0).is_some());
    assert!(instance.room(2).is_none());
}

#[test]
fn well_formed_rejects_a_dangling_room_index() {
    let mut instance = Instance::new();
    instance.set_timeslots(1, 1);
    instance.add_room(room("R0", 10));
    let mut event = Event::new("C0".to_string(), "T".to_string(), 5);
    event.set_valid_rooms(vec![3]);
    instance.add_event(event);
    assert!(!instance.well_formed());
}

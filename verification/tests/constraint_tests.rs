use time_table::candidate::CandidateSolution;
use time_table::data::constraints::{
    Constraint, CurriculumConstraint, RoomCapacityConstraint, RoomConstraint, TeacherConstraint,
    TimeSlotConstraint,
};
use time_table::data::event::Event;
use time_table::data::instance::Instance;
use time_table::data::room::Room;
use time_table::data::timeslot::TimeSlot;

fn room(name: &str, capacity: usize) -> Room {
    Room::new(name.to_string(), capacity, "B".to_string())
}

/// 1 timeslot, 3 rooms, and one event per given (teacher, curriculum).
fn small_instance(rooms: usize, events: Vec<Event>) -> Instance {
    let mut instance = Instance::new();
    instance.set_timeslots(1, 2);
    for i in 0..rooms {
        instance.add_room(room(&format!("R{}", i), 100));
    }
    for event in events {
        instance.add_event(event);
    }
    instance
}

#[test]
fn room_constraint_unrestricted_scores_zero_everywhere() {
    let event = Event::new("C0".to_string(), "T0".to_string(), 10);
    assert!(event.valid_rooms().is_none());
    let instance = small_instance(3, vec![event]);
    let constraint = RoomConstraint::new();
    for r in 0..3 {
        let mut candidate = CandidateSolution::new(&instance);
        candidate.allocate_event(0, r, Some(0), &instance);
        assert_eq!(constraint.check_for_violations(&candidate, (0, r), &instance), 0);
    }
}

#[test]
fn room_constraint_restricted_to_one_room() {
    let mut event = Event::new("C0".to_string(), "T0".to_string(), 10);
    event.set_valid_rooms(vec![2]);
    let instance = small_instance(3, vec![event]);
    let constraint = RoomConstraint::new();
    for r in 0..3 {
        let mut candidate = CandidateSolution::new(&instance);
        candidate.allocate_event(0, r, Some(0), &instance);
        let expected = if r == 2 { 0 } else { 1 };
        assert_eq!(
            constraint.check_for_violations(&candidate, (0, r), &instance),
            expected
        );
    }
}

#[test]
fn room_constraint_empty_cell_scores_zero() {
    let event = Event::new("C0".to_string(), "T0".to_string(), 10);
    let instance = small_instance(3, vec![event]);
    let candidate = CandidateSolution::new(&instance);
    for r in 0..3 {
        assert_eq!(
            RoomConstraint::new().check_for_violations(&candidate, (0, r), &instance),
            0
        );
    }
}

#[test]
fn timeslot_constraint_flags_banned_slot() {
    let mut banned = Event::new("C0".to_string(), "T0".to_string(), 10);
    banned.set_banned_timeslots(vec![TimeSlot::new(0, 0)]);
    let instance = small_instance(1, vec![banned]);
    let constraint = TimeSlotConstraint::new();

    let mut candidate = CandidateSolution::new(&instance);
    candidate.allocate_event(0, 0, Some(0), &instance);
    assert_eq!(constraint.check_for_violations(&candidate, (0, 0), &instance), 1);

    let mut candidate = CandidateSolution::new(&instance);
    candidate.allocate_event(1, 0, Some(0), &instance);
    assert_eq!(constraint.check_for_violations(&candidate, (1, 0), &instance), 0);
}

#[test]
fn room_capacity_flags_oversized_rooms() {
    // The rule charges a room whose capacity strictly exceeds the event's
    // student count, and accepts one that is too small.
    let event = Event::new("C0".to_string(), "T0".to_string(), 10);
    let mut instance = Instance::new();
    instance.set_timeslots(1, 1);
    instance.add_room(room("small", 5));
    instance.add_room(room("exact", 10));
    instance.add_room(room("large", 11));
    instance.add_event(event);
    let constraint = RoomCapacityConstraint::new();
    let expected = [0, 0, 1];
    for r in 0..3 {
        let mut candidate = CandidateSolution::new(&instance);
        candidate.allocate_event(0, r, Some(0), &instance);
        assert_eq!(
            constraint.check_for_violations(&candidate, (0, r), &instance),
            expected[r]
        );
    }
}

#[test]
fn teacher_constraint_single_occupancy_is_free() {
    let e0 = Event::new("C0".to_string(), "T".to_string(), 10);
    let e1 = Event::new("C1".to_string(), "U".to_string(), 10);
    let instance = small_instance(2, vec![e0, e1]);
    let mut candidate = CandidateSolution::new(&instance);
    candidate.allocate_event(0, 0, Some(0), &instance);
    candidate.allocate_event(0, 1, Some(1), &instance);
    let constraint = TeacherConstraint::new();
    assert_eq!(constraint.check_for_violations(&candidate, (0, 0), &instance), 0);
    assert_eq!(constraint.check_for_violations(&candidate, (0, 1), &instance), 0);
}

#[test]
fn teacher_constraint_double_occupancy_charges_each_cell() {
    let e0 = Event::new("C0".to_string(), "T".to_string(), 10);
    let e1 = Event::new("C1".to_string(), "T".to_string(), 10);
    let instance = small_instance(2, vec![e0, e1]);
    let mut candidate = CandidateSolution::new(&instance);
    candidate.allocate_event(0, 0, Some(0), &instance);
    candidate.allocate_event(0, 1, Some(1), &instance);
    let constraint = TeacherConstraint::new();
    assert_eq!(constraint.check_for_violations(&candidate, (0, 0), &instance), 1);
    assert_eq!(constraint.check_for_violations(&candidate, (0, 1), &instance), 1);
}

#[test]
fn curriculum_shared_same_timeslot_charges_each_cell() {
    let mut e0 = Event::new("C0".to_string(), "T0".to_string(), 10);
    e0.add_curriculum_id("Q".to_string());
    let mut e1 = Event::new("C1".to_string(), "T1".to_string(), 10);
    e1.add_curriculum_id("Q".to_string());
    let mut instance = Instance::new();
    instance.set_timeslots(1, 2);
    instance.add_room(room("R0", 100));
    instance.add_room(room("R1", 100));
    instance.add_event(e0);
    instance.add_event(e1);

    // Same timeslot, different rooms: one violation on each occupied cell.
    let mut candidate = CandidateSolution::new(&instance);
    candidate.allocate_event(0, 0, Some(0), &instance);
    candidate.allocate_event(0, 1, Some(1), &instance);
    let constraint = CurriculumConstraint::new();
    assert_eq!(constraint.check_for_violations(&candidate, (0, 0), &instance), 1);
    assert_eq!(constraint.check_for_violations(&candidate, (0, 1), &instance), 1);

    // Different timeslots: the rule charges nothing.
    let mut candidate = CandidateSolution::new(&instance);
    candidate.allocate_event(0, 0, Some(0), &instance);
    candidate.allocate_event(1, 1, Some(1), &instance);
    assert_eq!(constraint.check_for_violations(&candidate, (0, 0), &instance), 0);
    assert_eq!(constraint.check_for_violations(&candidate, (1, 1), &instance), 0);
}

#[test]
fn curriculum_alone_in_timeslot_is_free() {
    let mut e0 = Event::new("C0".to_string(), "T0".to_string(), 10);
    e0.add_curriculum_id("Q".to_string());
    let instance = small_instance(2, vec![e0]);
    let mut candidate = CandidateSolution::new(&instance);
    candidate.allocate_event(0, 0, Some(0), &instance);
    assert_eq!(
        CurriculumConstraint::new().check_for_violations(&candidate, (0, 0), &instance),
        0
    );
}

#[test]
fn constraint_builders_name_their_kind() {
    assert_eq!(RoomConstraint::new(), Constraint::Room);
    assert_eq!(TimeSlotConstraint::new(), Constraint::TimeSlot);
    assert_eq!(RoomCapacityConstraint::new(), Constraint::RoomCapacity);
    assert_eq!(CurriculumConstraint::new(), Constraint::Curriculum);
    assert_eq!(TeacherConstraint::new(), Constraint::Teacher);
}

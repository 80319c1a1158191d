use time_table::candidate::CandidateSolution;
use time_table::data::event::Event;
use time_table::data::instance::Instance;
use time_table::data::room::Room;
use time_table::genetic::{
    best_of_draws, crossover_at, elitism_selection, generate_n_random_candidates, mutate_at,
    sort_by_score, ConfigError, GeneticStrategy,
};
use time_table::data::constraints::{
    CurriculumConstraint, RoomCapacityConstraint, TeacherConstraint,
};
use time_table::rng::RandomSource;

fn room(name: &str, capacity: usize) -> Room {
    Room::new(name.to_string(), capacity, "B".to_string())
}

const SEED: [usize; 4] = [11, 22, 33, 44];

fn medium_instance() -> Instance {
    let mut instance = Instance::new();
    instance.set_timeslots(2, 2);
    instance.add_room(room("R0", 30));
    instance.add_room(room("R1", 60));
    instance.add_room(room("R2", 90));
    let teachers = ["A", "A", "B", "C", "C"];
    let curricula = [Some("Q1"), Some("Q1"), None, Some("Q2"), None];
    for i in 0..5 {
        let mut event = Event::new(format!("C{}", i), teachers[i].to_string(), 25 + 10 * i);
        if let Some(q) = curricula[i] {
            event.add_curriculum_id(q.to_string());
        }
        instance.add_event(event);
    }
    instance
}

fn grids_equal(a: &CandidateSolution, b: &CandidateSolution) -> bool {
    if a.num_timeslots() != b.num_timeslots() || a.num_rooms() != b.num_rooms() {
        return false;
    }
    for t in 0..a.num_timeslots() {
        for r in 0..a.num_rooms() {
            if a.get_allocation(t, r) != b.get_allocation(t, r) {
                return false;
            }
        }
    }
    a.violations() == b.violations()
}

#[test]
fn rejects_each_bad_configuration() {
    assert_eq!(
        GeneticStrategy::new(0, 10, 5, 2, 80, SEED).err(),
        Some(ConfigError::ZeroGenerations)
    );
    assert_eq!(
        GeneticStrategy::new(6, 0, 5, 2, 80, SEED).err(),
        Some(ConfigError::ZeroCandidates)
    );
    assert_eq!(
        GeneticStrategy::new(6, 10, 0, 2, 80, SEED).err(),
        Some(ConfigError::ZeroTournament)
    );
    assert_eq!(
        GeneticStrategy::new(6, 10, 11, 2, 80, SEED).err(),
        Some(ConfigError::TournamentTooLarge)
    );
    assert_eq!(
        GeneticStrategy::new(6, 10, 5, 10, 80, SEED).err(),
        Some(ConfigError::TooManyElites)
    );
    assert_eq!(
        GeneticStrategy::new(6, 10, 5, 2, 0, SEED).err(),
        Some(ConfigError::ZeroMutationWeight)
    );
    assert!(GeneticStrategy::new(6, 10, 5, 2, 80, SEED).is_ok());
}

#[test]
fn single_event_instance_solves_to_zero() {
    // One event of 10 students, one room of capacity 5 (not strictly
    // greater, so the capacity rule charges nothing), one timeslot: the
    // sole candidate places the event and scores 0.
    let mut instance = Instance::new();
    instance.set_timeslots(1, 1);
    instance.add_room(room("R0", 5));
    instance.add_event(Event::new("C0".to_string(), "T".to_string(), 10));
    assert!(instance.well_formed() && instance.check_fits());

    let mut strategy = GeneticStrategy::new(1, 1, 1, 0, 80, SEED).expect("valid configuration");
    let result = strategy.allocate(&instance);
    assert_eq!(result.len(), 1);
    assert_eq!(result[0].violations(), 0);
    let placed = result[0].get_allocation(0, 0).expect("the sole cell should be filled");
    assert_eq!(placed.event_index(), 0);
    assert_eq!(placed.violations(), 0);
}

#[test]
fn identical_seeds_reproduce_identical_rankings() {
    let instance = medium_instance();
    let mut first = GeneticStrategy::new(4, 8, 3, 2, 5, SEED).expect("valid configuration");
    let mut second = GeneticStrategy::new(4, 8, 3, 2, 5, SEED).expect("valid configuration");
    let run_a = first.allocate(&instance);
    let run_b = second.allocate(&instance);
    assert_eq!(run_a.len(), run_b.len());
    for (a, b) in run_a.iter().zip(run_b.iter()) {
        assert!(grids_equal(a, b));
    }
}

#[test]
fn allocate_returns_a_ranked_population() {
    let instance = medium_instance();
    let mut strategy = GeneticStrategy::new(3, 6, 2, 1, 4, SEED).expect("valid configuration");
    let result = strategy.allocate(&instance);
    assert!(result.len() == 6 || result.len() == 7);
    for pair in result.windows(2) {
        assert!(pair[0].violations() <= pair[1].violations());
    }
}

#[test]
fn initial_candidates_place_events_without_clashes_when_room_allows() {
    let instance = medium_instance();
    let mut rng = RandomSource::from_seed(SEED);
    let candidates = generate_n_random_candidates(3, &instance, &mut rng);
    assert_eq!(candidates.len(), 3);
    for candidate in &candidates {
        assert_eq!(candidate.num_timeslots(), 4);
        assert_eq!(candidate.num_rooms(), 3);
        let mut occupied = 0;
        let mut seen = Vec::new();
        for t in 0..4 {
            for r in 0..3 {
                if let Some(allocation) = candidate.get_allocation(t, r) {
                    occupied += 1;
                    assert!(!seen.contains(&allocation.event_index()));
                    seen.push(allocation.event_index());
                }
            }
        }
        assert_eq!(occupied + candidate.num_unallocated_events(), 5);
    }
}

#[test]
fn initializer_falls_back_when_every_timeslot_is_banned() {
    let mut instance = Instance::new();
    instance.set_timeslots(1, 2);
    instance.add_room(room("R0", 50));
    let mut event = Event::new("C0".to_string(), "T".to_string(), 10);
    event.set_banned_timeslots(vec![
        time_table::data::timeslot::TimeSlot::new(0, 0),
        time_table::data::timeslot::TimeSlot::new(0, 1),
    ]);
    instance.add_event(event);
    let mut rng = RandomSource::from_seed(SEED);
    let candidates = generate_n_random_candidates(1, &instance, &mut rng);
    // The unfiltered fallback still places the event somewhere.
    assert_eq!(candidates[0].num_unallocated_events(), 0);
}

#[test]
fn initializer_keeps_restricted_events_in_their_rooms() {
    let mut instance = Instance::new();
    instance.set_timeslots(2, 2);
    for i in 0..3 {
        instance.add_room(room(&format!("R{}", i), 40));
    }
    let mut restricted = Event::new("C0".to_string(), "T0".to_string(), 40);
    restricted.set_valid_rooms(vec![1]);
    instance.add_event(restricted);
    instance.add_event(Event::new("C1".to_string(), "T1".to_string(), 40));

    for seed_word in 0..8 {
        let mut rng = RandomSource::from_seed([seed_word, 5, 6, 7]);
        let candidates = generate_n_random_candidates(2, &instance, &mut rng);
        for candidate in &candidates {
            for t in 0..4 {
                for r in 0..3 {
                    if let Some(allocation) = candidate.get_allocation(t, r) {
                        if allocation.event_index() == 0 {
                            assert_eq!(r, 1);
                        }
                    }
                }
            }
        }
    }
}

#[test]
fn initializer_always_places_something() {
    // Far more events than cells: every candidate still places at least one.
    let mut instance = Instance::new();
    instance.set_timeslots(1, 1);
    instance.add_room(room("R0", 10));
    for i in 0..4 {
        instance.add_event(Event::new(format!("C{}", i), format!("T{}", i), 10));
    }
    for seed_word in 0..8 {
        let mut rng = RandomSource::from_seed([seed_word, 1, 2, 3]);
        let candidates = generate_n_random_candidates(2, &instance, &mut rng);
        for candidate in &candidates {
            assert!(candidate.get_allocation(0, 0).is_some());
            assert_eq!(candidate.num_unallocated_events(), 3);
        }
    }
}

#[test]
fn initializer_caches_never_overstate_a_fresh_recount() {
    let instance = medium_instance();
    let mut rng = RandomSource::from_seed(SEED);
    let candidates = generate_n_random_candidates(4, &instance, &mut rng);
    for candidate in &candidates {
        for t in 0..4 {
            for r in 0..3 {
                if let Some(allocation) = candidate.get_allocation(t, r) {
                    let fresh = RoomCapacityConstraint::new()
                        .check_for_violations(candidate, (t, r), &instance)
                        + CurriculumConstraint::new()
                            .check_for_violations(candidate, (t, r), &instance)
                        + TeacherConstraint::new()
                            .check_for_violations(candidate, (t, r), &instance);
                    assert!(allocation.violations() <= fresh);
                }
            }
        }
    }
}

#[test]
fn best_of_draws_prefers_lowest_score_and_earliest_tie() {
    let instance = medium_instance();
    let mut pop = Vec::new();
    // Three candidates scoring 5 (empty), 5 (empty), and lower (one placed).
    pop.push(CandidateSolution::new(&instance));
    pop.push(CandidateSolution::new(&instance));
    let mut better = CandidateSolution::new(&instance);
    better.allocate_event(0, 0, Some(2), &instance);
    pop.push(better);
    assert_eq!(best_of_draws(&vec![0, 1, 2], &pop), 2);
    // Ties resolve to the earliest draw.
    assert_eq!(best_of_draws(&vec![1, 0], &pop), 1);
    assert_eq!(best_of_draws(&vec![0, 1], &pop), 0);
}

#[test]
fn sort_by_score_orders_ascending_and_keeps_length() {
    let instance = medium_instance();
    let mut a = CandidateSolution::new(&instance); // 5 unplaced
    let mut b = CandidateSolution::new(&instance);
    b.allocate_event(0, 0, Some(0), &instance); // 4 unplaced
    a.allocate_event(0, 0, Some(0), &instance);
    a.allocate_event(1, 0, Some(1), &instance);
    a.allocate_event(2, 0, Some(2), &instance); // 2 unplaced
    let c = CandidateSolution::new(&instance); // 5 unplaced
    let sorted = sort_by_score(vec![b, a, c]);
    assert_eq!(sorted.len(), 3);
    let scores: Vec<usize> = sorted.iter().map(|s| s.violations()).collect();
    // Candidate `a` carries one over-sized-room charge plus two unplaced
    // events; `b` one charge plus four unplaced; `c` five unplaced.
    assert_eq!(scores, vec![3, 5, 5]);
}

#[test]
fn elitism_copies_the_leading_candidates() {
    let instance = medium_instance();
    let mut first = CandidateSolution::new(&instance);
    first.allocate_event(0, 0, Some(0), &instance);
    let second = CandidateSolution::new(&instance);
    let population = vec![first, second];
    let mut next = Vec::new();
    elitism_selection(&population, &mut next, 1);
    assert_eq!(next.len(), 1);
    assert!(grids_equal(&next[0], &population[0]));
}

#[test]
fn mutate_at_swaps_two_cells() {
    let instance = medium_instance();
    let mut candidate = CandidateSolution::new(&instance);
    candidate.allocate_event(0, 0, Some(0), &instance);
    candidate.allocate_event(1, 1, Some(2), &instance);
    mutate_at(&mut candidate, (0, 0), (1, 1), &instance);
    assert_eq!(candidate.get_allocation(0, 0).unwrap().event_index(), 2);
    assert_eq!(candidate.get_allocation(1, 1).unwrap().event_index(), 0);

    // Swapping an occupied cell with an empty one moves the occupant.
    mutate_at(&mut candidate, (0, 0), (2, 2), &instance);
    assert!(candidate.get_allocation(0, 0).is_none());
    assert_eq!(candidate.get_allocation(2, 2).unwrap().event_index(), 2);

    // Swapping a cell with itself changes nothing.
    mutate_at(&mut candidate, (1, 1), (1, 1), &instance);
    assert_eq!(candidate.get_allocation(1, 1).unwrap().event_index(), 0);
}

#[test]
fn crossover_at_keeps_parent_a_and_patches_parent_b() {
    let instance = medium_instance();
    let mut parent_a = CandidateSolution::new(&instance);
    parent_a.allocate_event(0, 0, Some(0), &instance);
    parent_a.allocate_event(3, 2, Some(1), &instance);
    let mut parent_b = CandidateSolution::new(&instance);
    parent_b.allocate_event(0, 0, Some(2), &instance);
    parent_b.allocate_event(3, 2, Some(3), &instance);
    parent_b.allocate_event(1, 0, Some(4), &instance);

    let (child_a, child_b) = crossover_at(&parent_a, &parent_b, (2, 1), &instance);

    // Child A keeps parent A's layout everywhere.
    for t in 0..4 {
        for r in 0..3 {
            let got = child_a.get_allocation(t, r).map(|al| al.event_index());
            let want = parent_a.get_allocation(t, r).map(|al| al.event_index());
            assert_eq!(got, want);
        }
    }
    // Child B takes parent A's occupants at or beyond the cut, parent B's
    // elsewhere.
    for t in 0..4 {
        for r in 0..3 {
            let got = child_b.get_allocation(t, r).map(|al| al.event_index());
            let want = if t >= 2 && r >= 1 {
                parent_a.get_allocation(t, r).map(|al| al.event_index())
            } else {
                parent_b.get_allocation(t, r).map(|al| al.event_index())
            };
            assert_eq!(got, want);
        }
    }
}

#[test]
fn seeded_sources_draw_identical_streams() {
    let mut one = RandomSource::from_seed(SEED);
    let mut two = RandomSource::from_seed(SEED);
    for _ in 0..64 {
        assert_eq!(one.next_below(1000), two.next_below(1000));
        assert_eq!(one.one_in(3), two.one_in(3));
    }
    let mut three = RandomSource::from_seed([9, 9, 9, 9]);
    let mut diverged = false;
    for _ in 0..64 {
        if one.next_below(1000) != three.next_below(1000) {
            diverged = true;
        }
    }
    assert!(diverged);
}

#[test]
fn draws_stay_below_their_bound() {
    let mut rng = RandomSource::from_seed(SEED);
    for bound in 1..40 {
        for _ in 0..8 {
            assert!(rng.next_below(bound) < bound);
        }
    }
}

use crate::allocation::AllocationStrategy;
use crate::candidate::{
    lemma_same_projections_same_state, lemma_wf_score_fits, same_candidate, CandidateSolution,
};
use crate::candidate::cache_of;
use crate::data::constraints::{
    caches_conservative, cell_violations, count_teacher_matches, lemma_cell_violations_monotone,
    lemma_slot_event_is_cell, slot_event, vec_contains_timeslot,
};
use crate::data::instance::Instance;
use crate::rng::RandomSource;
use vstd::prelude::*;
use vstd::multiset::Multiset;
use vstd::seq_lib::group_to_multiset_ensures;

verus! {

/// Why an optimizer configuration was rejected.
#[derive(Clone, Copy, PartialEq, Eq, Structural, Debug)]
pub enum ConfigError {
    ZeroGenerations,
    ZeroCandidates,
    ZeroTournament,
    TournamentTooLarge,
    TooManyElites,
    ZeroMutationWeight,
}

/// An evolutionary search over candidate timetables: a seeded random
/// source plus the hyperparameters of the generation loop.
pub struct GeneticStrategy {
    /// Generations still to simulate.
    pub generations: usize,
    /// Candidates per generation.
    pub candidates_size: usize,
    /// Contestants drawn for each tournament.
    pub tournament_size: usize,
    /// Candidates that survive a generation unchanged.
    pub elite_number: usize,
    /// A child is mutated with chance 1 in `mutation_weight`.
    pub mutation_weight: u32,
    pub rng: RandomSource,
}

impl GeneticStrategy {
    /// A configuration the generation loop can run with.
    pub open spec fn config_wf(self) -> bool {
        &&& self.generations >= 1
        &&& self.candidates_size >= 1
        &&& self.tournament_size >= 1
        &&& self.tournament_size <= self.candidates_size
        &&& self.elite_number < self.candidates_size
        &&& self.mutation_weight >= 1
    }

    /// Build a strategy, rejecting any inconsistent configuration before a
    /// generation runs.
    pub fn new(
        generations: usize,
        candidates_size: usize,
        tournament_size: usize,
        elite_number: usize,
        mutation_weight: u32,
        seed: [usize; 4],
    ) -> (r: Result<GeneticStrategy, ConfigError>)
        ensures
            r is Ok <==> {
                &&& generations >= 1
                &&& candidates_size >= 1
                &&& tournament_size >= 1
                &&& tournament_size <= candidates_size
                &&& elite_number < candidates_size
                &&& mutation_weight >= 1
            },
            r matches Ok(g) ==> {
                &&& g.generations == generations
                &&& g.candidates_size == candidates_size
                &&& g.tournament_size == tournament_size
                &&& g.elite_number == elite_number
                &&& g.mutation_weight == mutation_weight
                &&& g.config_wf()
            },
            generations == 0 ==> r == Err::<GeneticStrategy, ConfigError>(
                ConfigError::ZeroGenerations,
            ),
            generations >= 1 && candidates_size == 0 ==> r == Err::<GeneticStrategy, ConfigError>(
                ConfigError::ZeroCandidates,
            ),
            generations >= 1 && candidates_size >= 1 && tournament_size == 0 ==> r == Err::<
                GeneticStrategy,
                ConfigError,
            >(ConfigError::ZeroTournament),
            generations >= 1 && candidates_size >= 1 && tournament_size >= 1 && tournament_size
                > candidates_size ==> r == Err::<GeneticStrategy, ConfigError>(
                ConfigError::TournamentTooLarge,
            ),
            generations >= 1 && candidates_size >= 1 && 1 <= tournament_size <= candidates_size
                && elite_number >= candidates_size ==> r == Err::<GeneticStrategy, ConfigError>(
                ConfigError::TooManyElites,
            ),
            generations >= 1 && candidates_size >= 1 && 1 <= tournament_size <= candidates_size
                && elite_number < candidates_size && mutation_weight == 0 ==> r == Err::<
                GeneticStrategy,
                ConfigError,
            >(ConfigError::ZeroMutationWeight),
    {
        if generations == 0 {
            return Err(ConfigError::ZeroGenerations);
        }
        if candidates_size == 0 {
            return Err(ConfigError::ZeroCandidates);
        }
        if tournament_size == 0 {
            return Err(ConfigError::ZeroTournament);
        }
        if tournament_size > candidates_size {
            return Err(ConfigError::TournamentTooLarge);
        }
        if elite_number >= candidates_size {
            return Err(ConfigError::TooManyElites);
        }
        if mutation_weight == 0 {
            return Err(ConfigError::ZeroMutationWeight);
        }
        Ok(
            GeneticStrategy {
                generations,
                candidates_size,
                tournament_size,
                elite_number,
                mutation_weight,
                rng: RandomSource::from_seed(seed),
            },
        )
    }
}

/// The index a tournament settles on: the lowest-scoring of the drawn
/// contestants, the earliest draw winning ties.
pub open spec fn spec_best_of(draws: Seq<usize>, population: Seq<CandidateSolution>, k: int) -> int
    decreases k,
{
    if k <= 1 {
        draws[0] as int
    } else {
        let prev = spec_best_of(draws, population, k - 1);
        if population[draws[k - 1] as int].spec_score() < population[prev].spec_score() {
            draws[k - 1] as int
        } else {
            prev
        }
    }
}

/// Resolve a tournament: of the drawn population indices, return the one
/// whose candidate scores lowest, ties going to the earliest draw.
pub fn best_of_draws(draws: &Vec<usize>, population: &Vec<CandidateSolution>) -> (best: usize)
    requires
        draws@.len() >= 1,
        forall|i: int| 0 <= i < draws@.len() ==> (#[trigger] draws@[i]) < population@.len(),
        forall|i: int|
            0 <= i < population@.len() ==> (#[trigger] population@[i].spec_score()) <= usize::MAX,
    ensures
        best < population@.len(),
        best as int == spec_best_of(draws@, population@, draws@.len() as int),
        forall|i: int|
            0 <= i < draws@.len() ==> population@[best as int].spec_score()
                <= population@[#[trigger] draws@[i] as int].spec_score(),
{
    let mut best = draws[0];
    let mut i: usize = 1;
    while i < draws.len()
        invariant
            1 <= i <= draws@.len(),
            forall|j: int| 0 <= j < draws@.len() ==> (#[trigger] draws@[j]) < population@.len(),
            forall|j: int|
                0 <= j < population@.len() ==> (#[trigger] population@[j].spec_score())
                    <= usize::MAX,
            best < population@.len(),
            best as int == spec_best_of(draws@, population@, i as int),
            forall|j: int|
                0 <= j < i ==> population@[best as int].spec_score()
                    <= population@[#[trigger] draws@[j] as int].spec_score(),
        decreases draws@.len() - i,
    {
        let contestant = draws[i];
        if population[contestant].violations() < population[best].violations() {
            best = contestant;
        }
        i = i + 1;
    }
    best
}

/// One tournament: draw `k` contestants uniformly with replacement and
/// return the index of the best.
pub fn tournament_selection(
    k: usize,
    population: &Vec<CandidateSolution>,
    rng: &mut RandomSource,
) -> (winner: usize)
    requires
        k >= 1,
        population@.len() >= 1,
        forall|i: int|
            0 <= i < population@.len() ==> (#[trigger] population@[i].spec_score()) <= usize::MAX,
    ensures
        winner < population@.len(),
{
    let mut draws: Vec<usize> = Vec::new();
    let mut i: usize = 0;
    while i < k
        invariant
            i <= k,
            population@.len() >= 1,
            draws@.len() == i,
            forall|j: int| 0 <= j < draws@.len() ==> (#[trigger] draws@[j]) < population@.len(),
        decreases k - i,
    {
        let d = rng.next_below(population.len());
        draws.push(d);
        i = i + 1;
    }
    best_of_draws(&draws, population)
}

/// Copy the first `n` candidates unchanged into the next generation.
pub fn elitism_selection(
    candidates: &Vec<CandidateSolution>,
    new_candidates: &mut Vec<CandidateSolution>,
    n: usize,
)
    requires
        n <= candidates@.len(),
    ensures
        final(new_candidates)@.len() == old(new_candidates)@.len() + n,
        forall|i: int|
            0 <= i < old(new_candidates)@.len() ==> final(new_candidates)@[i] == old(
                new_candidates,
            )@[i],
        forall|i: int|
            old(new_candidates)@.len() <= i < old(new_candidates)@.len() + n ==> same_candidate(
                #[trigger] final(new_candidates)@[i],
                candidates@[i - old(new_candidates)@.len()],
            ),
{
    let base = new_candidates.len();
    let mut i: usize = 0;
    while i < n
        invariant
            i <= n,
            n <= candidates@.len(),
            new_candidates@.len() == base + i,
            forall|j: int| 0 <= j < base ==> new_candidates@[j] == old(new_candidates)@[j],
            forall|j: int|
                base <= j < base + i ==> same_candidate(
                    #[trigger] new_candidates@[j],
                    candidates@[j - base],
                ),
        decreases n - i,
    {
        new_candidates.push(candidates[i].clone());
        i = i + 1;
    }
}

/// Sort candidates ascending by score; the result holds exactly the same
/// candidates (one copy each) as the input.
#[verifier::rlimit(50)]
pub fn sort_by_score(input: Vec<CandidateSolution>) -> (r: Vec<CandidateSolution>)
    requires
        forall|i: int|
            0 <= i < input@.len() ==> (#[trigger] input@[i].spec_score()) <= usize::MAX,
    ensures
        r@.len() == input@.len(),
        r@.to_multiset() == input@.to_multiset(),
        forall|i: int, j: int|
            0 <= i < j < r@.len() ==> r@[i].spec_score() <= r@[j].spec_score(),
{
    broadcast use group_to_multiset_ensures;
    broadcast use vstd::multiset::group_multiset_axioms;

    let ghost orig = input@;
    let mut v = input;
    let mut r: Vec<CandidateSolution> = Vec::new();
    while v.len() > 0
        invariant
            r@.len() + v@.len() == orig.len(),
            r@.to_multiset().add(v@.to_multiset()) == orig.to_multiset(),
            forall|i: int, j: int|
                0 <= i < j < r@.len() ==> r@[i].spec_score() <= r@[j].spec_score(),
            forall|i: int| 0 <= i < r@.len() ==> (#[trigger] r@[i].spec_score()) <= usize::MAX,
            forall|i: int| 0 <= i < v@.len() ==> (#[trigger] v@[i].spec_score()) <= usize::MAX,
        decreases v@.len(),
    {
        let ghost v_pre = v@;
        let ghost r_pre = r@;
        let x = v.remove(0);
        proof {
            assert(v_pre.contains(x));
            v_pre.remove_ensures(0);
        }
        let mut j: usize = 0;
        while j < r.len() && r[j].violations() <= x.violations()
            invariant
                j <= r@.len(),
                forall|k: int| 0 <= k < j ==> r@[k].spec_score() <= x.spec_score(),
                r@ == r_pre,
                x.spec_score() <= usize::MAX,
                forall|i: int| 0 <= i < r@.len() ==> (#[trigger] r@[i].spec_score()) <= usize::MAX,
            decreases r@.len() - j,
        {
            j = j + 1;
        }
        let ghost insert_pos = j as int;
        r.insert(j, x);
        proof {
            r_pre.insert_ensures(insert_pos, x);
            assert(r@.remove(insert_pos) =~= r_pre);
            assert(r@[insert_pos] == x);
            assert forall|a: int, b: int| 0 <= a < b < r@.len() implies r@[a].spec_score()
                <= r@[b].spec_score() by {
                if b < insert_pos {
                } else if a > insert_pos {
                    assert(r@[a] == r_pre[a - 1]);
                    assert(r@[b] == r_pre[b - 1]);
                } else if a == insert_pos && b > insert_pos {
                    assert(r@[b] == r_pre[b - 1]);
                    assert(r_pre[insert_pos].spec_score() > x.spec_score());
                    if b - 1 > insert_pos {
                        assert(r_pre[insert_pos].spec_score() <= r_pre[b - 1].spec_score());
                    }
                } else if a < insert_pos && b == insert_pos {
                    assert(r@[a] == r_pre[a]);
                    assert(r_pre[a].spec_score() <= x.spec_score());
                } else if a < insert_pos && b > insert_pos {
                    assert(r@[a] == r_pre[a]);
                    assert(r@[b] == r_pre[b - 1]);
                    if b - 1 == a {
                        assert(r_pre[a].spec_score() <= x.spec_score());
                    }
                }
            }
            vstd::seq_lib::to_multiset_insert::<CandidateSolution>(r_pre, insert_pos, x);
            vstd::seq_lib::to_multiset_remove::<CandidateSolution>(v_pre, 0);
            assert(r_pre.insert(insert_pos, x).to_multiset() == r_pre.to_multiset().insert(x));
            assert(v_pre.remove(0).to_multiset() == v_pre.to_multiset().remove(v_pre[0]));
            v_pre.to_multiset_ensures();
            assert(v_pre.to_multiset().count(x) > 0);
            assert(r@.to_multiset().add(v@.to_multiset()) =~= r_pre.to_multiset().add(
                v_pre.to_multiset(),
            ));
        }
    }
    proof {
        assert(v@.to_multiset() =~= Multiset::<CandidateSolution>::empty());
        assert(r@.to_multiset().add(Multiset::<CandidateSolution>::empty()) =~= r@.to_multiset());
    }
    r
}

/// A property true of every element of a sequence is true of every element
/// of any rearrangement of it.
pub proof fn lemma_permutation_preserves(
    s1: Seq<CandidateSolution>,
    s2: Seq<CandidateSolution>,
    p: spec_fn(CandidateSolution) -> bool,
)
    requires
        s1.to_multiset() == s2.to_multiset(),
        forall|i: int| 0 <= i < s1.len() ==> p(#[trigger] s1[i]),
    ensures
        forall|i: int| 0 <= i < s2.len() ==> p(#[trigger] s2[i]),
{
    broadcast use group_to_multiset_ensures;

    assert forall|i: int| 0 <= i < s2.len() implies p(s2[i]) by {
        assert(s2.contains(s2[i]));
        assert(s1.to_multiset().count(s2[i]) > 0);
        assert(s1.contains(s2[i]));
        let j = choose|j: int| 0 <= j < s1.len() && s1[j] == s2[i];
        assert(p(s1[j]));
    }
}

/// Ascending by score, earlier candidates never scoring above later ones.
pub open spec fn sorted_by_score(s: Seq<CandidateSolution>) -> bool {
    forall|i: int, j: int| 0 <= i < j < s.len() ==> s[i].spec_score() <= s[j].spec_score()
}

/// Swap the occupants of two cells (which may coincide) with two placement
/// calls, re-scoring each moved occupant against the edited grid.
pub fn mutate_at(
    candidate: &mut CandidateSolution,
    first: (usize, usize),
    second: (usize, usize),
    instance: &Instance,
)
    requires
        old(candidate).wf(*instance),
        instance.fits(),
        first.0 < old(candidate).num_timeslots_spec(),
        first.1 < old(candidate).num_rooms_spec(),
        second.0 < old(candidate).num_timeslots_spec(),
        second.1 < old(candidate).num_rooms_spec(),
    ensures
        final(candidate).wf(*instance),
        final(candidate).num_timeslots_spec() == old(candidate).num_timeslots_spec(),
        final(candidate).num_rooms_spec() == old(candidate).num_rooms_spec(),
        final(candidate).event_at(first.0 as int, first.1 as int) == old(candidate).event_at(
            second.0 as int,
            second.1 as int,
        ),
        final(candidate).event_at(second.0 as int, second.1 as int) == old(candidate).event_at(
            first.0 as int,
            first.1 as int,
        ),
        forall|t: int, r: int|
            #![trigger final(candidate).event_at(t, r)]
            0 <= t < old(candidate).num_timeslots_spec() && 0 <= r < old(
                candidate,
            ).num_rooms_spec() && !(t == first.0 && r == first.1) && !(t == second.0 && r
                == second.1) ==> final(candidate).event_at(t, r) == old(candidate).event_at(t, r),
{
    let ghost pre = *candidate;
    let allocation1 = candidate.get_allocation_with_index(first);
    let allocation2 = candidate.get_allocation_with_index(second);
    let event1 = match allocation1 {
        Some(a) => Some(a.event_index()),
        None => None,
    };
    let event2 = match allocation2 {
        Some(a) => Some(a.event_index()),
        None => None,
    };
    candidate.allocate_event(first.0, first.1, event2, instance);
    let ghost mid = *candidate;
    candidate.allocate_event(second.0, second.1, event1, instance);
    proof {
        assert(mid.event_at(first.0 as int, first.1 as int) == pre.event_at(
            second.0 as int,
            second.1 as int,
        ));
        if !(first.0 == second.0 && first.1 == second.1) {
            assert(candidate.cell(first.0 as int, first.1 as int) == mid.cell(
                first.0 as int,
                first.1 as int,
            ));
        }
        assert forall|t: int, r: int|
            #![trigger candidate.event_at(t, r)]
            0 <= t < pre.num_timeslots_spec() && 0 <= r < pre.num_rooms_spec() && !(t == first.0
                && r == first.1) && !(t == second.0 && r == second.1)
                implies candidate.event_at(t, r) == pre.event_at(t, r) by {
            assert(candidate.cell(t, r) == mid.cell(t, r));
            assert(mid.cell(t, r) == pre.cell(t, r));
        }
    }
}

/// Mutation: pick two cells uniformly at random and swap their occupants.
pub fn mutate(candidate: &mut CandidateSolution, rng: &mut RandomSource, instance: &Instance)
    requires
        old(candidate).wf(*instance),
        instance.fits(),
        old(candidate).num_timeslots_spec() >= 1,
        old(candidate).num_rooms_spec() >= 1,
    ensures
        final(candidate).wf(*instance),
        final(candidate).num_timeslots_spec() == old(candidate).num_timeslots_spec(),
        final(candidate).num_rooms_spec() == old(candidate).num_rooms_spec(),
{
    let num_timeslots = candidate.num_timeslots();
    let num_rooms = candidate.num_rooms();
    let first = (rng.next_below(num_timeslots), rng.next_below(num_rooms));
    let second = (rng.next_below(num_timeslots), rng.next_below(num_rooms));
    mutate_at(candidate, first, second, instance);
}

/// Single-cut crossover at a fixed cut point. Child A is parent A with the
/// rectangle below the cut re-placed from parent A itself (a re-validation
/// that keeps A's layout); child B is parent B with the quadrant at or
/// beyond the cut overwritten by parent A's occupants.
pub fn crossover_at(
    a: &CandidateSolution,
    b: &CandidateSolution,
    cut: (usize, usize),
    instance: &Instance,
) -> (children: (CandidateSolution, CandidateSolution))
    requires
        a.wf(*instance),
        b.wf(*instance),
        instance.fits(),
        cut.0 < a.num_timeslots_spec(),
        cut.1 < a.num_rooms_spec(),
    ensures
        children.0.wf(*instance),
        children.1.wf(*instance),
        forall|t: int, r: int|
            #![trigger children.0.event_at(t, r)]
            0 <= t < a.num_timeslots_spec() && 0 <= r < a.num_rooms_spec()
                ==> children.0.event_at(t, r) == a.event_at(t, r),
        forall|t: int, r: int|
            #![trigger children.1.event_at(t, r)]
            0 <= t < a.num_timeslots_spec() && 0 <= r < a.num_rooms_spec()
                ==> children.1.event_at(t, r) == (if t >= cut.0 && r >= cut.1 {
                a.event_at(t, r)
            } else {
                b.event_at(t, r)
            }),
{
    let num_timeslots = instance.num_timeslots();
    let num_rooms = instance.num_rooms();
    let mut child_a = a.clone();
    let mut child_b = b.clone();
    proof {
        lemma_same_projections_same_state(*a, child_a, *instance);
        lemma_same_projections_same_state(*b, child_b, *instance);
    }
    let mut x: usize = 0;
    while x < cut.0
        invariant
            a.wf(*instance),
            instance.fits(),
            cut.0 < a.num_timeslots_spec(),
            cut.1 < a.num_rooms_spec(),
            num_timeslots as int == a.num_timeslots_spec(),
            num_rooms as int == a.num_rooms_spec(),
            x <= cut.0,
            child_a.wf(*instance),
            child_a.num_timeslots_spec() == a.num_timeslots_spec(),
            child_a.num_rooms_spec() == a.num_rooms_spec(),
            forall|t: int, r: int|
                #![trigger child_a.event_at(t, r)]
                0 <= t < a.num_timeslots_spec() && 0 <= r < a.num_rooms_spec()
                    ==> child_a.event_at(t, r) == a.event_at(t, r),
        decreases cut.0 - x,
    {
        let mut y: usize = 0;
        while y < cut.1
            invariant
                a.wf(*instance),
                instance.fits(),
                cut.0 < a.num_timeslots_spec(),
                cut.1 < a.num_rooms_spec(),
                num_timeslots as int == a.num_timeslots_spec(),
                num_rooms as int == a.num_rooms_spec(),
                x < cut.0,
                y <= cut.1,
                child_a.wf(*instance),
                child_a.num_timeslots_spec() == a.num_timeslots_spec(),
                child_a.num_rooms_spec() == a.num_rooms_spec(),
                forall|t: int, r: int|
                    #![trigger child_a.event_at(t, r)]
                    0 <= t < a.num_timeslots_spec() && 0 <= r < a.num_rooms_spec()
                        ==> child_a.event_at(t, r) == a.event_at(t, r),
            decreases cut.1 - y,
        {
            let ghost before = child_a;
            let event_index = match a.get_allocation(x, y) {
                Some(al) => Some(al.event_index()),
                None => None,
            };
            child_a.allocate_event(x, y, event_index, instance);
            proof {
                assert forall|t: int, r: int|
                    #![trigger child_a.event_at(t, r)]
                    0 <= t < a.num_timeslots_spec() && 0 <= r < a.num_rooms_spec()
                        implies child_a.event_at(t, r) == a.event_at(t, r) by {
                    if t == x && r == y {
                        assert(child_a.event_at(t, r) == event_index);
                        assert(event_index == a.event_at(t, r));
                    } else {
                        assert(child_a.cell(t, r) == before.cell(t, r));
                        assert(before.event_at(t, r) == a.event_at(t, r));
                    }
                }
            }
            y = y + 1;
        }
        x = x + 1;
    }
    let mut x: usize = cut.0;
    while x < num_timeslots
        invariant
            a.wf(*instance),
            b.wf(*instance),
            instance.fits(),
            cut.0 < a.num_timeslots_spec(),
            cut.1 < a.num_rooms_spec(),
            num_timeslots as int == a.num_timeslots_spec(),
            num_rooms as int == a.num_rooms_spec(),
            cut.0 <= x <= num_timeslots,
            child_b.wf(*instance),
            child_b.num_timeslots_spec() == a.num_timeslots_spec(),
            child_b.num_rooms_spec() == a.num_rooms_spec(),
            forall|t: int, r: int|
                #![trigger child_b.event_at(t, r)]
                0 <= t < a.num_timeslots_spec() && 0 <= r < a.num_rooms_spec()
                    ==> child_b.event_at(t, r) == (if t >= cut.0 && r >= cut.1 && t < x {
                    a.event_at(t, r)
                } else {
                    b.event_at(t, r)
                }),
        decreases num_timeslots - x,
    {
        let mut y: usize = cut.1;
        while y < num_rooms
            invariant
                a.wf(*instance),
                b.wf(*instance),
                instance.fits(),
                cut.0 < a.num_timeslots_spec(),
                cut.1 < a.num_rooms_spec(),
                num_timeslots as int == a.num_timeslots_spec(),
                num_rooms as int == a.num_rooms_spec(),
                cut.0 <= x < num_timeslots,
                cut.1 <= y <= num_rooms,
                child_b.wf(*instance),
                child_b.num_timeslots_spec() == a.num_timeslots_spec(),
                child_b.num_rooms_spec() == a.num_rooms_spec(),
                forall|t: int, r: int|
                    #![trigger child_b.event_at(t, r)]
                    0 <= t < a.num_timeslots_spec() && 0 <= r < a.num_rooms_spec()
                        ==> child_b.event_at(t, r) == (if t >= cut.0 && r >= cut.1 && (t < x || (t
                        == x && r < y)) {
                        a.event_at(t, r)
                    } else {
                        b.event_at(t, r)
                    }),
            decreases num_rooms - y,
        {
            let ghost before = child_b;
            let event_index = match a.get_allocation(x, y) {
                Some(al) => Some(al.event_index()),
                None => None,
            };
            child_b.allocate_event(x, y, event_index, instance);
            proof {
                assert forall|t: int, r: int|
                    #![trigger child_b.event_at(t, r)]
                    0 <= t < a.num_timeslots_spec() && 0 <= r < a.num_rooms_spec()
                        implies child_b.event_at(t, r) == (if t >= cut.0 && r >= cut.1 && (t < x
                        || (t == x && r < y + 1)) {
                        a.event_at(t, r)
                    } else {
                        b.event_at(t, r)
                    }) by {
                    if t == x && r == y {
                        assert(child_b.event_at(t, r) == event_index);
                        assert(event_index == a.event_at(t, r));
                    } else {
                        assert(child_b.cell(t, r) == before.cell(t, r));
                        assert(before.event_at(t, r) == (if t >= cut.0 && r >= cut.1 && (t < x
                            || (t == x && r < y)) {
                            a.event_at(t, r)
                        } else {
                            b.event_at(t, r)
                        }));
                    }
                }
            }
            y = y + 1;
        }
        x = x + 1;
    }
    (child_a, child_b)
}

/// Crossover: pick the cut point uniformly at random, then cross at it.
pub fn crossover(
    a: &CandidateSolution,
    b: &CandidateSolution,
    rng: &mut RandomSource,
    instance: &Instance,
) -> (children: (CandidateSolution, CandidateSolution))
    requires
        a.wf(*instance),
        b.wf(*instance),
        instance.fits(),
        a.num_timeslots_spec() >= 1,
        a.num_rooms_spec() >= 1,
    ensures
        children.0.wf(*instance),
        children.1.wf(*instance),
{
    let num_timeslots = a.num_timeslots();
    let num_rooms = a.num_rooms();
    let cut = (rng.next_below(num_timeslots), rng.next_below(num_rooms));
    crossover_at(a, b, cut, instance)
}

fn copy_usize_vec(v: &Vec<usize>) -> (r: Vec<usize>)
    ensures
        r@ == v@,
{
    let mut r: Vec<usize> = Vec::new();
    let mut i: usize = 0;
    while i < v.len()
        invariant
            i <= v@.len(),
            r@.len() == i,
            forall|j: int| 0 <= j < i ==> r@[j] == v@[j],
        decreases v@.len() - i,
    {
        r.push(v[i]);
        i = i + 1;
    }
    proof {
        assert(r@ =~= v@);
    }
    r
}


/// No event index occurs twice in the sequence.
pub open spec fn distinct_indices(s: Seq<usize>) -> bool {
    forall|i: int, j: int| 0 <= i < s.len() && 0 <= j < s.len() && i != j ==> s[i] != s[j]
}

/// The event `e` sits in no cell of the candidate's grid.
pub open spec fn event_unplaced(c: CandidateSolution, e: usize) -> bool {
    forall|t: int, r: int|
        0 <= t < c.num_timeslots_spec() && 0 <= r < c.num_rooms_spec()
            ==> #[trigger] c.event_at(t, r) != Some(e)
}

/// Every placed event that declares a non-empty valid-room set sits in a
/// room from that set: the initializer relaxes only the timeslot filter,
/// never the room filter.
pub open spec fn rooms_respected(c: CandidateSolution, instance: Instance) -> bool {
    forall|t: int, r: int|
        0 <= t < c.num_timeslots_spec() && 0 <= r < c.num_rooms_spec()
            && #[trigger] c.event_at(t, r) is Some && instance.events@[
            c.event_at(t, r)->0 as int
        ].valid_rooms@.len() > 0 ==> instance.events@[
            c.event_at(t, r)->0 as int
        ].valid_rooms@.contains(r as usize)
}

/// No two cells of the candidate's grid hold the same event.
pub open spec fn distinct_events(c: CandidateSolution) -> bool {
    forall|t1: int, r1: int, t2: int, r2: int|
        0 <= t1 < c.num_timeslots_spec() && 0 <= r1 < c.num_rooms_spec() && 0 <= t2
            < c.num_timeslots_spec() && 0 <= r2 < c.num_rooms_spec() && !(t1 == t2 && r1 == r2)
            && #[trigger] c.event_at(t1, r1) is Some ==> c.event_at(t1, r1) != #[trigger] c.event_at(
            t2,
            r2,
        )
}

/// What the constructive initializer guarantees of each of its candidates,
/// whatever the random draws: a well-formed timetable that holds each event
/// at most once, keeps every room-restricted event inside its declared
/// rooms, caches no count above the grid's fresh evaluation (it fills
/// empty cells only, and same-timeslot match counts only grow), and places
/// at least one event whenever the instance has any (the first event
/// consumed always finds an empty cell in a fresh grid).
pub open spec fn initial_population_post(
    candidates: Seq<CandidateSolution>,
    instance: Instance,
    n: int,
) -> bool {
    &&& candidates.len() == n
    &&& forall|i: int| 0 <= i < n ==> (#[trigger] candidates[i]).wf(instance)
    &&& forall|i: int| 0 <= i < n ==> distinct_events(#[trigger] candidates[i])
    &&& forall|i: int| 0 <= i < n ==> rooms_respected(#[trigger] candidates[i], instance)
    &&& forall|i: int| 0 <= i < n ==> caches_conservative(#[trigger] candidates[i], instance)
    &&& instance.events@.len() >= 1 ==> forall|i: int|
        0 <= i < n ==> (#[trigger] candidates[i]).occupied_count() >= 1
}

/// Build `n` candidates by the constructive heuristic: consume the events
/// in a uniformly random order; for each event try non-banned,
/// teacher-free timeslots (falling back to every timeslot when none
/// remain) in random order, and the event's valid rooms (or every room)
/// in random order, placing it in the first empty cell found; an event
/// with no empty cell available stays unallocated.
pub fn generate_n_random_candidates(
    n: usize,
    instance: &Instance,
    rng: &mut RandomSource,
) -> (candidates: Vec<CandidateSolution>)
    requires
        instance.wf(),
        instance.fits(),
        instance.timeslots@.len() >= 1,
        instance.rooms@.len() >= 1,
    ensures
        initial_population_post(candidates@, *instance, n as int),
{
    let num_timeslots = instance.num_timeslots();
    let num_rooms = instance.num_rooms();
    let num_events = instance.num_events();
    let mut candidates: Vec<CandidateSolution> = Vec::new();
    let mut built: usize = 0;
    while built < n
        invariant
            instance.wf(),
            instance.fits(),
            instance.timeslots@.len() >= 1,
            instance.rooms@.len() >= 1,
            num_timeslots as int == instance.timeslots@.len(),
            num_rooms as int == instance.rooms@.len(),
            num_events as int == instance.events@.len(),
            built <= n,
            candidates@.len() == built,
            forall|i: int| 0 <= i < built ==> (#[trigger] candidates@[i]).wf(*instance),
            forall|i: int| 0 <= i < built ==> distinct_events(#[trigger] candidates@[i]),
            forall|i: int|
                0 <= i < built ==> rooms_respected(#[trigger] candidates@[i], *instance),
            forall|i: int|
                0 <= i < built ==> caches_conservative(#[trigger] candidates@[i], *instance),
            instance.events@.len() >= 1 ==> forall|i: int|
                0 <= i < built ==> (#[trigger] candidates@[i]).occupied_count() >= 1,
        decreases n - built,
    {
        let mut candidate = CandidateSolution::new(instance);
        proof {
            assert forall|t: int, r: int|
                #![trigger candidate.event_at(t, r)]
                0 <= t < candidate.num_timeslots_spec() && 0 <= r < candidate.num_rooms_spec()
                    implies candidate.event_at(t, r) is None by {
                assert(candidate.cell(t, r) is None);
            }
            assert forall|t: int, r: int|
                0 <= t < candidate.num_timeslots_spec() && 0 <= r < candidate.num_rooms_spec()
                    implies cache_of(#[trigger] candidate.cell(t, r)) <= cell_violations(
                    candidate.event_grid(),
                    candidate.num_timeslots_spec(),
                    *instance,
                    t,
                    r,
                ) by {
                assert(candidate.cell(t, r) is None);
                lemma_slot_event_is_cell(candidate, t, r);
            }
        }
        let mut events_indices = crate::util::vec_from_range(0..num_events);
        while events_indices.len() > 0
            invariant
                instance.wf(),
                instance.fits(),
                instance.timeslots@.len() >= 1,
                instance.rooms@.len() >= 1,
                num_timeslots as int == instance.timeslots@.len(),
                num_rooms as int == instance.rooms@.len(),
                num_events as int == instance.events@.len(),
                candidate.wf(*instance),
                candidate.num_timeslots_spec() == instance.timeslots@.len(),
                candidate.num_rooms_spec() == instance.rooms@.len(),
                forall|j: int|
                    0 <= j < events_indices@.len() ==> (#[trigger] events_indices@[j])
                        < num_events,
                distinct_indices(events_indices@),
                forall|j: int|
                    0 <= j < events_indices@.len() ==> event_unplaced(
                        candidate,
                        #[trigger] events_indices@[j],
                    ),
                distinct_events(candidate),
                rooms_respected(candidate, *instance),
                caches_conservative(candidate, *instance),
                events_indices@.len() < num_events ==> candidate.occupied_count() >= 1,
            decreases events_indices@.len(),
        {
            let ghost before_events = events_indices@;
            let pick = rng.next_below(events_indices.len());
            let event_index = events_indices.remove(pick);
            proof {
                before_events.remove_ensures(pick as int);
                assert(event_unplaced(candidate, event_index));
                assert forall|j1: int, j2: int|
                    0 <= j1 < events_indices@.len() && 0 <= j2 < events_indices@.len() && j1 != j2
                        implies events_indices@[j1] != events_indices@[j2] by {
                    if j1 < pick {
                        assert(events_indices@[j1] == before_events[j1]);
                    } else {
                        assert(events_indices@[j1] == before_events[j1 + 1]);
                    }
                    if j2 < pick {
                        assert(events_indices@[j2] == before_events[j2]);
                    } else {
                        assert(events_indices@[j2] == before_events[j2 + 1]);
                    }
                }
                assert forall|j: int| 0 <= j < events_indices@.len()
                    implies events_indices@[j] != event_index by {
                    if j < pick {
                        assert(events_indices@[j] == before_events[j]);
                    } else {
                        assert(events_indices@[j] == before_events[j + 1]);
                    }
                }
            }
            let event = &instance.events[event_index];
            let ghost start_candidate = candidate;
            let ghost was_empty = start_candidate.occupied_count() == 0;
            let ghost restricted = instance.events@[event_index as int].valid_rooms@.len() > 0;

            let mut valid_timeslots: Vec<usize> = Vec::new();
            let mut ts: usize = 0;
            while ts < num_timeslots
                invariant
                    instance.wf(),
                    num_timeslots as int == instance.timeslots@.len(),
                    num_rooms as int == instance.rooms@.len(),
                    candidate.grid_wf(*instance),
                    ts <= num_timeslots,
                    forall|j: int|
                        0 <= j < valid_timeslots@.len() ==> (#[trigger] valid_timeslots@[j])
                            < num_timeslots,
                decreases num_timeslots - ts,
            {
                let slot = instance.timeslots[ts];
                if !vec_contains_timeslot(&event.banned_timeslots, &slot) {
                    if count_teacher_matches(&candidate, ts, event, instance) == 0 {
                        valid_timeslots.push(ts);
                    }
                }
                ts = ts + 1;
            }
            if valid_timeslots.len() == 0 {
                valid_timeslots = crate::util::vec_from_range(0..num_timeslots);
            }
            proof {
                assert(valid_timeslots@.len() > 0);
            }

            let valid_rooms: Vec<usize> = if event.valid_rooms.len() > 0 {
                let r = copy_usize_vec(&event.valid_rooms);
                proof {
                    assert forall|j: int| 0 <= j < r@.len() implies (#[trigger] r@[j])
                        < num_rooms by {
                        assert(instance.events@[event_index as int].valid_rooms@[j]
                            < instance.rooms@.len());
                    }
                    assert forall|j: int| 0 <= j < r@.len()
                        implies instance.events@[event_index as int].valid_rooms@.contains(
                        #[trigger] r@[j],
                    ) by {
                        assert(instance.events@[event_index as int].valid_rooms@[j] == r@[j]);
                    }
                }
                r
            } else {
                crate::util::vec_from_range(0..num_rooms)
            };
            proof {
                assert(valid_rooms@.len() > 0);
            }

            let mut placed = false;
            while !placed && valid_timeslots.len() > 0
                invariant
                    instance.wf(),
                    instance.fits(),
                    num_timeslots as int == instance.timeslots@.len(),
                    num_rooms as int == instance.rooms@.len(),
                    num_events as int == instance.events@.len(),
                    event_index < num_events,
                    candidate.wf(*instance),
                    candidate.num_timeslots_spec() == instance.timeslots@.len(),
                    candidate.num_rooms_spec() == instance.rooms@.len(),
                    forall|j: int|
                        0 <= j < valid_timeslots@.len() ==> (#[trigger] valid_timeslots@[j])
                            < num_timeslots,
                    forall|j: int|
                        0 <= j < valid_rooms@.len() ==> (#[trigger] valid_rooms@[j]) < num_rooms,
                    distinct_indices(events_indices@),
                    forall|j: int|
                        0 <= j < events_indices@.len() ==> event_unplaced(
                            candidate,
                            #[trigger] events_indices@[j],
                        ),
                    distinct_events(candidate),
                    rooms_respected(candidate, *instance),
                    caches_conservative(candidate, *instance),
                    !placed ==> event_unplaced(candidate, event_index),
                    forall|j: int| 0 <= j < events_indices@.len()
                        ==> (#[trigger] events_indices@[j]) != event_index,
                    !placed ==> candidate == start_candidate,
                    placed ==> candidate.occupied_count() >= 1,
                    was_empty == (start_candidate.occupied_count() == 0),
                    was_empty ==> (placed || valid_timeslots@.len() > 0),
                    restricted == (instance.events@[event_index as int].valid_rooms@.len() > 0),
                    valid_rooms@.len() > 0,
                    restricted ==> forall|j: int|
                        0 <= j < valid_rooms@.len() ==> instance.events@[
                            event_index as int
                        ].valid_rooms@.contains(#[trigger] valid_rooms@[j]),
                decreases valid_timeslots@.len(),
            {
                let ghost before_slots = valid_timeslots@;
                let tpick = rng.next_below(valid_timeslots.len());
                let timeslot_index = valid_timeslots.remove(tpick);
                proof {
                    before_slots.remove_ensures(tpick as int);
                }
                let mut rooms = copy_usize_vec(&valid_rooms);
                let ghost entry_rooms_len = rooms@.len();
                while !placed && rooms.len() > 0
                    invariant
                        instance.wf(),
                        instance.fits(),
                        num_timeslots as int == instance.timeslots@.len(),
                        num_rooms as int == instance.rooms@.len(),
                        num_events as int == instance.events@.len(),
                        event_index < num_events,
                        timeslot_index < num_timeslots,
                        candidate.wf(*instance),
                        candidate.num_timeslots_spec() == instance.timeslots@.len(),
                        candidate.num_rooms_spec() == instance.rooms@.len(),
                        forall|j: int|
                            0 <= j < rooms@.len() ==> (#[trigger] rooms@[j]) < num_rooms,
                        distinct_indices(events_indices@),
                        forall|j: int|
                            0 <= j < events_indices@.len() ==> event_unplaced(
                                candidate,
                                #[trigger] events_indices@[j],
                            ),
                        distinct_events(candidate),
                        rooms_respected(candidate, *instance),
                        caches_conservative(candidate, *instance),
                        !placed ==> event_unplaced(candidate, event_index),
                        forall|j: int| 0 <= j < events_indices@.len()
                            ==> (#[trigger] events_indices@[j]) != event_index,
                        !placed ==> candidate == start_candidate,
                        placed ==> candidate.occupied_count() >= 1,
                        was_empty == (start_candidate.occupied_count() == 0),
                        entry_rooms_len >= 1,
                        was_empty ==> (placed || rooms@.len() == entry_rooms_len),
                        restricted == (instance.events@[
                            event_index as int
                        ].valid_rooms@.len() > 0),
                        restricted ==> forall|j: int|
                            0 <= j < rooms@.len() ==> instance.events@[
                                event_index as int
                            ].valid_rooms@.contains(#[trigger] rooms@[j]),
                    decreases rooms@.len(),
                {
                    let ghost before_rooms = rooms@;
                    let rpick = rng.next_below(rooms.len());
                    let room_index = rooms.remove(rpick);
                    proof {
                        before_rooms.remove_ensures(rpick as int);
                        if restricted {
                            assert forall|j: int| 0 <= j < rooms@.len()
                                implies instance.events@[
                                event_index as int
                            ].valid_rooms@.contains(#[trigger] rooms@[j]) by {
                                if j < rpick {
                                    assert(rooms@[j] == before_rooms[j]);
                                } else {
                                    assert(rooms@[j] == before_rooms[j + 1]);
                                }
                            }
                        }
                        if was_empty {
                            crate::candidate::lemma_counts_ge_cell(
                                candidate,
                                timeslot_index as int,
                                room_index as int,
                            );
                        }
                    }
                    if candidate.get_allocation(timeslot_index, room_index).is_none() {
                        let ghost before_place = candidate;
                        candidate.allocate_event(
                            timeslot_index,
                            room_index,
                            Some(event_index),
                            instance,
                        );
                        placed = true;
                        proof {
                            let ti = timeslot_index as int;
                            let ri = room_index as int;
                            assert(candidate.event_at(ti, ri) == Some(event_index));
                            assert forall|t: int, r: int|
                                #![trigger candidate.event_at(t, r)]
                                0 <= t < candidate.num_timeslots_spec() && 0 <= r
                                    < candidate.num_rooms_spec() && !(t == ti && r == ri)
                                    implies candidate.event_at(t, r) == before_place.event_at(
                                    t,
                                    r,
                                ) by {
                                assert(candidate.cell(t, r) == before_place.cell(t, r));
                            }
                            assert forall|t1: int, r1: int, t2: int, r2: int|
                                0 <= t1 < candidate.num_timeslots_spec() && 0 <= r1
                                    < candidate.num_rooms_spec() && 0 <= t2
                                    < candidate.num_timeslots_spec() && 0 <= r2
                                    < candidate.num_rooms_spec() && !(t1 == t2 && r1 == r2) && (
                                #[trigger] candidate.event_at(t1, r1)) is Some
                                    implies candidate.event_at(t1, r1)
                                    != #[trigger] candidate.event_at(t2, r2) by {
                                if t1 == ti && r1 == ri {
                                    assert(before_place.event_at(t2, r2) != Some(event_index));
                                } else if t2 == ti && r2 == ri {
                                    assert(before_place.event_at(t1, r1) != Some(event_index));
                                }
                            }
                            assert forall|j: int| 0 <= j < events_indices@.len()
                                implies event_unplaced(
                                    candidate,
                                    #[trigger] events_indices@[j],
                                ) by {
                                assert(event_unplaced(before_place, events_indices@[j]));
                                assert forall|t: int, r: int|
                                    0 <= t < candidate.num_timeslots_spec() && 0 <= r
                                        < candidate.num_rooms_spec()
                                        implies #[trigger] candidate.event_at(t, r) != Some(
                                        events_indices@[j],
                                    ) by {
                                    if !(t == ti && r == ri) {
                                        assert(candidate.event_at(t, r)
                                            == before_place.event_at(t, r));
                                    }
                                }
                            }
                            if restricted {
                                assert(instance.events@[
                                    event_index as int
                                ].valid_rooms@.contains(before_rooms[rpick as int]));
                            }
                            assert forall|t: int, r: int|
                                #![trigger candidate.event_at(t, r)]
                                0 <= t < candidate.num_timeslots_spec() && 0 <= r
                                    < candidate.num_rooms_spec() && candidate.event_at(
                                    t,
                                    r,
                                ) is Some && instance.events@[
                                    candidate.event_at(t, r)->0 as int
                                ].valid_rooms@.len() > 0
                                    implies instance.events@[
                                    candidate.event_at(t, r)->0 as int
                                ].valid_rooms@.contains(r as usize) by {
                                if !(t == ti && r == ri) {
                                    assert(candidate.event_at(t, r)
                                        == before_place.event_at(t, r));
                                }
                            }
                            crate::candidate::lemma_counts_ge_cell(candidate, ti, ri);
                            let ghost width = candidate.num_timeslots_spec();
                            assert forall|t: int, r: int|
                                0 <= t < candidate.num_timeslots_spec() && 0 <= r
                                    < candidate.num_rooms_spec()
                                    implies cache_of(#[trigger] candidate.cell(t, r))
                                    <= cell_violations(
                                    candidate.event_grid(),
                                    width,
                                    *instance,
                                    t,
                                    r,
                                ) by {
                                if !(t == ti && r == ri) {
                                    assert(candidate.cell(t, r) == before_place.cell(t, r));
                                    lemma_slot_event_is_cell(before_place, t, r);
                                    lemma_slot_event_is_cell(candidate, t, r);
                                    if candidate.cell(t, r) is Some {
                                        assert forall|r2: int|
                                            0 <= r2 < instance.rooms@.len() && (
                                            #[trigger] slot_event(
                                                before_place.event_grid(),
                                                width,
                                                t,
                                                r2,
                                            )) is Some implies slot_event(
                                            candidate.event_grid(),
                                            width,
                                            t,
                                            r2,
                                        ) == slot_event(
                                            before_place.event_grid(),
                                            width,
                                            t,
                                            r2,
                                        ) by {
                                            lemma_slot_event_is_cell(before_place, t, r2);
                                            lemma_slot_event_is_cell(candidate, t, r2);
                                            if !(t == ti && r2 == ri) {
                                                assert(candidate.cell(t, r2)
                                                    == before_place.cell(t, r2));
                                            }
                                        }
                                        lemma_cell_violations_monotone(
                                            before_place.event_grid(),
                                            candidate.event_grid(),
                                            width,
                                            *instance,
                                            t,
                                            r,
                                        );
                                    }
                                }
                            }
                        }
                    }
                }
                proof {
                    if was_empty && !placed {
                        assert(false);
                    }
                }
            }
            proof {
                if was_empty && !placed {
                    assert(false);
                }
                if !placed {
                    crate::candidate::lemma_grid_counts_bounds(
                        start_candidate,
                        start_candidate.num_timeslots_spec(),
                    );
                }
                assert(candidate.occupied_count() >= 1);
            }
        }
        candidates.push(candidate);
        built = built + 1;
    }
    candidates
}

/// A ranked population holding exactly the candidates of one that contains
/// a perfect (zero-score) candidate leads with score zero.
pub proof fn lemma_perfect_front(source: Seq<CandidateSolution>, ranked: Seq<CandidateSolution>)
    requires
        source.to_multiset() == ranked.to_multiset(),
        exists|i: int| 0 <= i < source.len() && #[trigger] source[i].spec_score() == 0,
        sorted_by_score(ranked),
    ensures
        ranked.len() > 0,
        ranked[0].spec_score() == 0,
{
    broadcast use group_to_multiset_ensures;

    source.to_multiset_ensures();
    ranked.to_multiset_ensures();
    let i = choose|i: int| 0 <= i < source.len() && #[trigger] source[i].spec_score() == 0;
    assert(source.contains(source[i]));
    assert(ranked.to_multiset().count(source[i]) > 0);
    assert(ranked.contains(source[i]));
    let j = choose|j: int| 0 <= j < ranked.len() && ranked[j] == source[i];
    if j > 0 {
        assert(ranked[0].spec_score() <= ranked[j].spec_score());
    }
}

impl GeneticStrategy {
    /// Run the evolutionary search: build and rank an initial population,
    /// then, while generations remain and no perfect candidate has
    /// appeared, carry the elite over, fill the next generation with
    /// tournament-selected, crossed and occasionally mutated children, and
    /// rank it. Returns the whole final population, ascending by score.
    pub fn allocate(&mut self, instance: &Instance) -> (result: Vec<CandidateSolution>)
        requires
            old(self).config_wf(),
            instance.wf(),
            instance.fits(),
            instance.timeslots@.len() >= 1,
            instance.rooms@.len() >= 1,
        ensures
            result@.len() == old(self).candidates_size || result@.len() == old(
                self,
            ).candidates_size + 1,
            (old(self).candidates_size - old(self).elite_number) % 2 == 0 ==> result@.len() == old(
                self,
            ).candidates_size,
            sorted_by_score(result@),
            forall|i: int| 0 <= i < result@.len() ==> (#[trigger] result@[i]).wf(*instance),
            exists|initial: Seq<CandidateSolution>|
                #[trigger] initial_population_post(
                    initial,
                    *instance,
                    old(self).candidates_size as int,
                ) && ((exists|i: int|
                    0 <= i < initial.len() && #[trigger] initial[i].spec_score() == 0)
                    ==> result@.to_multiset() == initial.to_multiset()),
    {
        let population_size = self.candidates_size;
        let tournament_size = self.tournament_size;
        let elite_number = self.elite_number;
        let mutation_weight = self.mutation_weight;
        let raw = generate_n_random_candidates(population_size, instance, &mut self.rng);
        let ghost raw_view = raw@;
        proof {
            assert forall|i: int| 0 <= i < raw@.len() implies (#[trigger] raw@[i].spec_score())
                <= usize::MAX by {
                lemma_wf_score_fits(raw@[i], *instance);
            }
        }
        let mut candidates = sort_by_score(raw);
        let ghost has_perfect = exists|i: int|
            0 <= i < raw_view.len() && #[trigger] raw_view[i].spec_score() == 0;
        proof {
            lemma_permutation_preserves(
                raw_view,
                candidates@,
                |c: CandidateSolution| c.wf(*instance),
            );
        }
        while self.generations > 0
            invariant
                instance.wf(),
                instance.fits(),
                instance.timeslots@.len() >= 1,
                instance.rooms@.len() >= 1,
                population_size >= 1,
                tournament_size >= 1,
                tournament_size <= population_size,
                elite_number < population_size,
                mutation_weight >= 1,
                candidates@.len() == population_size || candidates@.len() == population_size + 1,
                (population_size - elite_number) % 2 == 0 ==> candidates@.len()
                    == population_size,
                sorted_by_score(candidates@),
                forall|i: int|
                    0 <= i < candidates@.len() ==> (#[trigger] candidates@[i]).wf(*instance),
                initial_population_post(raw_view, *instance, population_size as int),
                has_perfect == (exists|i: int|
                    0 <= i < raw_view.len() && #[trigger] raw_view[i].spec_score() == 0),
                has_perfect ==> candidates@.to_multiset() == raw_view.to_multiset(),
            decreases self.generations,
        {
            proof {
                assert forall|i: int| 0 <= i < candidates@.len() implies (
                #[trigger] candidates@[i].spec_score()) <= usize::MAX by {
                    lemma_wf_score_fits(candidates@[i], *instance);
                }
            }
            proof {
                if has_perfect {
                    lemma_perfect_front(raw_view, candidates@);
                }
            }
            if candidates[0].violations() == 0 {
                break;
            }
            let ghost generations_at_entry = self.generations;
            let mut children: Vec<CandidateSolution> = Vec::new();
            elitism_selection(&candidates, &mut children, elite_number);
            proof {
                assert forall|i: int| 0 <= i < children@.len() implies (
                #[trigger] children@[i]).wf(*instance) by {
                    lemma_same_projections_same_state(children@[i], candidates@[i], *instance);
                }
            }
            while children.len() < population_size
                invariant
                    instance.wf(),
                    instance.fits(),
                    instance.timeslots@.len() >= 1,
                    instance.rooms@.len() >= 1,
                    population_size >= 1,
                    tournament_size >= 1,
                    tournament_size <= population_size,
                    elite_number < population_size,
                    mutation_weight >= 1,
                    candidates@.len() == population_size || candidates@.len() == population_size
                        + 1,
                    forall|i: int|
                        0 <= i < candidates@.len() ==> (#[trigger] candidates@[i]).wf(*instance),
                    children@.len() <= population_size + 1,
                    (children@.len() - elite_number) % 2 == 0,
                    elite_number <= children@.len(),
                    forall|i: int|
                        0 <= i < children@.len() ==> (#[trigger] children@[i]).wf(*instance),
                    self.generations == generations_at_entry,
                    self.generations >= 1,
                decreases population_size + 1 - children.len(),
            {
                proof {
                    assert forall|i: int| 0 <= i < candidates@.len() implies (
                    #[trigger] candidates@[i].spec_score()) <= usize::MAX by {
                        lemma_wf_score_fits(candidates@[i], *instance);
                    }
                }
                let parent1 = tournament_selection(tournament_size, &candidates, &mut self.rng);
                let parent2 = tournament_selection(tournament_size, &candidates, &mut self.rng);
                let (mut child1, mut child2) = crossover(
                    &candidates[parent1],
                    &candidates[parent2],
                    &mut self.rng,
                    instance,
                );
                if self.rng.one_in(mutation_weight) {
                    mutate(&mut child1, &mut self.rng, instance);
                }
                if self.rng.one_in(mutation_weight) {
                    mutate(&mut child2, &mut self.rng, instance);
                }
                children.push(child1);
                children.push(child2);
            }
            proof {
                assert forall|i: int| 0 <= i < children@.len() implies (
                #[trigger] children@[i].spec_score()) <= usize::MAX by {
                    lemma_wf_score_fits(children@[i], *instance);
                }
            }
            let ghost children_view = children@;
            let next = sort_by_score(children);
            proof {
                lemma_permutation_preserves(
                    children_view,
                    next@,
                    |c: CandidateSolution| c.wf(*instance),
                );
            }
            candidates = next;
            self.generations = self.generations - 1;
        }
        proof {
            assert(initial_population_post(
                raw_view,
                *instance,
                old(self).candidates_size as int,
            ));
        }
        candidates
    }
}

impl AllocationStrategy for GeneticStrategy {
    open spec fn strategy_ready(&self, instance: Instance) -> bool {
        &&& self.config_wf()
        &&& instance.wf()
        &&& instance.fits()
        &&& instance.timeslots@.len() >= 1
        &&& instance.rooms@.len() >= 1
    }

    fn allocate(&mut self, instance: &Instance) -> (result: Vec<CandidateSolution>) {
        GeneticStrategy::allocate(self, instance)
    }
}

} // verus!

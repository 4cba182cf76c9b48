//! Ways of solving an instance, and the exhaustive one.

use crate::base::instance::{Instance, InstanceView};
use crate::base::solution::Solution;
use crate::exploration::{
    is_whole_exploration, lemma_rank_below_limit, lemma_rank_none_taken, lemma_rank_one_to_one,
    rank, Exploration,
};
use vstd::arithmetic::power2::pow2;
use vstd::prelude::*;

verus! {

/// `best` is admitted by `instance`, and no admitted selection is worth more.
pub open spec fn is_optimal(instance: InstanceView, best: Seq<bool>) -> bool {
    &&& instance.admits(best)
    &&& forall|flags: Seq<bool>| #[trigger]
        instance.admits(flags) ==> instance.value_of(flags) <= instance.value_of(best)
}

/// No admitted selection that is worth as much as `best` comes before it in the order of
/// exploration.
pub open spec fn is_first_of_its_value(instance: InstanceView, best: Seq<bool>) -> bool {
    forall|flags: Seq<bool>| #[trigger]
        instance.admits(flags) && instance.value_of(flags) == instance.value_of(best) ==> rank(
            best,
        ) <= rank(flags)
}

/// Of the admitted selections that come before rank `limit`, none is worth more than
/// `best`, and none that is worth as much comes before `best`.
spec fn is_best_before(instance: InstanceView, best: Seq<bool>, limit: nat) -> bool {
    forall|flags: Seq<bool>| #[trigger]
        instance.admits(flags) && rank(flags) < limit ==> {
            &&& instance.value_of(flags) <= instance.value_of(best)
            &&& instance.value_of(flags) == instance.value_of(best) ==> rank(best) <= rank(flags)
        }
}

/// A way of finding a selection for an instance.
pub trait Approach {
    /// A selection that `instance` admits.
    fn apply_to(&self, instance: &Instance) -> (solution: Solution)
        ensures
            instance@.admits(solution@),
    ;
}

/// What an exhaustive search found.
pub struct Outcome {
    /// The best selection.
    pub solution: Solution,
    /// What the best selection is worth.
    pub cost: u128,
    /// How many selections were evaluated, or `None` where a `u64` cannot hold the count.
    pub evaluations: Option<u64>,
    /// The selections that were evaluated, in the order of their evaluation.
    pub evaluated: Ghost<Seq<Seq<bool>>>,
}

/// Exhaustive search: every selection is evaluated once, in the order of exploration,
/// and a selection replaces the best one so far only if it is worth strictly more.
pub struct BruteForce;

impl BruteForce {
    /// Searches all selections for `instance`.
    ///
    /// The selection found is the most valuable one that `instance` admits; among several
    /// of that value, the one that the exploration presents first.  The selections are
    /// evaluated in the order of exploration, each of the `2^n` selections of the `n` items
    /// once, so the count of evaluations is `2^n`.  Values are summed without a limit, so
    /// the search works on every instance.
    pub fn explore(&self, instance: &Instance) -> (outcome: Outcome)
        ensures
            is_optimal(instance@, outcome.solution@),
            is_first_of_its_value(instance@, outcome.solution@),
            outcome.cost == instance@.value_of(outcome.solution@),
            is_whole_exploration(outcome.evaluated@, instance@.items.len()),
            match outcome.evaluations {
                Some(count) => count == pow2(instance@.items.len()),
                None => pow2(instance@.items.len()) > u64::MAX,
            },
    {
        let item_count = instance.get_item_count();

        let mut best_cost: u128 = 0;
        let mut best_solution = Solution::empty(item_count);
        let mut evaluations: Option<u64> = Some(0);
        let mut exploration = Exploration::begin(item_count);
        let ghost mut evaluated: Seq<Seq<bool>> = Seq::empty();

        proof {
            instance@.lemma_nothing_taken(best_solution@, item_count as nat);
            lemma_rank_none_taken(best_solution@, item_count as nat);
        }

        loop
            invariant_except_break
                is_best_before(instance@, best_solution@, rank(exploration@)),
                match evaluations {
                    Some(count) => count == rank(exploration@),
                    None => rank(exploration@) > u64::MAX,
                },
                evaluated.len() == rank(exploration@),
            invariant
                forall|step: int|
                    0 <= step < evaluated.len() ==> (#[trigger] evaluated[step]).len()
                        == item_count && rank(evaluated[step]) == step,
                item_count == instance@.items.len(),
                exploration.well_formed(),
                exploration@.len() == item_count,
                instance@.admits(best_solution@),
                best_cost == instance@.value_of(best_solution@),
                rank(best_solution@) <= rank(exploration@),
            ensures
                is_best_before(instance@, best_solution@, pow2(item_count as nat)),
                evaluated.len() == pow2(item_count as nat),
                match evaluations {
                    Some(count) => count == pow2(item_count as nat),
                    None => pow2(item_count as nat) > u64::MAX,
                },
            decreases pow2(item_count as nat) - rank(exploration@),
        {
            let ghost current = exploration@;

            if let Some(cost) = instance.evaluate_in_full(exploration.get_solution()) {
                if best_cost < cost {
                    best_cost = cost;
                    best_solution = exploration.get_solution().clone();
                }
            }
            evaluations =
            match evaluations {
                Some(count) => count.checked_add(1),
                None => None,
            };
            proof {
                evaluated = evaluated.push(current);
            }

            assert(is_best_before(instance@, best_solution@, rank(current) + 1)) by {
                assert forall|flags: Seq<bool>| #[trigger]
                    instance@.admits(flags) && rank(flags) < rank(current) + 1 implies {
                    &&& instance@.value_of(flags) <= instance@.value_of(best_solution@)
                    &&& instance@.value_of(flags) == instance@.value_of(best_solution@) ==> rank(
                        best_solution@,
                    ) <= rank(flags)
                } by {
                    if rank(flags) == rank(current) {
                        lemma_rank_one_to_one(flags, current);
                    }
                }
            }
            proof {
                lemma_rank_below_limit(current);
            }
            if !exploration.advance() {
                break ;
            }
        }

        proof {
            assert forall|flags: Seq<bool>| #[trigger] instance@.admits(flags) implies rank(flags)
                < pow2(item_count as nat) by {
                lemma_rank_below_limit(flags);
            }
        }
        Outcome {
            solution: best_solution,
            cost: best_cost,
            evaluations,
            evaluated: Ghost(evaluated),
        }
    }
}

impl Approach for BruteForce {
    /// The most valuable selection that `instance` admits; among several of that value,
    /// the one that the exploration presents first.
    fn apply_to(&self, instance: &Instance) -> (solution: Solution)
        ensures
            is_optimal(instance@, solution@),
            is_first_of_its_value(instance@, solution@),
    {
        self.explore(instance).solution
    }
}

} // verus!

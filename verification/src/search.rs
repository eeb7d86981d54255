//! The search itself: choosing a best successor, and climbing.

use vstd::prelude::*;
use crate::climb::{
    climbs_to,
    is_ascent,
    is_best_of,
    is_climb,
    is_local_optimum,
    is_path,
    lemma_best_not_above_is_local_optimum,
    lemma_climb_from_local_optimum,
    lemma_climb_never_descends,
    lemma_dead_end_is_local_optimum,
    lemma_reach_from_dead_end,
    lemma_reach_without_budget,
    reaches,
};
use crate::order::{
    at_most,
    is_lawful_order,
    lemma_above_asymmetric,
    lemma_at_most_reflexive,
    lemma_at_most_transitive,
    lemma_lawful_order_is_computed,
};
use crate::problem::LocalOptimizationProblem;

verus! {

/// Picks a state of `candidates` that none of them outscores, or `None`
/// where there is no candidate. Where several share the best score, which
/// of them is picked is left open.
pub fn best_successor<T>(candidates: Vec<T>) -> (best: Option<T>) where
    T: LocalOptimizationProblem,
    T::Score: Ord,

    ensures
        best is None <==> candidates@.len() == 0,
        best matches Some(chosen) ==> candidates@.contains(chosen),
        is_lawful_order::<T::Score>() ==> (best matches Some(chosen) ==> is_best_of(
            candidates@,
            chosen,
        )),
{
    let mut rest = candidates;
    let found = rest.pop();
    match found {
        None => None,
        Some(last) => {
            let mut best = last;
            let mut best_score = best.evaluate();
            let ghost mut at: int = candidates@.len() - 1;
            proof {
                if is_lawful_order::<T::Score>() {
                    lemma_at_most_reflexive(best_score);
                }
            }
            while rest.len() > 0
                invariant
                    rest@.len() < candidates@.len(),
                    forall|i: int| 0 <= i < rest@.len() ==> rest@[i] == candidates@[i],
                    rest@.len() <= at < candidates@.len(),
                    best == candidates@[at],
                    best_score == best.evaluate_spec(),
                    is_lawful_order::<T::Score>() ==> forall|i: int|
                        rest@.len() <= i < candidates@.len() ==> at_most(
                            (#[trigger] candidates@[i]).evaluate_spec(),
                            best_score,
                        ),
                decreases rest@.len(),
            {
                let candidate = rest.pop().unwrap();
                let score = candidate.evaluate();
                let better = score > best_score;
                proof {
                    if is_lawful_order::<T::Score>() {
                        lemma_lawful_order_is_computed::<T::Score>();
                        if better {
                            lemma_above_asymmetric(score, best_score);
                            lemma_at_most_reflexive(score);
                            assert forall|i: int|
                                rest@.len() < i < candidates@.len() implies at_most(
                                (#[trigger] candidates@[i]).evaluate_spec(),
                                score,
                            ) by {
                                lemma_at_most_transitive(
                                    candidates@[i].evaluate_spec(),
                                    best_score,
                                    score,
                                );
                            }
                        }
                    }
                }
                if better {
                    best = candidate;
                    best_score = score;
                    proof {
                        at = rest@.len() as int;
                    }
                }
            }
            Some(best)
        },
    }
}

/// Climbs from `initial_state` and returns the state at which the climb
/// stopped.
///
/// Each move goes from the current state to a best successor of it, and is
/// taken only where that successor scores strictly higher. The climb stops
/// when `max_iterations` moves were taken, when the current state has no
/// successor, or when none of its successors scores above it. None of the
/// three is an error.
///
/// What is said of scores holds where the comparison of `T::Score` is a
/// lawful total order; that the result lies within `max_iterations` steps
/// along successors holds of any comparison.
pub fn hill_climbing_search<T: LocalOptimizationProblem<Score = impl Ord>>(
    max_iterations: usize,
    initial_state: T,
) -> (result: T)
    ensures
        reaches(initial_state, result, max_iterations as nat),
        is_lawful_order::<T::Score>() ==> climbs_to(initial_state, result, max_iterations as nat),
        is_lawful_order::<T::Score>() ==> at_most(
            initial_state.evaluate_spec(),
            result.evaluate_spec(),
        ),
        max_iterations == 0 ==> result == initial_state,
        initial_state.successors_spec().len() == 0 ==> result == initial_state,
        is_lawful_order::<T::Score>() && is_local_optimum(initial_state) ==> result
            == initial_state,
{
    let mut current = initial_state;
    let ghost mut trace: Seq<T> = seq![initial_state];
    let mut moves: usize = 0;
    while moves < max_iterations
        invariant
            moves <= max_iterations,
            trace.len() == moves + 1,
            trace.first() == initial_state,
            trace.last() == current,
            is_path(trace),
            is_lawful_order::<T::Score>() ==> is_ascent(trace),
        ensures
            is_lawful_order::<T::Score>() ==> moves == max_iterations || is_local_optimum(current),
        decreases max_iterations - moves,
    {
        let best = best_successor(current.successors());
        match best {
            None => {
                proof {
                    lemma_dead_end_is_local_optimum(current);
                }
                break ;
            },
            Some(next) => {
                let next_score = next.evaluate();
                let current_score = current.evaluate();
                proof {
                    if is_lawful_order::<T::Score>() {
                        lemma_lawful_order_is_computed::<T::Score>();
                    }
                }
                if next_score > current_score {
                    proof {
                        trace = trace.push(next);
                    }
                    current = next;
                    moves += 1;
                } else {
                    proof {
                        if is_lawful_order::<T::Score>() {
                            lemma_best_not_above_is_local_optimum(current, next);
                        }
                    }
                    break ;
                }
            },
        }
    }
    proof {
        let budget = max_iterations as nat;
        assert(reaches(initial_state, current, budget));
        if max_iterations == 0 {
            lemma_reach_without_budget(initial_state, current);
        }
        if initial_state.successors_spec().len() == 0 {
            lemma_reach_from_dead_end(initial_state, current, budget);
        }
        if is_lawful_order::<T::Score>() {
            assert(is_climb(trace, budget));
            lemma_climb_never_descends(initial_state, current, budget);
            if is_local_optimum(initial_state) {
                lemma_climb_from_local_optimum(initial_state, current, budget);
            }
        }
    }
    current
}

} // verus!

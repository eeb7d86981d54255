//! What a hill climb is: the moves it may take, where it must stop, and the
//! sequence of states it passes through.

use vstd::prelude::*;
use crate::order::{
    above,
    at_most,
    is_lawful_order,
    lemma_above_asymmetric,
    lemma_at_most_reflexive,
    lemma_at_most_transitive,
};
use crate::problem::LocalOptimizationProblem;

verus! {

/// `chosen` is one of `candidates`, and none of them scores above it.
pub open spec fn is_best_of<T>(candidates: Seq<T>, chosen: T) -> bool where
    T: LocalOptimizationProblem,
    T::Score: Ord,
{
    &&& candidates.contains(chosen)
    &&& forall|i: int|
        0 <= i < candidates.len() ==> at_most(
            (#[trigger] candidates[i]).evaluate_spec(),
            chosen.evaluate_spec(),
        )
}

/// No successor of `state` scores above it. A dead end, a state without
/// successors, is one.
pub open spec fn is_local_optimum<T>(state: T) -> bool where
    T: LocalOptimizationProblem,
    T::Score: Ord,
{
    forall|i: int|
        0 <= i < state.successors_spec().len() ==> at_most(
            (#[trigger] state.successors_spec()[i]).evaluate_spec(),
            state.evaluate_spec(),
        )
}

/// The one kind of move that hill climbing takes: from `state` to a best
/// successor of it, and only where that successor scores strictly higher.
pub open spec fn is_accepted_move<T>(state: T, next: T) -> bool where
    T: LocalOptimizationProblem,
    T::Score: Ord,
{
    &&& is_best_of(state.successors_spec(), next)
    &&& above(next.evaluate_spec(), state.evaluate_spec())
}

/// Each state of `trace` but the first is a successor of the one before it.
pub open spec fn is_path<T: LocalOptimizationProblem>(trace: Seq<T>) -> bool {
    &&& trace.len() >= 1
    &&& forall|i: int|
        0 <= i < trace.len() - 1 ==> (#[trigger] trace[i]).successors_spec().contains(trace[i + 1])
}

/// Each state of `trace` but the first is reached from the one before it by
/// an accepted move.
pub open spec fn is_ascent<T>(trace: Seq<T>) -> bool where
    T: LocalOptimizationProblem,
    T::Score: Ord,
{
    &&& trace.len() >= 1
    &&& forall|i: int| 0 <= i < trace.len() - 1 ==> is_accepted_move(#[trigger] trace[i], trace[i + 1])
}

/// `trace` is a whole climb under `budget`: an ascent of at most `budget`
/// moves that ends because the budget is spent or because its last state is
/// a local optimum.
pub open spec fn is_climb<T>(trace: Seq<T>, budget: nat) -> bool where
    T: LocalOptimizationProblem,
    T::Score: Ord,
{
    &&& is_ascent(trace)
    &&& trace.len() - 1 <= budget
    &&& (trace.len() - 1 == budget || is_local_optimum(trace.last()))
}

/// `last` is reached from `first` along successors in at most `budget` steps.
pub open spec fn reaches<T: LocalOptimizationProblem>(first: T, last: T, budget: nat) -> bool {
    exists|trace: Seq<T>|
        {
            &&& #[trigger] is_path(trace)
            &&& trace.first() == first
            &&& trace.last() == last
            &&& trace.len() - 1 <= budget
        }
}

/// Some climb under `budget` starts at `first` and ends at `last`. Where
/// successors tie for the best score there may be more than one such `last`.
pub open spec fn climbs_to<T>(first: T, last: T, budget: nat) -> bool where
    T: LocalOptimizationProblem,
    T::Score: Ord,
{
    exists|trace: Seq<T>|
        {
            &&& #[trigger] is_climb(trace, budget)
            &&& trace.first() == first
            &&& trace.last() == last
        }
}

/// A state without successors is a local optimum.
pub proof fn lemma_dead_end_is_local_optimum<T>(state: T) where
    T: LocalOptimizationProblem,
    T::Score: Ord,

    requires
        state.successors_spec().len() == 0,
    ensures
        is_local_optimum(state),
{
}

/// No accepted move leaves a local optimum.
pub proof fn lemma_local_optimum_has_no_move<T>(state: T, next: T) where
    T: LocalOptimizationProblem,
    T::Score: Ord,

    requires
        is_local_optimum(state),
    ensures
        !is_accepted_move(state, next),
{
    if is_accepted_move(state, next) {
        let successors = state.successors_spec();
        let i = choose|i: int| 0 <= i < successors.len() && successors[i] == next;
        assert(at_most(successors[i].evaluate_spec(), state.evaluate_spec()));
    }
}

/// Under a lawful order, a state whose best successor does not score above
/// it is a local optimum.
pub proof fn lemma_best_not_above_is_local_optimum<T>(state: T, best: T) where
    T: LocalOptimizationProblem,
    T::Score: Ord,

    requires
        is_lawful_order::<T::Score>(),
        is_best_of(state.successors_spec(), best),
        at_most(best.evaluate_spec(), state.evaluate_spec()),
    ensures
        is_local_optimum(state),
{
    let successors = state.successors_spec();
    assert forall|i: int| 0 <= i < successors.len() implies at_most(
        (#[trigger] successors[i]).evaluate_spec(),
        state.evaluate_spec(),
    ) by {
        lemma_at_most_transitive(
            successors[i].evaluate_spec(),
            best.evaluate_spec(),
            state.evaluate_spec(),
        );
    }
}

/// Under a lawful order the score never falls along an ascent.
pub proof fn lemma_ascent_never_descends<T>(trace: Seq<T>, i: int, j: int) where
    T: LocalOptimizationProblem,
    T::Score: Ord,

    requires
        is_lawful_order::<T::Score>(),
        is_ascent(trace),
        0 <= i <= j < trace.len(),
    ensures
        at_most(trace[i].evaluate_spec(), trace[j].evaluate_spec()),
    decreases j - i,
{
    if i == j {
        lemma_at_most_reflexive(trace[i].evaluate_spec());
    } else {
        lemma_ascent_never_descends(trace, i + 1, j);
        assert(is_accepted_move(trace[i], trace[i + 1]));
        lemma_above_asymmetric(trace[i + 1].evaluate_spec(), trace[i].evaluate_spec());
        lemma_at_most_transitive(
            trace[i].evaluate_spec(),
            trace[i + 1].evaluate_spec(),
            trace[j].evaluate_spec(),
        );
    }
}

/// With no budget nothing but the starting state is reached.
pub proof fn lemma_reach_without_budget<T: LocalOptimizationProblem>(first: T, last: T)
    requires
        reaches(first, last, 0),
    ensures
        last == first,
{
}

/// From a state without successors nothing but that state is reached,
/// whatever the budget.
pub proof fn lemma_reach_from_dead_end<T: LocalOptimizationProblem>(first: T, last: T, budget: nat)
    requires
        reaches(first, last, budget),
        first.successors_spec().len() == 0,
    ensures
        last == first,
{
    let trace = choose|trace: Seq<T>|
        {
            &&& #[trigger] is_path(trace)
            &&& trace.first() == first
            &&& trace.last() == last
            &&& trace.len() - 1 <= budget
        };
    if trace.len() > 1 {
        assert(trace[0].successors_spec().contains(trace[1]));
    }
}

/// A climb never takes more moves than its budget: where it ends is
/// reached from where it starts along successors, in at most `budget` steps.
pub proof fn lemma_climb_respects_budget<T>(first: T, last: T, budget: nat) where
    T: LocalOptimizationProblem,
    T::Score: Ord,

    requires
        climbs_to(first, last, budget),
    ensures
        reaches(first, last, budget),
{
    let trace = choose|trace: Seq<T>|
        {
            &&& #[trigger] is_climb(trace, budget)
            &&& trace.first() == first
            &&& trace.last() == last
        };
    assert forall|i: int| 0 <= i < trace.len() - 1 implies (#[trigger] trace[i]).successors_spec().contains(
        trace[i + 1],
    ) by {
        assert(is_accepted_move(trace[i], trace[i + 1]));
    }
    assert(is_path(trace));
}

/// Under a lawful order a climb ends at a score no lower than the one it
/// starts at.
pub proof fn lemma_climb_never_descends<T>(first: T, last: T, budget: nat) where
    T: LocalOptimizationProblem,
    T::Score: Ord,

    requires
        is_lawful_order::<T::Score>(),
        climbs_to(first, last, budget),
    ensures
        at_most(first.evaluate_spec(), last.evaluate_spec()),
{
    let trace = choose|trace: Seq<T>|
        {
            &&& #[trigger] is_climb(trace, budget)
            &&& trace.first() == first
            &&& trace.last() == last
        };
    lemma_ascent_never_descends(trace, 0, trace.len() - 1);
}

/// A climb that starts at a local optimum ends there, whatever the budget.
pub proof fn lemma_climb_from_local_optimum<T>(first: T, last: T, budget: nat) where
    T: LocalOptimizationProblem,
    T::Score: Ord,

    requires
        climbs_to(first, last, budget),
        is_local_optimum(first),
    ensures
        last == first,
{
    let trace = choose|trace: Seq<T>|
        {
            &&& #[trigger] is_climb(trace, budget)
            &&& trace.first() == first
            &&& trace.last() == last
        };
    if trace.len() > 1 {
        assert(is_accepted_move(trace[0], trace[1]));
        lemma_local_optimum_has_no_move(trace[0], trace[1]);
    }
}

} // verus!

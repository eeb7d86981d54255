//! The capability that a problem state offers to a local search.

use vstd::prelude::*;

verus! {

/// A point of a search space that knows its neighbours and its own score.
///
/// Both operations are functions of the state's value alone: they change
/// nothing, and an unchanged state gives the same answer each time it is
/// asked. The two spec functions are that answer, and the two executable
/// methods are bound to return it. The search relies on this, and nothing
/// but the implementation can vouch for it.
///
/// A verified implementation defines the two spec functions and proves its
/// methods against them. One that is not verified may leave them as they
/// stand here, which says nothing of the type.
pub trait LocalOptimizationProblem: Sized {
    /// What states are compared by.
    type Score;

    /// The states one move away from `self`, in the order in which
    /// `successors` lists them. Empty at a dead end.
    open spec fn successors_spec(&self) -> Seq<Self> {
        arbitrary()
    }

    /// The score of `self`.
    open spec fn evaluate_spec(&self) -> Self::Score {
        arbitrary()
    }

    /// Lists the states one move away from `self`.
    fn successors(&self) -> (neighbours: Vec<Self>)
        ensures
            neighbours@ == self.successors_spec(),
    ;

    /// Scores `self`.
    fn evaluate(&self) -> (score: Self::Score)
        ensures
            score == self.evaluate_spec(),
    ;
}

} // verus!

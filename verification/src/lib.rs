//! Greedy local search.
//!
//! A problem state lists its neighbours and scores itself
//! ([`LocalOptimizationProblem`]); [`hill_climbing_search`] climbs from a
//! state to a best neighbour for as long as that neighbour scores strictly
//! higher, within a budget of moves. It never takes an equal or a lower
//! move, so it stops at the first local optimum it meets.
//!
//! The contracts are stated over the model in [`climb`]: the sequence of
//! states that a climb passes through. [`order`] says how scores compare.

pub mod climb;
pub mod order;
pub mod problem;
pub mod search;

pub use problem::LocalOptimizationProblem;
pub use search::{best_successor, hill_climbing_search};

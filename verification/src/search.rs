//! The search stack: evaluators, the transposition table, the time
//! keeper and the alpha-beta search itself.

pub mod alpha_beta;
pub mod evaluator;
pub mod time_keeper;
pub mod transposition_table;

//! The search for parameters: found parameters, the output of a run and the
//! decisions that drive it.
pub mod chunks;
pub mod output;
pub mod runner;
pub mod utils;

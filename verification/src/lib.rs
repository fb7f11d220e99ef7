//! Hidden parameter discovery: request building, response comparison and
//! the decisions that drive a discovery run.
use vstd::prelude::*;

pub mod config;
pub mod diff;
pub mod matching;
pub mod network;
pub mod runner;
pub mod text;
pub mod utils;

verus! {

/// Pages larger than this (25MB) are usually binary and are not searched without `--force`.
pub const MAX_PAGE_SIZE: usize = 25 * 1024 * 1024;

/// The width of the url part of a progress bar's prefix.
pub const DEFAULT_PROGRESS_URL_MAX_LEN: usize = 36;

/// The length of random parameter values.
pub const VALUE_LENGTH: usize = 6;

/// The length of random parameter names.
pub const RANDOM_LENGTH: usize = 5;

} // verus!

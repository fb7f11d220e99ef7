//! The run's settings and the pieces of their parsing that decide something.
pub mod structs;
pub mod utils;

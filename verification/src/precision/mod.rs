//! Analyses of how much room the numeric types take.

pub mod memory;

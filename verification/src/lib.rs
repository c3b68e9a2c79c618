//! Puzzle solvers built around a small stored-program integer machine.
//!
//! The `intcode` module holds the machine itself: a tape of signed
//! integers, a decoder for its variable-length instructions, and the
//! engine that runs them. The `day*` modules hold the self-contained
//! computations that feed it or stand beside it.

pub mod day1;
pub mod day2;
pub mod day3;
pub mod day4;
pub mod decimal;
pub mod intcode;

pub use crate::day1::calculate_total_fuel;

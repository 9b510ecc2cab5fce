//! A harness for small, independent puzzle solutions, one per numbered day.
//!
//! Each day parses a text input and computes up to two answers. The heart of
//! the crate is the solution contract together with the registry that maps a
//! day number to its implementation and drives parse, compute and timing
//! uniformly.

pub mod num;
pub mod text;
pub mod sorting;
pub mod solution;
pub mod registry;
pub mod day1;

//! Whole-input string matching with composable pattern combinators.
//!
//! A [`pattern::Pattern`] is an immutable tree built from the constructors in
//! [`combinators`]. Each match attempt builds a fresh [`tracker::Tracker`], a
//! tracking state shaped like the tree, and feeds it the input one character at
//! a time; the answers it gives are drawn from the [`accepts::Accepts`]
//! lattice, whose final verdicts let the driver stop early.
pub mod accepts;
pub mod combinators;
pub mod laws;
pub mod pattern;
pub mod regex;
pub mod simple_state;
pub mod tracker;
pub mod tracking;

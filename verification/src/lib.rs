//! Core simulation engine of a falling-block puzzle game.
//!
//! The crate has two layers: [`block`] holds the geometry of a single
//! shape (a tag plus a set of occupied grid cells, with pure translation
//! and rotation), and [`board`] owns the grid, the falling block, the
//! fixed blocks, and the tick / shift / rotate state machine with
//! line-clearing. [`laws`] states and proves the global properties the
//! engine guarantees.

pub mod block;
pub mod board;
pub mod laws;

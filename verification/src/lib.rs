//! Simulation core of a grid-based snake game: a bounded board of tiles,
//! a snake body encoded as per-tile segment indices, single-food placement,
//! a fixed-interval step clock, and a two-state game machine.
use vstd::prelude::*;

pub mod board;
pub mod clock;
pub mod direction;
pub mod engine;
pub mod tile;

verus! {

} // verus!

//! A falling-sand cellular automaton on a fixed two-dimensional grid.
//!
//! The grid is the only mutable state. One tick collects a proposed move for
//! every grain of sand, lets exactly one proposal win each contested cell,
//! carries the winners out and drops a fresh grain into the top row.
//!
//! Drawing the grid and driving the ticks at a fixed rate is left to the
//! caller, who reads the grid between ticks and never during one.

pub mod particle;
pub mod grid;
pub mod moves;
pub mod sorting;
pub mod rules;
pub mod random;
pub mod resolve;
pub mod engine;
pub mod controls;

pub use controls::Controls;
pub use engine::TickEngine;
pub use grid::{Grid, GridError};
pub use moves::Move;
pub use particle::Particle;

//! Conway's Game of Life on a torus.
//!
//! The universe is a rectangular grid whose edges are glued to the opposite
//! edges, so that every cell has eight neighbours. Named populations (still
//! lifes, oscillators, spaceships) can be placed on it, mirrored or with
//! rows and columns swapped.
//!
//! - [`cell`] holds the two states of a cell and the rule that carries a
//!   cell from one generation to the next.
//! - [`ring`] is the arithmetic of coordinates that wrap around.
//! - [`grid`] is the mathematical model of the universe, a ghost value:
//!   what a universe holds and what each operation makes of it.
//! - [`universe`] is the engine, which holds a universe in memory and is
//!   proved to follow the model.
//! - [`pattern`] is the catalogue of populations, [`placement`] puts them on
//!   the grid.
//! - [`text`] writes the universe out as lines of symbols.
//! - [`error`] says which dimensions a universe can have.
//! - [`laws`] states what holds of every universe: what the neighbours of a
//!   corner are, that an empty universe stays empty, that a block is still
//!   and a blinker returns after two generations.
//!
//! Everything here is proved but one function, which asks the host for a
//! random number; nothing is assumed of what it returns.

use vstd::prelude::*;

pub mod cell;
pub mod error;
pub mod grid;
pub mod laws;
pub mod pattern;
pub mod placement;
mod random;
pub mod ring;
pub mod text;
pub mod universe;

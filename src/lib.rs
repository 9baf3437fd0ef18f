//! Conway's Game of Life on a toroidal grid, with the generation step proved
//! against a mathematical model of the grid.

pub mod bitset;
pub mod model;
pub mod universe;
pub mod laws;

pub use model::{generations, next_state, Generation};
pub use universe::{Universe, UniverseError};

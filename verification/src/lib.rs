//! Conway's Game of Life on a toroidal grid, with one bit per cell.
//!
//! [`Universe`] owns the grid; [`Grid`] is its mathematical model, over which
//! every contract of the crate is stated.

pub mod bitset;
pub mod grid;
pub mod patterns;
pub mod universe;

pub use grid::Grid;
pub use universe::Universe;

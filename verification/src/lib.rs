//! A forest-fire cellular automaton on a grid: trees grow on empty ground,
//! lightning sets trees on fire, fire spreads to the trees next to it and
//! burns out after one tick.
//!
//! - `cell`, `point`: the state of a cell and the coordinate of a cell.
//! - `model`: the mathematical model of a grid, over which the contracts of
//!   the library are stated.
//! - `grid`: the grid, with the operations that a tick is made of.
//! - `simulation`: the grid with its frontier of burning cells and its
//!   lightning clock, and the tick.
//! - `laws`: what holds of every grid and of every tick.
//! - `driver`: one step of the loop that runs a simulation.
//! - `random`: the random draws, which the library takes on trust.
//! - `config`: the default size and rates.

pub mod config;
pub mod cell;
pub mod point;
pub mod model;
pub mod random;
pub mod grid;
pub mod simulation;
pub mod laws;
pub mod driver;

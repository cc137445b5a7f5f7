use vstd::prelude::*;

verus! {

/// The default number of grid columns.
pub const WIDTH: usize = 500;

/// The default number of grid rows.
pub const HEIGHT: usize = 500;

/// The default number of tree spawn attempts per tick.
pub const TREE_SPAWN_RATE: u32 = 10;

/// The default number of ticks that pass before lightning strikes again.
pub const LIGHTNING_SPAWN_RATE: u32 = 150;

/// The default target rate of the simulation, in ticks per second.
pub const SIM_SPEED: u32 = 200;

} // verus!

use vstd::prelude::*;

verus! {

/// The state of one grid cell.
#[derive(Clone, Copy, Debug, PartialEq, Eq, Structural)]
pub enum Cell {
    /// Bare ground.
    Empty,
    /// A tree that can catch fire.
    Tree,
    /// A tree that is burning during the current tick.
    Fire,
}

impl Cell {
    /// The display colour of a cell as red, green and blue intensities.
    pub open spec fn rgb_spec(self) -> (u8, u8, u8) {
        match self {
            Cell::Empty => (0u8, 0u8, 0u8),
            Cell::Tree => (0u8, 255u8, 0u8),
            Cell::Fire => (255u8, 0u8, 0u8),
        }
    }

    /// Returns the display colour of the cell: black for empty ground, green
    /// for a tree, red for fire.
    #[verifier::when_used_as_spec(rgb_spec)]
    pub fn rgb(self) -> (colour: (u8, u8, u8))
        ensures
            colour == self.rgb_spec(),
    {
        match self {
            Cell::Empty => (0, 0, 0),
            Cell::Tree => (0, 255, 0),
            Cell::Fire => (255, 0, 0),
        }
    }
}

} // verus!

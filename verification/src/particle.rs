//! The states a grid cell can be in.

use vstd::prelude::*;

verus! {

/// What occupies one cell of the grid.
#[derive(Clone, Copy, Debug, PartialEq, Eq, Structural)]
pub enum Particle {
    /// Nothing; grains may fall into the cell.
    Empty,
    /// A grain of sand, which falls.
    Sand,
    /// Water, which stays where it is and is displaced by falling sand.
    Water,
}

impl Particle {
    /// Whether a falling grain may enter a cell that holds this particle.
    pub open spec fn gives_way(self) -> bool {
        self == Particle::Empty || self == Particle::Water
    }

    /// Whether a falling grain may enter a cell that holds this particle.
    pub fn yields(self) -> (b: bool)
        ensures
            b == self.gives_way(),
    {
        match self {
            Particle::Empty => true,
            Particle::Water => true,
            Particle::Sand => false,
        }
    }

    /// Whether the cell holds anything at all.
    pub fn is_occupied(self) -> (b: bool)
        ensures
            b == (self != Particle::Empty),
    {
        match self {
            Particle::Empty => false,
            _ => true,
        }
    }
}

} // verus!

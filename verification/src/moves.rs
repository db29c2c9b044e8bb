//! Proposed moves and the order in which their destinations are taken.

use vstd::prelude::*;
use std::cmp::Ordering;

verus! {

/// Whether the cell `a` comes before the cell `b`: by column first, and by
/// row within a column.
pub open spec fn cell_before(a: (usize, usize), b: (usize, usize)) -> bool {
    a.0 < b.0 || (a.0 == b.0 && a.1 < b.1)
}

/// The proposal that the particle in `source` go to `destination` in the
/// current tick. Both cells are given as `(column, row)`.
///
/// Moves are compared by destination alone: two moves are equal when they
/// contend for the same cell, whatever their sources.
#[derive(Clone, Copy, Debug)]
pub struct Move {
    pub source: (usize, usize),
    pub destination: (usize, usize),
}

impl Move {
    /// Whether the move takes the particle out of the cell `(col, row)`.
    pub open spec fn leaves(&self, col: int, row: int) -> bool {
        self.source.0 == col && self.source.1 == row
    }

    /// Whether the move brings its particle to the cell `(col, row)`.
    pub open spec fn enters(&self, col: int, row: int) -> bool {
        self.destination.0 == col && self.destination.1 == row
    }

    /// How `self` stands to `other` in the order of destinations.
    pub open spec fn order(&self, other: &Move) -> Ordering {
        if cell_before(self.destination, other.destination) {
            Ordering::Less
        } else if self.destination == other.destination {
            Ordering::Equal
        } else {
            Ordering::Greater
        }
    }

    /// Compares the destinations: by column, and by row where the columns are
    /// the same.
    pub fn cmp(&self, other: &Move) -> (order: Ordering)
        ensures
            order == self.order(other),
    {
        if self.destination.0 == other.destination.0 {
            if self.destination.1 < other.destination.1 {
                Ordering::Less
            } else if self.destination.1 == other.destination.1 {
                Ordering::Equal
            } else {
                Ordering::Greater
            }
        } else if self.destination.0 < other.destination.0 {
            Ordering::Less
        } else {
            Ordering::Greater
        }
    }

    /// Whether the destination of `self` comes strictly before that of `other`.
    pub fn precedes(&self, other: &Move) -> (b: bool)
        ensures
            b == cell_before(self.destination, other.destination),
    {
        self.destination.0 < other.destination.0 || (self.destination.0 == other.destination.0
            && self.destination.1 < other.destination.1)
    }
}

impl PartialEq for Move {
    /// Whether the two moves contend for the same cell.
    fn eq(&self, other: &Self) -> (equal: bool) {
        self.destination.0 == other.destination.0 && self.destination.1 == other.destination.1
    }
}

impl vstd::std_specs::cmp::PartialEqSpecImpl for Move {
    /// `==` on moves means what `eq_spec` says.
    open spec fn obeys_eq_spec() -> bool {
        true
    }

    /// Two moves are equal when they go to the same cell.
    open spec fn eq_spec(&self, other: &Self) -> bool {
        self.destination.0 == other.destination.0 && self.destination.1 == other.destination.1
    }
}

impl Eq for Move {

}

impl PartialOrd for Move {
    /// How `self` stands to `other` in the order of destinations; any two
    /// moves can be compared.
    fn partial_cmp(&self, other: &Self) -> (order: Option<Ordering>) {
        Some(self.cmp(other))
    }
}

impl vstd::std_specs::cmp::PartialOrdSpecImpl for Move {
    /// `<` and its kin on moves mean what `partial_cmp_spec` says.
    open spec fn obeys_partial_cmp_spec() -> bool {
        true
    }

    /// Moves are ordered as their destinations are.
    open spec fn partial_cmp_spec(&self, other: &Self) -> Option<Ordering> {
        Some(self.order(other))
    }
}

} // verus!

//! Grid coordinates.

use core::cmp::Ordering;
use vstd::prelude::*;
use vstd::std_specs::cmp::PartialOrdSpecImpl;

verus! {

/// An unsigned coordinate pair: `x` counts columns from the left, `y` counts
/// rows from the floor.
#[derive(Clone, Copy, Debug, PartialEq, Eq, Structural)]
pub struct Position {
    pub x: u32,
    pub y: u32,
}

/// The 32-bit coordinate that a machine-sized index turns into: the index
/// itself when it fits, its low 32 bits otherwise.
pub open spec fn coordinate(index: usize) -> u32 {
    index as u32
}

impl Position {
    /// Builds a position from two indices, keeping the low 32 bits of each.
    pub fn new(x: usize, y: usize) -> (p: Position)
        ensures
            p.x == coordinate(x),
            p.y == coordinate(y),
            x <= u32::MAX ==> p.x == x,
            y <= u32::MAX ==> p.y == y,
    {
        Position { x: #[verifier::truncate] (x as u32), y: #[verifier::truncate] (y as u32) }
    }

    /// Positions are ordered by row alone: the column plays no part.
    pub open spec fn row_order(self, other: Position) -> Ordering {
        if self.y < other.y {
            Ordering::Less
        } else if self.y == other.y {
            Ordering::Equal
        } else {
            Ordering::Greater
        }
    }
}

impl PartialOrd for Position {
    fn partial_cmp(&self, other: &Position) -> (r: Option<Ordering>) {
        if self.y < other.y {
            Some(Ordering::Less)
        } else if self.y == other.y {
            Some(Ordering::Equal)
        } else {
            Some(Ordering::Greater)
        }
    }
}

impl PartialOrdSpecImpl for Position {
    open spec fn obeys_partial_cmp_spec() -> bool {
        true
    }

    open spec fn partial_cmp_spec(&self, other: &Position) -> Option<Ordering> {
        Some(self.row_order(*other))
    }
}

} // verus!

//! Errors of a placement.

use vstd::prelude::*;

verus! {

/// Why a tile could not be placed.
#[derive(Debug, Clone, Copy, PartialEq, Eq, Structural)]
pub enum GameError {
    /// The slot lies outside the perimeter `[0, 4n)`; carries the slot.
    InvalidPlacementLocation(usize),
    /// The lane has no room for a tile entering from this side.
    NoSpace,
}

} // verus!

use vstd::prelude::*;

verus! {

/// Why a level could not be generated.
#[derive(Clone, Copy, Debug, PartialEq, Eq, Structural)]
pub enum GenError {
    /// The corridor's minimum half-width exceeds its maximum.
    FlyWidthOrder,
    /// The grid is too small for the fixed rows of a fly level or for its
    /// widest corridor.
    FlyGridTooSmall,
    /// The maze is under five cells wide or high.
    MazeTooSmall,
}

} // verus!

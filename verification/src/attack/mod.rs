use vstd::prelude::*;

pub mod board;
pub mod magics;
pub mod moving_pieces;
pub mod sliding_pieces;

verus! {

/// The three directions in which a pawn moves or captures.
#[derive(Debug, Clone, Copy, PartialEq, Eq, Structural)]
pub enum PawnDirections {
    Up,
    Right,
    Left,
}

impl PawnDirections {
    /// The number of pawn directions.
    pub const TOTAL: usize = 3;
}

} // verus!

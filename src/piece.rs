use vstd::prelude::*;

verus! {

/// No piece; slot 0 of a color's bitboards holds all of its pieces.
pub const NONE: usize = 0;
pub const KING: usize = 1;
pub const PAWN: usize = 2;
pub const KNIGHT: usize = 3;
pub const BISHOP: usize = 4;
pub const ROOK: usize = 5;
pub const QUEEN: usize = 6;

pub const WHITE: usize = 0;
pub const BLACK: usize = 1;
/// The color of an empty square.
pub const INVALID_COLOR: usize = 2;

} // verus!

use vstd::prelude::*;

verus! {

/// Bit 0 of a castling state: the king-side right.
pub open spec fn king_side_right(castling_state: u8) -> bool {
    castling_state & 1u8 == 1u8
}

/// Bit 1 of a castling state: the queen-side right.
pub open spec fn queen_side_right(castling_state: u8) -> bool {
    castling_state & 2u8 == 2u8
}

pub fn can_king_side(castling_state: u8) -> (r: bool)
    ensures
        r == king_side_right(castling_state),
{
    castling_state & 0b01 == 0b01
}

pub fn can_queen_side(castling_state: u8) -> (r: bool)
    ensures
        r == queen_side_right(castling_state),
{
    castling_state & 0b10 == 0b10
}

pub fn can_any(castling_state: u8) -> (r: bool)
    ensures
        r == (castling_state != 0),
{
    castling_state != 0
}

/// Clears the king-side right and every bit but the queen-side one.
pub fn annul_king_side(castling_state: &mut u8)
    ensures
        *final(castling_state) == *old(castling_state) & 2u8,
        !king_side_right(*final(castling_state)),
        queen_side_right(*final(castling_state)) == queen_side_right(*old(castling_state)),
{
    *castling_state &= 0b10;
    proof {
        let o = *old(castling_state);
        assert((o & 2u8) & 1u8 != 1u8 && ((o & 2u8) & 2u8 == 2u8) == (o & 2u8 == 2u8)) by (bit_vector);
    }
}

/// Clears the queen-side right and every bit but the king-side one.
pub fn annul_queen_side(castling_state: &mut u8)
    ensures
        *final(castling_state) == *old(castling_state) & 1u8,
        !queen_side_right(*final(castling_state)),
        king_side_right(*final(castling_state)) == king_side_right(*old(castling_state)),
{
    *castling_state &= 0b01;
    proof {
        let o = *old(castling_state);
        assert((o & 1u8) & 2u8 != 2u8 && ((o & 1u8) & 1u8 == 1u8) == (o & 1u8 == 1u8)) by (bit_vector);
    }
}

/// Clears both rights.
pub fn annul(castling_state: &mut u8)
    ensures
        *final(castling_state) == 0,
{
    *castling_state = 0;
}

} // verus!

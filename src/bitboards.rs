use vstd::prelude::*;

verus! {

/// Squares of the first rank.
pub const FIRST_RANK_MASK: u64 = 0x00000000000000FF;
/// Squares of the second rank.
pub const SECOND_RANK_MASK: u64 = 0x000000000000FF00;
/// Squares of the fourth rank.
pub const FOURTH_RANK_MASK: u64 = 0x00000000FF000000;
/// Squares of the fifth rank.
pub const FIFTH_RANK_MASK: u64 = 0x000000FF00000000;
/// Squares of the seventh rank.
pub const SEVENTH_RANK_MASK: u64 = 0x00FF000000000000;
/// Squares of the eighth rank.
pub const EIGHTH_RANK_MASK: u64 = 0xFF00000000000000;
/// Every square but those of file index 7 (the a-file).
pub const NOT_FIRST_FILE_MASK: u64 = 0x7F7F7F7F7F7F7F7F;
/// Every square but those of file index 0 (the h-file).
pub const NOT_EIGHTH_FILE_MASK: u64 = 0xFEFEFEFEFEFEFEFE;
/// The board without its outer ranks and files.
pub const BOARD_6X6_MASK: u64 = 0x7E7E7E7E7E7E00;

/// Squares that must be empty and unattacked for white to castle king-side.
pub const WHITE_KING_SIDE_CASTLING_MASK: u64 = 0x6;
/// Squares that must be empty and unattacked for black to castle king-side.
pub const BLACK_KING_SIDE_CASTLING_MASK: u64 = 0x600000000000000;
/// Squares that must be empty for white to castle queen-side.
pub const WHITE_QUEEN_SIDE_CASTLING_MASK: u64 = 0x70;
/// Squares that must be empty for black to castle queen-side.
pub const BLACK_QUEEN_SIDE_CASTLING_MASK: u64 = 0x7000000000000000;
/// Squares the white king crosses when castling queen-side.
pub const WHITE_QUEEN_SIDE_CASTLING_KING_PATH_MASK: u64 = 0x30;
/// Squares the black king crosses when castling queen-side.
pub const BLACK_QUEEN_SIDE_CASTLING_KING_PATH_MASK: u64 = 0x3000000000000000;

/// Bit `s` of the bitboard `b` is set.
pub open spec fn bit_set(b: u64, s: u64) -> bool {
    (b >> s) & 1u64 == 1u64
}

pub broadcast proof fn lemma_bit_and(a: u64, b: u64, s: u64)
    by (bit_vector)
    requires
        s < 64,
    ensures
        #[trigger] bit_set(a & b, s) == (bit_set(a, s) && bit_set(b, s)),
{
}

pub broadcast proof fn lemma_bit_or(a: u64, b: u64, s: u64)
    by (bit_vector)
    requires
        s < 64,
    ensures
        #[trigger] bit_set(a | b, s) == (bit_set(a, s) || bit_set(b, s)),
{
}

pub broadcast proof fn lemma_bit_not(a: u64, s: u64)
    by (bit_vector)
    requires
        s < 64,
    ensures
        #[trigger] bit_set(!a, s) == !bit_set(a, s),
{
}

pub broadcast proof fn lemma_bit_zero(s: u64)
    by (bit_vector)
    requires
        s < 64,
    ensures
        !#[trigger] bit_set(0u64, s),
{
}

pub broadcast proof fn lemma_bit_single(s: u64, t: u64)
    by (bit_vector)
    requires
        s < 64,
        t < 64,
    ensures
        #[trigger] bit_set(1u64 << s, t) == (s == t),
{
}

pub broadcast proof fn lemma_bit_shl(b: u64, k: u64, t: u64)
    by (bit_vector)
    requires
        k < 64,
        t < 64,
    ensures
        #[trigger] bit_set(b << k, t) == (t >= k && bit_set(b, (t - k) as u64)),
{
}

pub broadcast proof fn lemma_bit_shr(b: u64, k: u64, t: u64)
    by (bit_vector)
    requires
        k < 64,
        t < 64,
    ensures
        #[trigger] bit_set(b >> k, t) == (t + k < 64 && bit_set(b, (t + k) as u64)),
{
}

pub broadcast group group_bits {
    lemma_bit_and,
    lemma_bit_or,
    lemma_bit_not,
    lemma_bit_zero,
    lemma_bit_single,
    lemma_bit_shl,
    lemma_bit_shr,
}

/// Two bitboards with the same bits are equal.
pub proof fn lemma_bits_ext(a: u64, b: u64)
    requires
        forall|s: u64| s < 64 ==> bit_set(a, s) == bit_set(b, s),
    ensures
        a == b,
{
    let x = a ^ b;
    if x != 0 {
        vstd::std_specs::bits::axiom_u64_trailing_zeros(x);
        let t = x.trailing_zeros() as u64;
        assert(t < 64) by {
            assert(x != 0);
        }
        assert(bit_set(a, t) == bit_set(b, t));
        assert((x >> t) & 1u64 == 1u64);
        assert(bit_set(a ^ b, t) == (bit_set(a, t) != bit_set(b, t))) by (bit_vector)
            requires
                t < 64,
        ;
    }
    assert(a ^ b == 0 ==> a == b) by (bit_vector);
}

/// The index of the least significant set bit, or 64 for an empty bitboard.
pub fn get_ls1b(bitboard: u64) -> (r: usize)
    ensures
        bitboard == 0 <==> r == 64,
        r <= 64,
        r < 64 ==> bit_set(bitboard, r as u64),
        forall|j: u64| j < r ==> !bit_set(bitboard, j),
{
    proof {
        vstd::std_specs::bits::axiom_u64_trailing_zeros(bitboard);
    }
    bitboard.trailing_zeros() as usize
}

/// A bitboard with the single bit of `square` set.
pub fn get_bit_from_square(square: usize) -> (r: u64)
    requires
        square < 64,
    ensures
        r == 1u64 << square as u64,
        forall|t: u64| t < 64 ==> bit_set(r, t) == (t == square),
{
    proof {
        broadcast use group_bits;
    }
    1u64 << square as u64
}

/// Shifts `bitboard` towards higher squares by `shift_amount`, or towards lower
/// squares when it is negative.
pub fn shift_bb(bitboard: u64, shift_amount: i8) -> (r: u64)
    requires
        -63 <= shift_amount <= 63,
    ensures
        shift_amount > 0 ==> r == bitboard << shift_amount as u64,
        shift_amount <= 0 ==> r == bitboard >> (-shift_amount) as u64,
        forall|t: u64|
            #![trigger bit_set(r, t)]
            t < 64 ==> (bit_set(r, t) <==> (0 <= t - shift_amount < 64 && bit_set(
                bitboard,
                (t - shift_amount) as u64,
            ))),
{
    proof {
        broadcast use group_bits;
    }
    if shift_amount > 0 {
        bitboard << shift_amount as u64
    } else {
        bitboard >> (-shift_amount) as u64
    }
}


/// Clearing a set bit makes a bitboard smaller.
pub proof fn lemma_clear_bit_decreases(b: u64, s: u64)
    by (bit_vector)
    requires
        s < 64,
        (b >> s) & 1u64 == 1u64,
    ensures
        b & !(1u64 << s) < b,
{
}

/// Number of set bits among the `n` lowest positions.
pub open spec fn popcount_below(b: u64, n: nat) -> nat
    decreases n,
{
    if n == 0 {
        0
    } else {
        popcount_below(b, (n - 1) as nat) + if bit_set(b, (n - 1) as u64) { 1nat } else { 0nat }
    }
}

/// Number of set bits.
pub open spec fn popcount(b: u64) -> nat {
    popcount_below(b, 64)
}

/// Returns the number of set bits of `b`.
pub fn pop_count(b: u64) -> (r: u32)
    ensures
        r == popcount(b),
{
    let mut count: u32 = 0;
    let mut i: u64 = 0;
    while i < 64
        invariant
            i <= 64,
            count == popcount_below(b, i as nat),
            count <= i,
        decreases 64 - i,
    {
        if (b >> i) & 1 == 1 {
            count = count + 1;
        }
        i = i + 1;
    }
    count
}

} // verus!

use vstd::prelude::*;
use crate::bitboards::{
    self, bit_set, group_bits, get_bit_from_square, get_ls1b, lemma_clear_bit_decreases, pop_count,
    shift_bb,
};
use crate::board::{Board, BoardView, INVALID_SQUARE, bb_at, consistent, is_only_king, one_king, piece_bb, square_ok, view_wf};
use crate::magic::slider_attacks;
use crate::square_data::{abs_int, file_of, king_step, knight_step, on_segment, rank_of, same_axis};
use crate::bitboards::{lemma_bits_ext, popcount, popcount_below};
use crate::magic::{lemma_zero_iff_no_bits, slider_axis};
use crate::piece::{BISHOP, KING, KNIGHT, NONE, PAWN, QUEEN, ROOK, WHITE};
use crate::precomputed::PrecomputedData;

verus! {

broadcast use group_bits;

/// A pawn of color `c` on `s` attacks `t`: one rank forward, one file aside.
pub open spec fn pawn_attacks(c: usize, s: int, t: int) -> bool {
    &&& if c == WHITE { rank_of(t) == rank_of(s) + 1 } else { rank_of(t) == rank_of(s) - 1 }
    &&& abs_int(file_of(t) - file_of(s)) == 1
}

/// A piece of type `ty` and color `c` on `s` attacks `t` when the board's
/// occupancy is `occ`.
pub open spec fn type_attacks(ty: usize, c: usize, s: int, t: u64, occ: u64) -> bool {
    if ty == KING {
        king_step(s, t as int)
    } else if ty == PAWN {
        pawn_attacks(c, s, t as int)
    } else if ty == KNIGHT {
        knight_step(s, t as int)
    } else if ty == BISHOP {
        slider_attacks(s, occ, false, t)
    } else if ty == ROOK {
        slider_attacks(s, occ, true, t)
    } else if ty == QUEEN {
        slider_attacks(s, occ, true, t) || slider_attacks(s, occ, false, t)
    } else {
        false
    }
}

/// Some piece of color `c` attacks `t`.
pub open spec fn attacked_by(v: BoardView, c: usize, t: u64, occ: u64) -> bool {
    exists|s: int|
        0 <= s < 64 && v.squares[s].0 == c && #[trigger] type_attacks(v.squares[s].1, c, s, t, occ)
}

/// Every piece but the king of the side to move: the king does not shield
/// the squares behind it from a slider.
pub open spec fn occupancy_without_king(v: BoardView) -> u64 {
    (piece_bb(v, 0, 0) | piece_bb(v, 1, 0)) & !piece_bb(v, v.color as int, KING as int)
}

/// Some square of `bb0` that is not in `remaining` holds a piece of type `ty`
/// that attacks `t`.
pub open spec fn processed_attacks(bb0: u64, remaining: u64, ty: usize, c: usize, t: u64, occ: u64) -> bool {
    exists|s: u64|
        s < 64 && #[trigger] bit_set(bb0, s) && !bit_set(remaining, s) && type_attacks(
            ty,
            c,
            s as int,
            t,
            occ,
        )
}

proof fn lemma_file_masks(s: u64)
    by (bit_vector)
    requires
        s < 64,
    ensures
        bit_set(bitboards::NOT_FIRST_FILE_MASK, s) == (s % 8 != 7),
        bit_set(bitboards::NOT_EIGHTH_FILE_MASK, s) == (s % 8 != 0),
{
}

pub proof fn lemma_pawn_geometry(c: usize, s: int, t: int)
    requires
        0 <= s < 64,
        0 <= t < 64,
    ensures
        pawn_attacks(c, s, t) == if c == WHITE {
            (t == s + 9 && s % 8 != 7) || (t == s + 7 && s % 8 != 0)
        } else {
            (t == s - 9 && s % 8 != 0) || (t == s - 7 && s % 8 != 7)
        },
{
}

/// Keeps pawn attacks from wrapping around the board: the first capture direction.
fn get_relevant_pawn_attacks_mask_1(color: usize) -> (r: u64)
    ensures
        r == if color == 0 { bitboards::NOT_FIRST_FILE_MASK } else { bitboards::NOT_EIGHTH_FILE_MASK },
{
    if color == 0 {
        bitboards::NOT_FIRST_FILE_MASK
    } else {
        bitboards::NOT_EIGHTH_FILE_MASK
    }
}

/// Keeps pawn attacks from wrapping around the board: the second capture direction.
fn get_relevant_pawn_attacks_mask_2(color: usize) -> (r: u64)
    ensures
        r == if color == 0 { bitboards::NOT_EIGHTH_FILE_MASK } else { bitboards::NOT_FIRST_FILE_MASK },
{
    if color == 0 {
        bitboards::NOT_EIGHTH_FILE_MASK
    } else {
        bitboards::NOT_FIRST_FILE_MASK
    }
}

fn get_pawn_attack_shift_offset_1(color: usize) -> (r: i8)
    ensures
        r == if color == 0 { 9i8 } else { -9i8 },
{
    if color == 0 {
        9
    } else {
        -9
    }
}

fn get_pawn_attack_shift_offset_2(color: usize) -> (r: i8)
    ensures
        r == if color == 0 { 7i8 } else { -7i8 },
{
    if color == 0 {
        7
    } else {
        -7
    }
}

/// The rank on which a pawn of `color` stands after its double move.
fn get_en_passant_rank_mask(color: usize) -> (r: u64) {
    if color == 0 {
        bitboards::FOURTH_RANK_MASK
    } else {
        bitboards::FIFTH_RANK_MASK
    }
}

/// One step of a loop that adds the attacks of each piece of `bb0` in turn.
proof fn lemma_accumulate(
    bb0: u64,
    rem: u64,
    rem2: u64,
    s0: u64,
    ty: usize,
    c: usize,
    occ: u64,
    att0: u64,
    att: u64,
    attack: u64,
    att2: u64,
)
    requires
        s0 < 64,
        bit_set(rem, s0),
        forall|s: u64| s < 64 && #[trigger] bit_set(rem, s) ==> bit_set(bb0, s),
        forall|t: u64|
            t < 64 ==> (bit_set(att, t) <==> (bit_set(att0, t) || processed_attacks(
                bb0,
                rem,
                ty,
                c,
                t,
                occ,
            ))),
        rem2 == rem & !(1u64 << s0),
        att2 == att | attack,
        forall|t: u64| t < 64 ==> (bit_set(attack, t) <==> type_attacks(ty, c, s0 as int, t, occ)),
    ensures
        forall|s: u64| s < 64 && #[trigger] bit_set(rem2, s) ==> bit_set(bb0, s),
        forall|t: u64|
            t < 64 ==> (bit_set(att2, t) <==> (bit_set(att0, t) || processed_attacks(
                bb0,
                rem2,
                ty,
                c,
                t,
                occ,
            ))),
{
    assert forall|t: u64| t < 64 implies (bit_set(att2, t) <==> (bit_set(att0, t) || processed_attacks(
        bb0,
        rem2,
        ty,
        c,
        t,
        occ,
    ))) by {
        if processed_attacks(bb0, rem2, ty, c, t, occ) {
            let s = choose|s: u64|
                s < 64 && #[trigger] bit_set(bb0, s) && !bit_set(rem2, s) && type_attacks(ty, c, s as int, t, occ);
            if s != s0 {
                assert(bit_set(bb0, s) && !bit_set(rem, s));
            }
        }
        if processed_attacks(bb0, rem, ty, c, t, occ) {
            let s = choose|s: u64|
                s < 64 && #[trigger] bit_set(bb0, s) && !bit_set(rem, s) && type_attacks(ty, c, s as int, t, occ);
            assert(bit_set(bb0, s) && !bit_set(rem2, s));
        }
        if bit_set(attack, t) {
            assert(bit_set(bb0, s0) && !bit_set(rem2, s0));
        }
    }
}

/// Some opposing piece other than the king attacks `t`: the king cannot give check.
pub open spec fn checked_by(v: BoardView, c: usize, t: u64, occ: u64) -> bool {
    exists|s: int|
        0 <= s < 64 && v.squares[s].0 == c && v.squares[s].1 != KING && #[trigger] type_attacks(
            v.squares[s].1,
            c,
            s,
            t,
            occ,
        )
}

/// The square of the king of color `c`.
pub open spec fn king_square_of(v: BoardView, c: usize) -> int {
    choose|k: int| is_only_king(v, c, k)
}

/// The bits of `king_bb` are the one square `ks`.
pub open spec fn single_square(king_bb: u64, ks: u64) -> bool {
    forall|t: u64| t < 64 ==> (#[trigger] bit_set(king_bb, t) <==> t == ks)
}

/// Two different squares of `bb0` that are not in `remaining` hold pieces of
/// type `ty` that attack `t`.
pub open spec fn two_processed_attacks(bb0: u64, remaining: u64, ty: usize, c: usize, t: u64, occ: u64) -> bool {
    exists|s1: u64, s2: u64|
        s1 < 64 && s2 < 64 && s1 != s2 && #[trigger] bit_set(bb0, s1) && #[trigger] bit_set(bb0, s2)
            && !bit_set(remaining, s1) && !bit_set(remaining, s2) && type_attacks(ty, c, s1 as int, t, occ)
            && type_attacks(ty, c, s2 as int, t, occ)
}

/// Two different opposing pieces other than the king attack `t`.
pub open spec fn double_checked_by(v: BoardView, c: usize, t: u64, occ: u64) -> bool {
    exists|s1: int, s2: int|
        0 <= s1 < 64 && 0 <= s2 < 64 && s1 != s2 && v.squares[s1].0 == c && v.squares[s1].1 != KING
            && v.squares[s2].0 == c && v.squares[s2].1 != KING && #[trigger] type_attacks(
            v.squares[s1].1,
            c,
            s1,
            t,
            occ,
        ) && #[trigger] type_attacks(v.squares[s2].1, c, s2, t, occ)
}

/// The squares on which a piece of type `ty` on `s` that checks the king on
/// `k` is captured or blocked: the segment up to the king for a slider, the
/// checker's own square otherwise.
pub open spec fn is_block_mask(b: u64, ty: usize, s: int, k: u64) -> bool {
    forall|u: u64|
        u < 64 ==> (#[trigger] bit_set(b, u) <==> if ty == ROOK || ty == BISHOP || ty == QUEEN {
            on_segment(s, k as int, u as int) && u != k
        } else {
            u as int == s
        })
}

/// A nonzero block mask is that of some piece that checks the king on `k`,
/// and a double check leaves no block mask.
pub open spec fn block_ok(v: BoardView, c: usize, k: u64, occ: u64, check_block: u64, double: bool) -> bool {
    &&& double ==> check_block == 0
    &&& check_block != 0 ==> exists|s: int|
        0 <= s < 64 && v.squares[s].0 == c && v.squares[s].1 != KING && #[trigger] type_attacks(
            v.squares[s].1,
            c,
            s,
            k,
            occ,
        ) && is_block_mask(check_block, v.squares[s].1, s, k)
}

/// Some opposing piece of type `ty` attacks `t`.
pub open spec fn type_checks(v: BoardView, c: usize, ty: usize, t: u64, occ: u64) -> bool {
    processed_attacks(piece_bb(v, c as int, ty as int), 0u64, ty, c, t, occ)
}

/// Two opposing pieces of type `ty` attack `t`.
pub open spec fn type_double_checks(v: BoardView, c: usize, ty: usize, t: u64, occ: u64) -> bool {
    two_processed_attacks(piece_bb(v, c as int, ty as int), 0u64, ty, c, t, occ)
}

/// Processing one more piece: a second attacker of `t` appears when the new
/// piece attacks it and an earlier one did.
proof fn lemma_two_processed_step(bb0: u64, rem: u64, rem2: u64, s0: u64, ty: usize, c: usize, t: u64, occ: u64)
    requires
        s0 < 64,
        t < 64,
        bit_set(rem, s0),
        bit_set(bb0, s0),
        forall|s: u64| s < 64 && #[trigger] bit_set(rem, s) ==> bit_set(bb0, s),
        rem2 == rem & !(1u64 << s0),
    ensures
        two_processed_attacks(bb0, rem2, ty, c, t, occ) == (two_processed_attacks(bb0, rem, ty, c, t, occ)
            || (processed_attacks(bb0, rem, ty, c, t, occ) && type_attacks(ty, c, s0 as int, t, occ))),
        two_processed_attacks(bb0, rem, ty, c, t, occ) ==> processed_attacks(bb0, rem, ty, c, t, occ),
{
    if two_processed_attacks(bb0, rem2, ty, c, t, occ) {
        let (s1, s2) = choose|s1: u64, s2: u64|
            s1 < 64 && s2 < 64 && s1 != s2 && #[trigger] bit_set(bb0, s1) && #[trigger] bit_set(bb0, s2)
                && !bit_set(rem2, s1) && !bit_set(rem2, s2) && type_attacks(ty, c, s1 as int, t, occ)
                && type_attacks(ty, c, s2 as int, t, occ);
        if s1 != s0 && s2 != s0 {
            assert(!bit_set(rem, s1) && !bit_set(rem, s2));
        } else if s1 == s0 {
            assert(bit_set(bb0, s2) && !bit_set(rem, s2));
        } else {
            assert(bit_set(bb0, s1) && !bit_set(rem, s1));
        }
    }
    if two_processed_attacks(bb0, rem, ty, c, t, occ) {
        let (s1, s2) = choose|s1: u64, s2: u64|
            s1 < 64 && s2 < 64 && s1 != s2 && #[trigger] bit_set(bb0, s1) && #[trigger] bit_set(bb0, s2)
                && !bit_set(rem, s1) && !bit_set(rem, s2) && type_attacks(ty, c, s1 as int, t, occ)
                && type_attacks(ty, c, s2 as int, t, occ);
        assert(!bit_set(rem2, s1) && !bit_set(rem2, s2));
        assert(bit_set(bb0, s1) && !bit_set(rem, s1));
    }
    if processed_attacks(bb0, rem, ty, c, t, occ) && type_attacks(ty, c, s0 as int, t, occ) {
        let s = choose|s: u64|
            s < 64 && #[trigger] bit_set(bb0, s) && !bit_set(rem, s) && type_attacks(ty, c, s as int, t, occ);
        assert(s != s0);
        assert(!bit_set(rem2, s) && !bit_set(rem2, s0));
    }
}

/// Processing one more piece adds its attacks on `t`.
proof fn lemma_processed_step(bb0: u64, rem: u64, rem2: u64, s0: u64, ty: usize, c: usize, t: u64, occ: u64)
    requires
        s0 < 64,
        t < 64,
        bit_set(rem, s0),
        bit_set(bb0, s0),
        forall|s: u64| s < 64 && #[trigger] bit_set(rem, s) ==> bit_set(bb0, s),
        rem2 == rem & !(1u64 << s0),
    ensures
        processed_attacks(bb0, rem2, ty, c, t, occ) == (processed_attacks(bb0, rem, ty, c, t, occ)
            || type_attacks(ty, c, s0 as int, t, occ)),
{
    if processed_attacks(bb0, rem2, ty, c, t, occ) {
        let s = choose|s: u64|
            s < 64 && #[trigger] bit_set(bb0, s) && !bit_set(rem2, s) && type_attacks(ty, c, s as int, t, occ);
        if s != s0 {
            assert(bit_set(bb0, s) && !bit_set(rem, s));
        }
    }
    if processed_attacks(bb0, rem, ty, c, t, occ) {
        let s = choose|s: u64|
            s < 64 && #[trigger] bit_set(bb0, s) && !bit_set(rem, s) && type_attacks(ty, c, s as int, t, occ);
        assert(bit_set(bb0, s) && !bit_set(rem2, s));
    }
    if type_attacks(ty, c, s0 as int, t, occ) {
        assert(bit_set(bb0, s0) && !bit_set(rem2, s0));
    }
}

/// A slider checks the king exactly when its attacks meet the segment to the
/// king and the squares strictly between are empty.
proof fn lemma_slider_check(
    ty: usize,
    c: usize,
    s0: u64,
    ks: u64,
    occ: u64,
    all_occ: u64,
    king_bb: u64,
    attack: u64,
    line: u64,
)
    requires
        ty == ROOK || ty == BISHOP || ty == QUEEN,
        s0 < 64,
        ks < 64,
        s0 != ks,
        single_square(king_bb, ks),
        occ == all_occ & !king_bb,
        forall|t: u64| t < 64 ==> (bit_set(attack, t) <==> type_attacks(ty, c, s0 as int, t, occ)),
        forall|u: u64| u < 64 ==> (bit_set(line, u) <==> on_segment(s0 as int, ks as int, u as int)),
    ensures
        type_attacks(ty, c, s0 as int, ks, occ) <==> ((line & !(1u64 << s0)) & attack != 0 && ((line
            & !(1u64 << s0)) & !king_bb) & !all_occ == (line & !(1u64 << s0)) & !king_bb),
{
    let x = line & !(1u64 << s0);
    let between = x & !king_bb;
    lemma_zero_iff_no_bits(x & attack);
    let empty_between = forall|u: u64| u < 64 && #[trigger] bit_set(between, u) ==> !bit_set(all_occ, u);
    assert(empty_between <==> (between & !all_occ == between)) by {
        if empty_between {
            assert forall|u: u64| u < 64 implies bit_set(between & !all_occ, u) == bit_set(between, u) by {}
            lemma_bits_ext(between & !all_occ, between);
        }
        if between & !all_occ == between {
            assert forall|u: u64| u < 64 && #[trigger] bit_set(between, u) implies !bit_set(all_occ, u) by {
                assert(bit_set(between & !all_occ, u));
            }
        }
    }
    let s = s0 as int;
    let k = ks as int;
    if type_attacks(ty, c, s, ks, occ) {
        let is_rook_line = slider_attacks(s, occ, true, ks);
        assert(slider_attacks(s, occ, is_rook_line, ks));
        assert(slider_axis(is_rook_line, s, k));
        let a: int = if is_rook_line {
            if same_axis(0, s, k) { 0 } else { 1 }
        } else {
            if same_axis(2, s, k) { 2 } else { 3 }
        };
        assert(same_axis(a, s, k) && same_axis(a, s, k));
        assert(on_segment(s, k, k));
        assert(bit_set(x & attack, ks));
        assert forall|u: u64| u < 64 && #[trigger] bit_set(between, u) implies !bit_set(all_occ, u) by {
            assert(on_segment(s, k, u as int) && u != s0 && u != ks);
            assert(!bit_set(occ, u));
        }
    }
    if x & attack != 0 && empty_between {
        let u = choose|u: u64| u < 64 && bit_set(x & attack, u);
        assert(bit_set(x & attack, u));
        assert(on_segment(s, k, u as int) && u != s0);
        let is_rook_line = slider_attacks(s, occ, true, u);
        assert(slider_attacks(s, occ, is_rook_line, u));
        let a = choose|a: int| 0 <= a < 4 && #[trigger] same_axis(a, s, k) && same_axis(a, s, u as int);
        assert(slider_axis(is_rook_line, s, k));
        assert forall|w: u64|
            w < 64 && #[trigger] on_segment(s, k, w as int) && w as int != s && w != ks implies !bit_set(occ, w) by {
            assert(bit_set(between, w));
        }
        assert(slider_attacks(s, occ, is_rook_line, ks));
    }
}

/// Some opposing piece of each type checks the king on `k`: the king is in
/// check exactly when one type does, and in double check exactly when two
/// pieces do, of one type or of two.
#[verifier::spinoff_prover]
#[verifier::rlimit(100)]
proof fn lemma_check_summary(v: BoardView, o: usize, ks: u64, occ: u64)
    requires
        consistent(v),
        o < 2,
        ks < 64,
    ensures
        (type_checks(v, o, PAWN, ks, occ) || type_checks(v, o, KNIGHT, ks, occ) || type_checks(v, o, BISHOP, ks, occ)
            || type_checks(v, o, ROOK, ks, occ) || type_checks(v, o, QUEEN, ks, occ)) <==> checked_by(v, o, ks, occ),
        ({
            let p1 = type_checks(v, o, PAWN, ks, occ);
            let n1 = type_checks(v, o, KNIGHT, ks, occ);
            let b1 = type_checks(v, o, BISHOP, ks, occ);
            let r1 = type_checks(v, o, ROOK, ks, occ);
            let q1 = type_checks(v, o, QUEEN, ks, occ);
            (type_double_checks(v, o, PAWN, ks, occ) || type_double_checks(v, o, KNIGHT, ks, occ)
                || type_double_checks(v, o, BISHOP, ks, occ) || type_double_checks(v, o, ROOK, ks, occ)
                || type_double_checks(v, o, QUEEN, ks, occ) || (p1 && (n1 || b1 || r1 || q1)) || (n1 && (b1
                || r1 || q1)) || (b1 && (r1 || q1)) || (r1 && q1)) <==> double_checked_by(v, o, ks, occ)
        }),
{
    let tys = seq![PAWN, KNIGHT, BISHOP, ROOK, QUEEN];
    assert(tys[0] == PAWN && tys[1] == KNIGHT && tys[2] == BISHOP && tys[3] == ROOK && tys[4] == QUEEN);
    if checked_by(v, o, ks, occ) {
        let s = choose|s: int|
            0 <= s < 64 && v.squares[s].0 == o && v.squares[s].1 != KING && #[trigger] type_attacks(
                v.squares[s].1,
                o,
                s,
                ks,
                occ,
            );
        let ty = v.squares[s].1;
        assert(square_ok(v.squares[s]));
        assert(bit_set(bb_at(v.pieces, o as int, ty as int), s as u64) == (v.squares[s] == (o, ty)));
        assert(bit_set(piece_bb(v, o as int, ty as int), s as u64) && !bit_set(0u64, s as u64));
    }
    assert forall|j: int| 0 <= j < 5 && processed_attacks(
        piece_bb(v, o as int, tys[j] as int),
        0u64,
        tys[j],
        o,
        ks,
        occ,
    ) implies checked_by(v, o, ks, occ) by {
        let ty = tys[j];
        let s = choose|s: u64|
            s < 64 && #[trigger] bit_set(piece_bb(v, o as int, ty as int), s) && !bit_set(0u64, s)
                && type_attacks(ty, o, s as int, ks, occ);
        assert(bit_set(bb_at(v.pieces, o as int, ty as int), s) == (v.squares[s as int] == (o, ty)));
        assert(type_attacks(v.squares[s as int].1, o, s as int, ks, occ));
    }
    assert forall|j: int| 0 <= j < 5 && type_double_checks(v, o, tys[j], ks, occ) implies double_checked_by(
        v,
        o,
        ks,
        occ,
    ) by {
        let ty = tys[j];
        let (s1, s2) = choose|s1: u64, s2: u64|
            s1 < 64 && s2 < 64 && s1 != s2 && #[trigger] bit_set(piece_bb(v, o as int, ty as int), s1)
                && #[trigger] bit_set(piece_bb(v, o as int, ty as int), s2) && !bit_set(0u64, s1)
                && !bit_set(0u64, s2) && type_attacks(ty, o, s1 as int, ks, occ) && type_attacks(
                ty,
                o,
                s2 as int,
                ks,
                occ,
            );
        assert(bit_set(bb_at(v.pieces, o as int, ty as int), s1) == (v.squares[s1 as int] == (o, ty)));
        assert(bit_set(bb_at(v.pieces, o as int, ty as int), s2) == (v.squares[s2 as int] == (o, ty)));
        assert(type_attacks(v.squares[s1 as int].1, o, s1 as int, ks, occ));
        assert(type_attacks(v.squares[s2 as int].1, o, s2 as int, ks, occ));
    }
    assert forall|i: int, j: int|
        0 <= i < 5 && 0 <= j < 5 && i != j && type_checks(v, o, tys[i], ks, occ) && type_checks(
            v,
            o,
            tys[j],
            ks,
            occ,
        ) implies double_checked_by(v, o, ks, occ) by {
        let t1 = tys[i];
        let t2 = tys[j];
        let s1 = choose|s: u64|
            s < 64 && #[trigger] bit_set(piece_bb(v, o as int, t1 as int), s) && !bit_set(0u64, s)
                && type_attacks(t1, o, s as int, ks, occ);
        let s2 = choose|s: u64|
            s < 64 && #[trigger] bit_set(piece_bb(v, o as int, t2 as int), s) && !bit_set(0u64, s)
                && type_attacks(t2, o, s as int, ks, occ);
        assert(bit_set(bb_at(v.pieces, o as int, t1 as int), s1) == (v.squares[s1 as int] == (o, t1)));
        assert(bit_set(bb_at(v.pieces, o as int, t2 as int), s2) == (v.squares[s2 as int] == (o, t2)));
        assert(type_attacks(v.squares[s1 as int].1, o, s1 as int, ks, occ));
        assert(type_attacks(v.squares[s2 as int].1, o, s2 as int, ks, occ));
    }
    if double_checked_by(v, o, ks, occ) {
        let (s1, s2) = choose|s1: int, s2: int|
            0 <= s1 < 64 && 0 <= s2 < 64 && s1 != s2 && v.squares[s1].0 == o && v.squares[s1].1 != KING
                && v.squares[s2].0 == o && v.squares[s2].1 != KING && #[trigger] type_attacks(
                v.squares[s1].1,
                o,
                s1,
                ks,
                occ,
            ) && #[trigger] type_attacks(v.squares[s2].1, o, s2, ks, occ);
        let t1 = v.squares[s1].1;
        let t2 = v.squares[s2].1;
        assert(square_ok(v.squares[s1]) && square_ok(v.squares[s2]));
        assert(bit_set(bb_at(v.pieces, o as int, t1 as int), s1 as u64) == (v.squares[s1] == (o, t1)));
        assert(bit_set(bb_at(v.pieces, o as int, t2 as int), s2 as u64) == (v.squares[s2] == (o, t2)));
        assert(bit_set(piece_bb(v, o as int, t1 as int), s1 as u64) && !bit_set(0u64, s1 as u64));
        assert(bit_set(piece_bb(v, o as int, t2 as int), s2 as u64) && !bit_set(0u64, s2 as u64));
        assert(type_checks(v, o, t1, ks, occ));
        assert(type_checks(v, o, t2, ks, occ));
        if t1 == t2 {
            assert(type_double_checks(v, o, t1, ks, occ));
        }
    }

}

/// Every piece on the board.
pub open spec fn full_occupancy(v: BoardView) -> u64 {
    piece_bb(v, 0, 0) | piece_bb(v, 1, 0)
}

/// Returns whether a piece of type `piece_type` and color `color` on `square`
/// attacks `target` when the occupancy is `occ`.
pub fn piece_attacks(data: &PrecomputedData, piece_type: usize, color: usize, square: usize, target: usize, occ: u64) -> (r: bool)
    requires
        data.wf(),
        square < 64,
        target < 64,
    ensures
        r == type_attacks(piece_type, color, square as int, target as u64, occ),
{
    let t = target as u64;
    if piece_type == KING {
        bit_set_exec(data.square_data.get_bb_for_king(square), target)
    } else if piece_type == PAWN {
        proof {
            lemma_pawn_geometry(color, square as int, target as int);
        }
        if color == WHITE {
            (target == square + 9 && square % 8 != 7) || (target == square + 7 && square % 8 != 0)
        } else {
            (square >= 9 && target == square - 9 && square % 8 != 0) || (square >= 7 && target == square - 7
                && square % 8 != 7)
        }
    } else if piece_type == KNIGHT {
        bit_set_exec(data.square_data.get_bb_for_knight(square), target)
    } else if piece_type == BISHOP {
        bit_set_exec(data.bishop_table.get_pseudo_legal_move_bb(square, occ), target)
    } else if piece_type == ROOK {
        bit_set_exec(data.rook_table.get_pseudo_legal_move_bb(square, occ), target)
    } else if piece_type == QUEEN {
        bit_set_exec(data.rook_table.get_pseudo_legal_move_bb(square, occ), target) || bit_set_exec(
            data.bishop_table.get_pseudo_legal_move_bb(square, occ),
            target,
        )
    } else {
        false
    }
}

fn bit_set_exec(b: u64, s: usize) -> (r: bool)
    requires
        s < 64,
    ensures
        r == bit_set(b, s as u64),
{
    (b >> s as u64) & 1 == 1
}

/// Returns whether some piece of color `by` attacks `square`, every piece of
/// the board blocking the sliders.
pub fn is_square_attacked(board: &Board, data: &PrecomputedData, square: usize, by: usize) -> (r: bool)
    requires
        consistent(board@),
        data.wf(),
        square < 64,
    ensures
        r == attacked_by(board@, by, square as u64, full_occupancy(board@)),
{
    let ghost v = board@;
    let occ = board.get_all_occupied_squares();
    let mut s: usize = 0;
    while s < 64
        invariant
            consistent(board@),
            v == board@,
            data.wf(),
            square < 64,
            occ == full_occupancy(v),
            s <= 64,
            forall|j: int|
                0 <= j < s ==> !(v.squares[j].0 == by && #[trigger] type_attacks(
                    v.squares[j].1,
                    by,
                    j,
                    square as u64,
                    occ,
                )),
        decreases 64 - s,
    {
        let (c, t) = board.get_piece_on_square(s);
        if c == by && piece_attacks(data, t, by, s, square, occ) {
            return true;
        }
        s += 1;
    }
    false
}

/// `u` is the only piece strictly between an opposing slider on axis `a`
/// through the king on `k` and that king.
pub open spec fn pinned_on_axis(v: BoardView, o: usize, k: u64, a: int, u: u64) -> bool {
    exists|s: int|
        0 <= s < 64 && v.squares[s].0 == o && (v.squares[s].1 == ROOK || v.squares[s].1 == BISHOP
            || v.squares[s].1 == QUEEN) && #[trigger] same_axis(a, s, k as int) && on_segment(
            s,
            k as int,
            u as int,
        ) && u as int != s && u != k && v.squares[u as int].1 != NONE && forall|w: int|
            0 <= w < 64 && on_segment(s, k as int, w) && w != s && w != k && w != u
                ==> v.squares[w].1 == NONE
}

/// Every recorded pin is real.
pub open spec fn pins_ok(v: BoardView, o: usize, k: u64, pins: Seq<u64>) -> bool {
    &&& pins.len() == 4
    &&& forall|a: int, u: u64| 0 <= a < 4 && u < 64 && #[trigger] bit_set(pins[a], u) ==> pinned_on_axis(v, o, k, a, u)
}

proof fn lemma_popcount_below(x: u64, n: nat)
    requires
        n <= 64,
    ensures
        popcount_below(x, n) == 0 ==> forall|w: u64| w < n ==> !#[trigger] bit_set(x, w),
        popcount_below(x, n) == 1 ==> exists|u: u64|
            u < n && bit_set(x, u) && forall|w: u64| w < n && #[trigger] bit_set(x, w) ==> w == u,
    decreases n,
{
    if n > 0 {
        lemma_popcount_below(x, (n - 1) as nat);
        if popcount_below(x, n) == 1 && !bit_set(x, (n - 1) as u64) {
            let u = choose|u: u64|
                u < n - 1 && bit_set(x, u) && forall|w: u64| w < n - 1 && #[trigger] bit_set(x, w) ==> w == u;
            assert forall|w: u64| w < n && #[trigger] bit_set(x, w) implies w == u by {}
        }
        if popcount_below(x, n) == 1 && bit_set(x, (n - 1) as u64) {
            let u = (n - 1) as u64;
            assert forall|w: u64| w < n && #[trigger] bit_set(x, w) implies w == u by {
                if w < n - 1 {
                    assert(!bit_set(x, w));
                }
            }
        }
    }
}

/// Two different lines through `s` meet only at `s`.
proof fn lemma_axes_meet_once(a: int, b: int, s: int, u: int)
    requires
        0 <= a < 4,
        0 <= b < 4,
        0 <= s < 64,
        0 <= u < 64,
        a != b,
        same_axis(a, s, u),
        same_axis(b, s, u),
    ensures
        u == s,
{
    assert(s == 8 * (s / 8) + s % 8 && u == 8 * (u / 8) + u % 8);
}

/// A square on the segment from `s` to `k`, other than `s`, lies on the
/// segment's own line: every axis through `s` and that square holds `k`.
proof fn lemma_segment_axis(a: int, s: int, k: int, w: int)
    requires
        0 <= a < 4,
        0 <= s < 64,
        0 <= k < 64,
        0 <= w < 64,
        w != s,
        on_segment(s, k, w),
    ensures
        same_axis(a, s, w) <==> same_axis(a, s, k),
{
    let b = choose|b: int| 0 <= b < 4 && #[trigger] same_axis(b, s, k) && same_axis(b, s, w);
    if same_axis(a, s, w) && a != b {
        lemma_axes_meet_once(a, b, s, w);
    }
    if same_axis(a, s, k) && a != b {
        lemma_axes_meet_once(a, b, s, k);
    }
}

/// What the side not to move does to the side to move: attacked squares,
/// squares that resolve a single check, pins per axis, double check, and the
/// square of a pawn whose en-passant capture would expose its king on a rank.
pub struct AttackCalculator {
    /// Squares attacked by the opponent, seen through the friendly king.
    pub squares_in_attack_bb: u64,
    /// In single check: the checker's square, or the line from a sliding
    /// checker to the king; otherwise 0.
    pub check_block_bb: u64,
    /// Friendly pieces pinned along the file, rank, diagonal and anti-diagonal.
    pub pins_bbs: [u64; 4],
    /// The pawn that may not capture en passant, or `INVALID_SQUARE`.
    pub forbidden_en_passant_square: usize,
    pub is_in_double_check: bool,
}

impl AttackCalculator {
    /// The forbidden en-passant square is a square or `INVALID_SQUARE`.
    pub open spec fn wf(&self) -> bool {
        self.forbidden_en_passant_square <= INVALID_SQUARE
    }

    /// A check has been found: one checker leaves its block mask, a second
    /// one the double-check flag.
    pub open spec fn in_check_state(&self) -> bool {
        self.check_block_bb != 0 || self.is_in_double_check
    }

    /// Analyses the position for the side to move. The attacked squares are
    /// exactly those that some opposing piece attacks when the king of the
    /// side to move is taken off the board.
    pub fn new(board: &Board, data: &PrecomputedData) -> (r: Self)
        requires
            view_wf(board@),
            data.wf(),
        ensures
            r.wf(),
            pins_ok(
                board@,
                (1 - board@.color) as usize,
                king_square_of(board@, board@.color) as u64,
                r.pins_bbs@,
            ),
            r.in_check_state() <==> checked_by(
                board@,
                (1 - board@.color) as usize,
                king_square_of(board@, board@.color) as u64,
                occupancy_without_king(board@),
            ),
            r.is_in_double_check <==> double_checked_by(
                board@,
                (1 - board@.color) as usize,
                king_square_of(board@, board@.color) as u64,
                occupancy_without_king(board@),
            ),
            block_ok(
                board@,
                (1 - board@.color) as usize,
                king_square_of(board@, board@.color) as u64,
                occupancy_without_king(board@),
                r.check_block_bb,
                r.is_in_double_check,
            ),
            forall|t: u64|
                t < 64 ==> (bit_set(r.squares_in_attack_bb, t) <==> attacked_by(
                    board@,
                    (1 - board@.color) as usize,
                    t,
                    occupancy_without_king(board@),
                )),
    {
        let mut attack_calculator = AttackCalculator {
            squares_in_attack_bb: 0,
            check_block_bb: 0,
            pins_bbs: [0, 0, 0, 0],
            forbidden_en_passant_square: INVALID_SQUARE,
            is_in_double_check: false,
        };
        assert(attack_calculator.pins_bbs@ =~= seq![0u64, 0u64, 0u64, 0u64]);
        attack_calculator.calculate_attacks_and_checks(board, data);
        attack_calculator
    }

    /// Returns true when the side to move is in check.
    pub fn in_check(&self) -> (r: bool)
        ensures
            r == (self.check_block_bb != 0 || self.is_in_double_check),
    {
        self.check_block_bb != 0 || self.is_in_double_check
    }

    fn add_pin_square_from_bb(&mut self, bitboard: u64, pin_index: usize)
        requires
            pin_index < 4,
        ensures
            final(self).squares_in_attack_bb == old(self).squares_in_attack_bb,
            final(self).check_block_bb == old(self).check_block_bb,
            final(self).forbidden_en_passant_square == old(self).forbidden_en_passant_square,
            final(self).is_in_double_check == old(self).is_in_double_check,
            final(self).pins_bbs@ == old(self).pins_bbs@.update(
                pin_index as int,
                old(self).pins_bbs@[pin_index as int] | bitboard,
            ),
    {
        let p = self.pins_bbs;
        let b = p[pin_index] | bitboard;
        self.pins_bbs = [
            if pin_index == 0 { b } else { p[0] },
            if pin_index == 1 { b } else { p[1] },
            if pin_index == 2 { b } else { p[2] },
            if pin_index == 3 { b } else { p[3] },
        ];
        assert(self.pins_bbs@ =~= p@.update(pin_index as int, b));
    }

    /// Records a new checker: the first sets `check_block_bb`, a second makes
    /// it a double check.
    fn add_check(&mut self, block_bb: u64)
        requires
            old(self).wf(),
        ensures
            final(self).wf(),
            final(self).squares_in_attack_bb == old(self).squares_in_attack_bb,
            block_bb != 0 ==> final(self).in_check_state(),
            final(self).is_in_double_check == (old(self).is_in_double_check || old(self).check_block_bb
                != 0),
            old(self).check_block_bb != 0 ==> final(self).check_block_bb == 0,
            old(self).check_block_bb == 0 ==> final(self).check_block_bb == block_bb,
            final(self).pins_bbs == old(self).pins_bbs,
    {
        if self.check_block_bb != 0 {
            self.check_block_bb = 0;
            self.is_in_double_check = true;
        } else {
            assert(0u64 | block_bb == block_bb) by (bit_vector);
            self.check_block_bb = self.check_block_bb | block_bb;
        }
    }

    #[verifier::spinoff_prover]
    #[verifier::rlimit(100)]
    fn calculate_attacks_and_checks(&mut self, board: &Board, data: &PrecomputedData)
        requires
            view_wf(board@),
            data.wf(),
            old(self).wf(),
            old(self).squares_in_attack_bb == 0,
            !old(self).in_check_state(),
            old(self).pins_bbs@ == seq![0u64, 0u64, 0u64, 0u64],
        ensures
            final(self).wf(),
            pins_ok(
                board@,
                (1 - board@.color) as usize,
                king_square_of(board@, board@.color) as u64,
                final(self).pins_bbs@,
            ),
            final(self).in_check_state() <==> checked_by(
                board@,
                (1 - board@.color) as usize,
                king_square_of(board@, board@.color) as u64,
                occupancy_without_king(board@),
            ),
            final(self).is_in_double_check <==> double_checked_by(
                board@,
                (1 - board@.color) as usize,
                king_square_of(board@, board@.color) as u64,
                occupancy_without_king(board@),
            ),
            block_ok(
                board@,
                (1 - board@.color) as usize,
                king_square_of(board@, board@.color) as u64,
                occupancy_without_king(board@),
                final(self).check_block_bb,
                final(self).is_in_double_check,
            ),
            forall|t: u64|
                t < 64 ==> (bit_set(final(self).squares_in_attack_bb, t) <==> attacked_by(
                    board@,
                    (1 - board@.color) as usize,
                    t,
                    occupancy_without_king(board@),
                )),
    {
        let ghost v = board@;
        let current_color = board.get_current_color();
        let opposite_color = board.get_opposite_color();
        let king_square = board.get_king_square(current_color);
        let king_bb = board.get_piece_bitboard(current_color, KING);
        let not_king_bb = !king_bb;
        let all_occupied_squares = board.get_all_occupied_squares();
        let all_occupied_squares_without_king = all_occupied_squares & not_king_bb;
        let ghost occ = all_occupied_squares_without_king;
        assert(occ == occupancy_without_king(v));
        let en_passant_rank_mask = get_en_passant_rank_mask(opposite_color);
        let current_pawn_bb = board.get_piece_bitboard(current_color, PAWN);
        let opposite_pawn_bb = board.get_piece_bitboard(opposite_color, PAWN);
        let ghost a0 = self.squares_in_attack_bb;
        self.calculate_king(board, data, opposite_color, Ghost(occ));
        let ghost a1 = self.squares_in_attack_bb;
        proof {
            assert forall|t: u64| t < 64 implies (#[trigger] bit_set(king_bb, t) <==> t == king_square as u64) by {
                assert(bit_set(bb_at(v.pieces, current_color as int, 1), t) == (v.squares[t as int] == (current_color, 1usize)));
            }
        }
        let ghost ks = king_square as u64;
        proof {
            assert forall|s: u64| s < 64 && #[trigger] bit_set(opposite_pawn_bb, s) implies v.squares[s as int] == (opposite_color, PAWN) by {
                assert(bit_set(bb_at(v.pieces, opposite_color as int, 2), s) == (v.squares[s as int] == (opposite_color, 2usize)));
            }
        }
        self.calculate_pawns(opposite_color, king_bb, opposite_pawn_bb, Ghost(occ), Ghost(ks), Ghost(v));
        let ghost a2 = self.squares_in_attack_bb;
        self.calculate_knights(board, data, opposite_color, king_bb, Ghost(occ), Ghost(ks));
        let ghost a3 = self.squares_in_attack_bb;
        self.calculate_sliders(
            board,
            data,
            opposite_color,
            all_occupied_squares,
            king_square,
            not_king_bb,
            all_occupied_squares_without_king,
            en_passant_rank_mask,
            current_pawn_bb,
            opposite_pawn_bb,
        );
        proof {
            let o = opposite_color;
            assert forall|t: u64| t < 64 implies (bit_set(self.squares_in_attack_bb, t)
                <==> attacked_by(v, o, t, occ)) by {
                assert(!bit_set(a0, t));
                if attacked_by(v, o, t, occ) {
                    let s = choose|s: int|
                        0 <= s < 64 && v.squares[s].0 == o && #[trigger] type_attacks(v.squares[s].1, o, s, t, occ);
                    let ty = v.squares[s].1;
                    assert(square_ok(v.squares[s]));
                    assert(bit_set(bb_at(v.pieces, o as int, ty as int), s as u64) == (v.squares[s] == (o, ty)));
                }
                let tys = seq![KING, PAWN, KNIGHT, BISHOP, ROOK, QUEEN];
                assert forall|k: int| 0 <= k < 6 && processed_attacks(
                    piece_bb(v, o as int, tys[k] as int),
                    0u64,
                    tys[k],
                    o,
                    t,
                    occ,
                ) implies attacked_by(v, o, t, occ) by {
                    let ty = tys[k];
                    let s = choose|s: u64|
                        s < 64 && #[trigger] bit_set(piece_bb(v, o as int, ty as int), s) && !bit_set(0u64, s)
                            && type_attacks(ty, o, s as int, t, occ);
                    assert(bit_set(bb_at(v.pieces, o as int, ty as int), s) == (v.squares[s as int] == (o, ty)));
                    assert(type_attacks(v.squares[s as int].1, o, s as int, t, occ));
                }
                assert(tys[0] == KING && tys[1] == PAWN && tys[2] == KNIGHT && tys[3] == BISHOP && tys[4] == ROOK && tys[5] == QUEEN);
            }
            let k = king_square_of(v, current_color);
            assert(is_only_king(v, current_color, k)) by {
                assert(is_only_king(v, current_color, king_square as int));
            }
            assert(k == king_square as int);
            lemma_check_summary(v, o, ks, occ);
        }
    }

    #[verifier::spinoff_prover]
    #[verifier::rlimit(100)]
    fn calculate_king(&mut self, board: &Board, data: &PrecomputedData, opposite_color: usize, occ: Ghost<u64>)
        requires
            view_wf(board@),
            data.wf(),
            opposite_color < 2,
            old(self).wf(),
        ensures
            final(self).wf(),
            final(self).pins_bbs == old(self).pins_bbs,
            forall|t: u64|
                t < 64 ==> (bit_set(final(self).squares_in_attack_bb, t) <==> (bit_set(
                    old(self).squares_in_attack_bb,
                    t,
                ) || processed_attacks(
                    piece_bb(board@, opposite_color as int, KING as int),
                    0u64,
                    KING,
                    opposite_color,
                    t,
                    occ@,
                ))),
            final(self).check_block_bb == old(self).check_block_bb,
            final(self).is_in_double_check == old(self).is_in_double_check,
    {
        let ghost v = board@;
        let king_square = board.get_king_square(opposite_color);
        let attack_bb = data.square_data.get_bb_for_king(king_square);
        let ghost att = self.squares_in_attack_bb;
        self.squares_in_attack_bb = self.squares_in_attack_bb | attack_bb;
        proof {
            let kb = piece_bb(v, opposite_color as int, KING as int);
            assert forall|t: u64| t < 64 implies (bit_set(self.squares_in_attack_bb, t) <==> (bit_set(
                att,
                t,
            ) || processed_attacks(kb, 0u64, KING, opposite_color, t, occ@))) by {
                assert(bit_set(bb_at(v.pieces, opposite_color as int, 1), king_square as u64) == (v.squares[king_square as int] == (opposite_color, 1usize)));
                if processed_attacks(kb, 0u64, KING, opposite_color, t, occ@) {
                    let s = choose|s: u64|
                        s < 64 && #[trigger] bit_set(kb, s) && !bit_set(0u64, s) && type_attacks(KING, opposite_color, s as int, t, occ@);
                    assert(bit_set(bb_at(v.pieces, opposite_color as int, 1), s) == (v.squares[s as int] == (opposite_color, 1usize)));
                }
            }
        }
    }

    #[verifier::spinoff_prover]
    #[verifier::rlimit(100)]
    fn calculate_pawns(&mut self, opposite_color: usize, king_bb: u64, pawn_bb: u64, occ: Ghost<u64>, ks: Ghost<u64>, v: Ghost<BoardView>)
        requires
            old(self).wf(),
            forall|s: u64| s < 64 && #[trigger] bit_set(pawn_bb, s) ==> v@.squares[s as int] == (opposite_color, PAWN),
            block_ok(v@, opposite_color, ks@, occ@, old(self).check_block_bb, old(self).is_in_double_check),
            opposite_color < 2,
            ks@ < 64,
            single_square(king_bb, ks@),
        ensures
            final(self).wf(),
            final(self).pins_bbs == old(self).pins_bbs,
            final(self).in_check_state() == (old(self).in_check_state() || processed_attacks(
                pawn_bb,
                0u64,
                PAWN,
                opposite_color,
                ks@,
                occ@,
            )),
            final(self).is_in_double_check == (old(self).is_in_double_check || (old(self).in_check_state()
                && processed_attacks(pawn_bb, 0u64, PAWN, opposite_color, ks@, occ@))
                || two_processed_attacks(pawn_bb, 0u64, PAWN, opposite_color, ks@, occ@)),
            block_ok(v@, opposite_color, ks@, occ@, final(self).check_block_bb, final(self).is_in_double_check),
            forall|t: u64|
                t < 64 ==> (bit_set(final(self).squares_in_attack_bb, t) <==> (bit_set(
                    old(self).squares_in_attack_bb,
                    t,
                ) || processed_attacks(pawn_bb, 0u64, PAWN, opposite_color, t, occ@))),
    {
        let pawn_attack_shift_offset_1 = get_pawn_attack_shift_offset_1(opposite_color);
        let pawn_attack_shift_offset_2 = get_pawn_attack_shift_offset_2(opposite_color);
        let mask_1 = get_relevant_pawn_attacks_mask_1(opposite_color);
        let mask_2 = get_relevant_pawn_attacks_mask_2(opposite_color);
        let attacked_squares_1 = shift_bb(pawn_bb & mask_1, pawn_attack_shift_offset_1);
        let attacked_squares_2 = shift_bb(pawn_bb & mask_2, pawn_attack_shift_offset_2);
        let ghost att = self.squares_in_attack_bb;
        self.squares_in_attack_bb = self.squares_in_attack_bb | attacked_squares_1
            | attacked_squares_2;
        proof {
            assert forall|t: u64| t < 64 implies (bit_set(self.squares_in_attack_bb, t) <==> (bit_set(
                att,
                t,
            ) || processed_attacks(pawn_bb, 0u64, PAWN, opposite_color, t, occ@))) by {
                if processed_attacks(pawn_bb, 0u64, PAWN, opposite_color, t, occ@) {
                    let s = choose|s: u64|
                        s < 64 && #[trigger] bit_set(pawn_bb, s) && !bit_set(0u64, s) && type_attacks(PAWN, opposite_color, s as int, t, occ@);
                    lemma_pawn_geometry(opposite_color, s as int, t as int);
                    lemma_file_masks(s);
                }
                if t - pawn_attack_shift_offset_1 >= 0 && t - pawn_attack_shift_offset_1 < 64 {
                    let s = (t - pawn_attack_shift_offset_1) as u64;
                    lemma_file_masks(s);
                    lemma_pawn_geometry(opposite_color, s as int, t as int);
                    if bit_set(attacked_squares_1, t) {
                        assert(bit_set(pawn_bb, s) && !bit_set(0u64, s) && type_attacks(PAWN, opposite_color, s as int, t, occ@));
                    }
                }
                if t - pawn_attack_shift_offset_2 >= 0 && t - pawn_attack_shift_offset_2 < 64 {
                    let s = (t - pawn_attack_shift_offset_2) as u64;
                    lemma_file_masks(s);
                    lemma_pawn_geometry(opposite_color, s as int, t as int);
                    if bit_set(attacked_squares_2, t) {
                        assert(bit_set(pawn_bb, s) && !bit_set(0u64, s) && type_attacks(PAWN, opposite_color, s as int, t, occ@));
                    }
                }
            }
        }
        proof {
            let k = ks@;
            lemma_zero_iff_no_bits(attacked_squares_1 & king_bb);
            lemma_zero_iff_no_bits(attacked_squares_2 & king_bb);
            assert(bit_set(attacked_squares_1 & king_bb, k) == bit_set(attacked_squares_1, k));
            assert(bit_set(attacked_squares_2 & king_bb, k) == bit_set(attacked_squares_2, k));
            assert(forall|u: u64| u < 64 && bit_set(attacked_squares_1 & king_bb, u) ==> u == k);
            assert(forall|u: u64| u < 64 && bit_set(attacked_squares_2 & king_bb, u) ==> u == k);
            assert(bit_set(self.squares_in_attack_bb, k) == (bit_set(att, k) || processed_attacks(pawn_bb, 0u64, PAWN, opposite_color, k, occ@)));
            assert((attacked_squares_1 & king_bb != 0 || attacked_squares_2 & king_bb != 0) == processed_attacks(
                pawn_bb,
                0u64,
                PAWN,
                opposite_color,
                k,
                occ@,
            )) by {
                if processed_attacks(pawn_bb, 0u64, PAWN, opposite_color, k, occ@) {
                    let s = choose|s: u64|
                        s < 64 && #[trigger] bit_set(pawn_bb, s) && !bit_set(0u64, s) && type_attacks(PAWN, opposite_color, s as int, k, occ@);
                    lemma_pawn_geometry(opposite_color, s as int, k as int);
                    lemma_file_masks(s);
                }
                if k - pawn_attack_shift_offset_1 >= 0 && k - pawn_attack_shift_offset_1 < 64 {
                    let s = (k - pawn_attack_shift_offset_1) as u64;
                    lemma_file_masks(s);
                    lemma_pawn_geometry(opposite_color, s as int, k as int);
                    if bit_set(attacked_squares_1, k) {
                        assert(bit_set(pawn_bb, s) && !bit_set(0u64, s) && type_attacks(PAWN, opposite_color, s as int, k, occ@));
                    }
                }
                if k - pawn_attack_shift_offset_2 >= 0 && k - pawn_attack_shift_offset_2 < 64 {
                    let s = (k - pawn_attack_shift_offset_2) as u64;
                    lemma_file_masks(s);
                    lemma_pawn_geometry(opposite_color, s as int, k as int);
                    if bit_set(attacked_squares_2, k) {
                        assert(bit_set(pawn_bb, s) && !bit_set(0u64, s) && type_attacks(PAWN, opposite_color, s as int, k, occ@));
                    }
                }
            }
        }
        proof {
            let k = ks@;
            let o1 = pawn_attack_shift_offset_1;
            let o2 = pawn_attack_shift_offset_2;
            assert((attacked_squares_1 & king_bb != 0) == bit_set(attacked_squares_1, k));
            assert((attacked_squares_2 & king_bb != 0) == bit_set(attacked_squares_2, k));
            if two_processed_attacks(pawn_bb, 0u64, PAWN, opposite_color, k, occ@) {
                let (s1, s2) = choose|s1: u64, s2: u64|
                    s1 < 64 && s2 < 64 && s1 != s2 && #[trigger] bit_set(pawn_bb, s1) && #[trigger] bit_set(pawn_bb, s2)
                        && !bit_set(0u64, s1) && !bit_set(0u64, s2) && type_attacks(PAWN, opposite_color, s1 as int, k, occ@)
                        && type_attacks(PAWN, opposite_color, s2 as int, k, occ@);
                lemma_pawn_geometry(opposite_color, s1 as int, k as int);
                lemma_pawn_geometry(opposite_color, s2 as int, k as int);
                lemma_file_masks(s1);
                lemma_file_masks(s2);
                assert(bit_set(attacked_squares_1, k) && bit_set(attacked_squares_2, k));
            }
            if bit_set(attacked_squares_1, k) && bit_set(attacked_squares_2, k) {
                let s1 = (k - o1) as u64;
                let s2 = (k - o2) as u64;
                lemma_pawn_geometry(opposite_color, s1 as int, k as int);
                lemma_pawn_geometry(opposite_color, s2 as int, k as int);
                lemma_file_masks(s1);
                lemma_file_masks(s2);
                assert(bit_set(pawn_bb, s1) && bit_set(pawn_bb, s2) && !bit_set(0u64, s1) && !bit_set(0u64, s2));
                assert(type_attacks(PAWN, opposite_color, s1 as int, k, occ@) && type_attacks(PAWN, opposite_color, s2 as int, k, occ@));
            }
        }
        if self.is_in_double_check {
            return ;
        }
        if attacked_squares_1 & king_bb != 0 {
            if self.check_block_bb != 0 {
                self.check_block_bb = 0;
                self.is_in_double_check = true;
                return ;
            }
            let check_pawn_bit = shift_bb(king_bb, -pawn_attack_shift_offset_1);
            proof {
                let k = ks@;
                assert(bit_set(attacked_squares_1, k));
                let ps = (k - pawn_attack_shift_offset_1) as u64;
                assert(bit_set(check_pawn_bit, ps));
                assert(bit_set(self.check_block_bb | check_pawn_bit, ps));
                assert(bit_set(0u64, ps) == false);
                assert(0u64 | check_pawn_bit == check_pawn_bit) by (bit_vector);
                lemma_pawn_geometry(opposite_color, ps as int, k as int);
                lemma_file_masks(ps);
                assert(bit_set(pawn_bb, ps));
                assert(type_attacks(v@.squares[ps as int].1, opposite_color, ps as int, k, occ@));
                assert(is_block_mask(check_pawn_bit, PAWN, ps as int, k));
            }
            self.check_block_bb = self.check_block_bb | check_pawn_bit;
        }
        if attacked_squares_2 & king_bb != 0 {
            if self.check_block_bb != 0 {
                self.check_block_bb = 0;
                self.is_in_double_check = true;
                return ;
            }
            let check_pawn_bit = shift_bb(king_bb, -pawn_attack_shift_offset_2);
            proof {
                let k = ks@;
                assert(bit_set(attacked_squares_2, k));
                let ps = (k - pawn_attack_shift_offset_2) as u64;
                assert(bit_set(check_pawn_bit, ps));
                assert(bit_set(self.check_block_bb | check_pawn_bit, ps));
                assert(bit_set(0u64, ps) == false);
                assert(0u64 | check_pawn_bit == check_pawn_bit) by (bit_vector);
                lemma_pawn_geometry(opposite_color, ps as int, k as int);
                lemma_file_masks(ps);
                assert(bit_set(pawn_bb, ps));
                assert(type_attacks(v@.squares[ps as int].1, opposite_color, ps as int, k, occ@));
                assert(is_block_mask(check_pawn_bit, PAWN, ps as int, k));
            }
            self.check_block_bb = self.check_block_bb | check_pawn_bit;
        }
    }

    #[verifier::spinoff_prover]
    #[verifier::rlimit(100)]
    fn calculate_knights(&mut self, board: &Board, data: &PrecomputedData, opposite_color: usize, king_bb: u64, occ: Ghost<u64>, ks: Ghost<u64>)
        requires
            view_wf(board@),
            data.wf(),
            opposite_color < 2,
            old(self).wf(),
            ks@ < 64,
            single_square(king_bb, ks@),
            block_ok(board@, opposite_color, ks@, occ@, old(self).check_block_bb, old(self).is_in_double_check),
        ensures
            final(self).wf(),
            final(self).pins_bbs == old(self).pins_bbs,
            block_ok(board@, opposite_color, ks@, occ@, final(self).check_block_bb, final(self).is_in_double_check),
            final(self).in_check_state() == (old(self).in_check_state() || processed_attacks(
                piece_bb(board@, opposite_color as int, KNIGHT as int),
                0u64,
                KNIGHT,
                opposite_color,
                ks@,
                occ@,
            )),
            final(self).is_in_double_check == (old(self).is_in_double_check || (old(self).in_check_state()
                && processed_attacks(
                piece_bb(board@, opposite_color as int, KNIGHT as int),
                0u64,
                KNIGHT,
                opposite_color,
                ks@,
                occ@,
            )) || two_processed_attacks(
                piece_bb(board@, opposite_color as int, KNIGHT as int),
                0u64,
                KNIGHT,
                opposite_color,
                ks@,
                occ@,
            )),
            forall|t: u64|
                t < 64 ==> (bit_set(final(self).squares_in_attack_bb, t) <==> (bit_set(
                    old(self).squares_in_attack_bb,
                    t,
                ) || processed_attacks(
                    piece_bb(board@, opposite_color as int, KNIGHT as int),
                    0u64,
                    KNIGHT,
                    opposite_color,
                    t,
                    occ@,
                ))),
    {
        let knight_bb0 = board.get_piece_bitboard(opposite_color, KNIGHT);
        let mut knight_bb = knight_bb0;
        let ghost att0 = self.squares_in_attack_bb;
        let ghost st0 = self.in_check_state();
        let ghost dc0 = self.is_in_double_check;
        while knight_bb != 0
            invariant
                data.wf(),
                self.wf(),
                self.pins_bbs == old(self).pins_bbs,
                ks@ < 64,
                single_square(king_bb, ks@),
                self.in_check_state() == (st0 || processed_attacks(knight_bb0, knight_bb, KNIGHT, opposite_color, ks@, occ@)),
                self.is_in_double_check == (dc0 || (st0 && processed_attacks(knight_bb0, knight_bb, KNIGHT, opposite_color, ks@, occ@))
                    || two_processed_attacks(knight_bb0, knight_bb, KNIGHT, opposite_color, ks@, occ@)),
                block_ok(board@, opposite_color, ks@, occ@, self.check_block_bb, self.is_in_double_check),
                knight_bb0 == piece_bb(board@, opposite_color as int, KNIGHT as int),
                view_wf(board@),
                opposite_color < 2,
                forall|s: u64| s < 64 && #[trigger] bit_set(knight_bb, s) ==> bit_set(knight_bb0, s),
                forall|t: u64|
                    t < 64 ==> (bit_set(self.squares_in_attack_bb, t) <==> (bit_set(att0, t)
                        || processed_attacks(knight_bb0, knight_bb, KNIGHT, opposite_color, t, occ@))),
            decreases knight_bb,
        {
            let start_square = get_ls1b(knight_bb);
            let knight_bit = get_bit_from_square(start_square);
            proof {
                lemma_clear_bit_decreases(knight_bb, start_square as u64);
            }
            let ghost rem = knight_bb;
            knight_bb = knight_bb & !knight_bit;
            let attack_bb = data.square_data.get_bb_for_knight(start_square);
            let ghost att = self.squares_in_attack_bb;
            self.squares_in_attack_bb = self.squares_in_attack_bb | attack_bb;
            proof {
                lemma_accumulate(knight_bb0, rem, knight_bb, start_square as u64, KNIGHT, opposite_color, occ@, att0, att, attack_bb, self.squares_in_attack_bb);
                lemma_processed_step(knight_bb0, rem, knight_bb, start_square as u64, KNIGHT, opposite_color, ks@, occ@);
                lemma_two_processed_step(knight_bb0, rem, knight_bb, start_square as u64, KNIGHT, opposite_color, ks@, occ@);
                lemma_zero_iff_no_bits(attack_bb & king_bb);
                assert(bit_set(attack_bb & king_bb, ks@) == bit_set(attack_bb, ks@));
                assert(forall|u: u64| u < 64 && bit_set(attack_bb & king_bb, u) ==> u == ks@);
                assert(bit_set(knight_bit, start_square as u64));
                assert(bit_set(bb_at(board@.pieces, opposite_color as int, 3), start_square as u64) == (board@.squares[start_square as int] == (opposite_color, 3usize)));
                assert(board@.squares[start_square as int] == (opposite_color, KNIGHT));
                assert(is_block_mask(knight_bit, KNIGHT, start_square as int, ks@));
            }
            if self.is_in_double_check {
                continue;
            }
            if attack_bb & king_bb != 0 {
                self.add_check(knight_bit);
            }
        }
    }

    /// Attacks, checks and pins of the opponent's sliders of one type: rooks
    /// (file and rank), bishops (diagonals) or queens (all four axes).
    #[verifier::spinoff_prover]
    #[verifier::rlimit(100)]
    fn calculate_slider_type(
        &mut self,
        v: Ghost<BoardView>,
        data: &PrecomputedData,
        slider_bb: u64,
        slider_type: usize,
        opposite_color: usize,
        first_axis: usize,
        end_axis: usize,
        all_occ: u64,
        king_square: usize,
        not_king_bb: u64,
        all_occ_without_king: u64,
        en_passant_rank_mask: u64,
        current_pawn_bb: u64,
        opposite_pawn_bb: u64,
    )
        requires
            data.wf(),
            (first_axis == 0 && end_axis == 2 && slider_type == ROOK) || (first_axis == 2 && end_axis
                == 4 && slider_type == BISHOP) || (first_axis == 0 && end_axis == 4 && slider_type
                == QUEEN),
            king_square < 64,
            old(self).wf(),
            single_square(!not_king_bb, king_square as u64),
            all_occ_without_king == all_occ & not_king_bb,
            !bit_set(slider_bb, king_square as u64),
            forall|s: u64| s < 64 && #[trigger] bit_set(slider_bb, s) ==> v@.squares[s as int] == (opposite_color, slider_type),
            block_ok(v@, opposite_color, king_square as u64, all_occ_without_king, old(self).check_block_bb, old(self).is_in_double_check),
            forall|w: u64| w < 64 ==> (#[trigger] bit_set(all_occ, w) <==> v@.squares[w as int].1 != NONE),
            pins_ok(v@, opposite_color, king_square as u64, old(self).pins_bbs@),
        ensures
            final(self).wf(),
            pins_ok(v@, opposite_color, king_square as u64, final(self).pins_bbs@),
            block_ok(v@, opposite_color, king_square as u64, all_occ_without_king, final(self).check_block_bb, final(self).is_in_double_check),
            final(self).in_check_state() == (old(self).in_check_state() || processed_attacks(
                slider_bb,
                0u64,
                slider_type,
                opposite_color,
                king_square as u64,
                all_occ_without_king,
            )),
            final(self).is_in_double_check == (old(self).is_in_double_check || (old(self).in_check_state()
                && processed_attacks(
                slider_bb,
                0u64,
                slider_type,
                opposite_color,
                king_square as u64,
                all_occ_without_king,
            )) || two_processed_attacks(
                slider_bb,
                0u64,
                slider_type,
                opposite_color,
                king_square as u64,
                all_occ_without_king,
            )),
            forall|t: u64|
                t < 64 ==> (bit_set(final(self).squares_in_attack_bb, t) <==> (bit_set(
                    old(self).squares_in_attack_bb,
                    t,
                ) || processed_attacks(
                    slider_bb,
                    0u64,
                    slider_type,
                    opposite_color,
                    t,
                    all_occ_without_king,
                ))),
    {
        let ghost att0 = self.squares_in_attack_bb;
        let ghost st0 = self.in_check_state();
        let ghost dc0 = self.is_in_double_check;
        let ghost ks = king_square as u64;
        let not_all_occ = !all_occ;
        let mut remaining = slider_bb;
        proof {
            assert(!(!not_king_bb) == not_king_bb) by (bit_vector);
        }
        while remaining != 0
            invariant
                data.wf(),
                ks == king_square as u64,
                not_all_occ == !all_occ,
                single_square(!not_king_bb, ks),
                !(!not_king_bb) == not_king_bb,
                all_occ_without_king == all_occ & not_king_bb,
                !bit_set(slider_bb, ks),
                forall|s: u64| s < 64 && #[trigger] bit_set(slider_bb, s) ==> v@.squares[s as int] == (opposite_color, slider_type),
                block_ok(v@, opposite_color, ks, all_occ_without_king, self.check_block_bb, self.is_in_double_check),
                forall|w: u64| w < 64 ==> (#[trigger] bit_set(all_occ, w) <==> v@.squares[w as int].1 != NONE),
                pins_ok(v@, opposite_color, ks, self.pins_bbs@),
                self.in_check_state() == (st0 || processed_attacks(
                    slider_bb,
                    remaining,
                    slider_type,
                    opposite_color,
                    ks,
                    all_occ_without_king,
                )),
                self.is_in_double_check == (dc0 || (st0 && processed_attacks(
                    slider_bb,
                    remaining,
                    slider_type,
                    opposite_color,
                    ks,
                    all_occ_without_king,
                )) || two_processed_attacks(
                    slider_bb,
                    remaining,
                    slider_type,
                    opposite_color,
                    ks,
                    all_occ_without_king,
                )),
                first_axis < end_axis <= 4,
                (first_axis == 0 && end_axis == 2 && slider_type == ROOK) || (first_axis == 2
                    && end_axis == 4 && slider_type == BISHOP) || (first_axis == 0 && end_axis == 4
                    && slider_type == QUEEN),
                king_square < 64,
                self.wf(),
                forall|s: u64| s < 64 && #[trigger] bit_set(remaining, s) ==> bit_set(slider_bb, s),
                forall|t: u64|
                    t < 64 ==> (bit_set(self.squares_in_attack_bb, t) <==> (bit_set(att0, t)
                        || processed_attacks(
                        slider_bb,
                        remaining,
                        slider_type,
                        opposite_color,
                        t,
                        all_occ_without_king,
                    ))),
            decreases remaining,
        {
            let start_square = get_ls1b(remaining);
            let start_bit = get_bit_from_square(start_square);
            proof {
                lemma_clear_bit_decreases(remaining, start_square as u64);
            }
            let ghost rem = remaining;
            remaining = remaining & !start_bit;
            let ghost att = self.squares_in_attack_bb;
            let ghost st = self.in_check_state();
            let attack_bb = self.process_slider(
                v,
                data,
                start_square,
                slider_type,
                opposite_color,
                first_axis,
                end_axis,
                all_occ,
                king_square,
                not_king_bb,
                all_occ_without_king,
                en_passant_rank_mask,
                current_pawn_bb,
                opposite_pawn_bb,
            );
            proof {
                lemma_accumulate(
                    slider_bb,
                    rem,
                    remaining,
                    start_square as u64,
                    slider_type,
                    opposite_color,
                    all_occ_without_king,
                    att0,
                    att,
                    attack_bb,
                    self.squares_in_attack_bb,
                );
                lemma_processed_step(
                    slider_bb,
                    rem,
                    remaining,
                    start_square as u64,
                    slider_type,
                    opposite_color,
                    ks,
                    all_occ_without_king,
                );
                lemma_two_processed_step(
                    slider_bb,
                    rem,
                    remaining,
                    start_square as u64,
                    slider_type,
                    opposite_color,
                    ks,
                    all_occ_without_king,
                );
            }
        }
    }

    /// Adds the attacks of the opposing slider on `start_square` and records
    /// the check it gives or the pin it makes; returns its attacks.
    #[verifier::spinoff_prover]
    #[verifier::rlimit(100)]
    fn process_slider(
        &mut self,
        v: Ghost<BoardView>,
        data: &PrecomputedData,
        start_square: usize,
        slider_type: usize,
        opposite_color: usize,
        first_axis: usize,
        end_axis: usize,
        all_occ: u64,
        king_square: usize,
        not_king_bb: u64,
        all_occ_without_king: u64,
        en_passant_rank_mask: u64,
        current_pawn_bb: u64,
        opposite_pawn_bb: u64,
    ) -> (r: u64)
        requires
            data.wf(),
            (first_axis == 0 && end_axis == 2 && slider_type == ROOK) || (first_axis == 2 && end_axis
                == 4 && slider_type == BISHOP) || (first_axis == 0 && end_axis == 4 && slider_type
                == QUEEN),
            start_square < 64,
            king_square < 64,
            start_square != king_square,
            old(self).wf(),
            single_square(!not_king_bb, king_square as u64),
            !(!not_king_bb) == not_king_bb,
            all_occ_without_king == all_occ & not_king_bb,
            v@.squares[start_square as int] == (opposite_color, slider_type),
            block_ok(v@, opposite_color, king_square as u64, all_occ_without_king, old(self).check_block_bb, old(self).is_in_double_check),
            forall|w: u64| w < 64 ==> (#[trigger] bit_set(all_occ, w) <==> v@.squares[w as int].1 != NONE),
            pins_ok(v@, opposite_color, king_square as u64, old(self).pins_bbs@),
        ensures
            final(self).wf(),
            pins_ok(v@, opposite_color, king_square as u64, final(self).pins_bbs@),
            block_ok(v@, opposite_color, king_square as u64, all_occ_without_king, final(self).check_block_bb, final(self).is_in_double_check),
            final(self).squares_in_attack_bb == old(self).squares_in_attack_bb | r,
            forall|t: u64|
                t < 64 ==> (bit_set(r, t) <==> type_attacks(
                    slider_type,
                    opposite_color,
                    start_square as int,
                    t,
                    all_occ_without_king,
                )),
            final(self).in_check_state() == (old(self).in_check_state() || type_attacks(
                slider_type,
                opposite_color,
                start_square as int,
                king_square as u64,
                all_occ_without_king,
            )),
            final(self).is_in_double_check == (old(self).is_in_double_check || (old(self).in_check_state()
                && type_attacks(
                slider_type,
                opposite_color,
                start_square as int,
                king_square as u64,
                all_occ_without_king,
            ))),
    {
        let ghost ks = king_square as u64;
        let not_all_occ = !all_occ;
        let start_bit = get_bit_from_square(start_square);
        let mut attack_bb: u64 = 0;
        if first_axis < 2 {
            attack_bb = attack_bb | data.rook_table.get_pseudo_legal_move_bb(
                start_square,
                all_occ_without_king,
            );
        }
        if end_axis > 2 {
            attack_bb = attack_bb | data.bishop_table.get_pseudo_legal_move_bb(
                start_square,
                all_occ_without_king,
            );
        }
        self.squares_in_attack_bb = self.squares_in_attack_bb | attack_bb;
        if self.is_in_double_check {
            return attack_bb;
        }
        let line_to_king_bb = data.square_data.get_bb_line(start_square, king_square);
        let line_to_king_without_slider = line_to_king_bb & !start_bit;
        let line_bb = line_to_king_without_slider & not_king_bb;
        proof {
            assert forall|w: u64| w < 64 implies (#[trigger] bit_set(line_bb, w) <==> (on_segment(
                start_square as int,
                king_square as int,
                w as int,
            ) && w != start_square && w != king_square)) by {
                assert(bit_set(!not_king_bb, w) == (w == king_square as u64));
            }
        }
        proof {
            assert(start_square != king_square);
            let king_bb = !not_king_bb;
            assert(line_bb == (line_to_king_bb & !(1u64 << start_square as u64)) & !king_bb);
            assert(line_bb & not_all_occ == ((line_to_king_bb & !(1u64 << start_square as u64)) & !king_bb) & !all_occ);
            assert(all_occ_without_king == all_occ & !king_bb);
            lemma_slider_check(
                slider_type,
                opposite_color,
                start_square as u64,
                ks,
                all_occ_without_king,
                all_occ,
                king_bb,
                attack_bb,
                line_to_king_bb,
            );
        }
        if line_to_king_without_slider & attack_bb == 0 {
            return attack_bb;
        }
        if line_bb & not_all_occ == line_bb {
            proof {
                lemma_zero_iff_no_bits(line_to_king_without_slider & attack_bb);
                let u = choose|u: u64| u < 64 && bit_set(line_to_king_without_slider & attack_bb, u);
                assert(bit_set(line_to_king_bb, u));
                let a = choose|a: int|
                    0 <= a < 4 && #[trigger] same_axis(a, start_square as int, king_square as int)
                        && same_axis(a, start_square as int, u as int);
                assert(same_axis(a, start_square as int, start_square as int));
                assert(on_segment(start_square as int, king_square as int, start_square as int));
                assert(bit_set(line_to_king_bb & not_king_bb, start_square as u64));
                lemma_zero_iff_no_bits(line_to_king_bb & not_king_bb);
                assert(is_block_mask(line_to_king_bb & not_king_bb, slider_type, start_square as int, ks));
                assert(type_attacks(v@.squares[start_square as int].1, opposite_color, start_square as int, ks, all_occ_without_king));
            }
            self.add_check(line_to_king_bb & not_king_bb);
            return attack_bb;
        }
        let ghost cb0 = self.check_block_bb;
        let ghost dc0 = self.is_in_double_check;
        let mut direction_index = first_axis;
        while direction_index < end_axis
            invariant
                data.wf(),
                first_axis <= direction_index <= end_axis <= 4,
                start_square < 64,
                self.wf(),
                self.squares_in_attack_bb == old(self).squares_in_attack_bb | attack_bb,
                self.check_block_bb == cb0,
                self.is_in_double_check == dc0,
                pins_ok(v@, opposite_color, king_square as u64, self.pins_bbs@),
                forall|w: u64| w < 64 ==> (#[trigger] bit_set(all_occ, w) <==> v@.squares[w as int].1 != NONE),
                v@.squares[start_square as int] == (opposite_color, slider_type),
                slider_type == ROOK || slider_type == BISHOP || slider_type == QUEEN,
                king_square < 64,
                start_square != king_square,
                forall|w: u64|
                    w < 64 ==> (#[trigger] bit_set(line_bb, w) <==> (on_segment(
                        start_square as int,
                        king_square as int,
                        w as int,
                    ) && w != start_square && w != king_square)),
            decreases end_axis - direction_index,
        {
            let ray_mask = data.square_data.get_file_rank_diagonal_mask(
                start_square,
                direction_index,
            );
            let pin_bb = ray_mask & line_bb;
            let all_pinned_pieces = pin_bb & all_occ;
            let pin_count = pop_count(all_pinned_pieces);
            if pin_count == 1 {
                proof {
                    lemma_popcount_below(all_pinned_pieces, 64);
                    let u = choose|u: u64|
                        u < 64 && bit_set(all_pinned_pieces, u) && forall|w: u64|
                            w < 64 && #[trigger] bit_set(all_pinned_pieces, w) ==> w == u;
                    let a = direction_index as int;
                    let s0 = start_square as int;
                    let k = king_square as int;
                    assert(bit_set(all_pinned_pieces, u));
                    lemma_segment_axis(a, s0, k, u as int);
                    assert(same_axis(a, s0, k));
                    assert forall|w: int|
                        0 <= w < 64 && on_segment(s0, k, w) && w != s0 && w != k && w != u implies v@.squares[w].1 == NONE by {
                        lemma_segment_axis(a, s0, k, w);
                        assert(bit_set(line_bb, w as u64));
                        assert(bit_set(ray_mask, w as u64));
                        if v@.squares[w].1 != NONE {
                            assert(bit_set(all_occ, w as u64));
                            assert(bit_set(all_pinned_pieces, w as u64));
                        }
                    }
                    assert(pinned_on_axis(v@, opposite_color, king_square as u64, a, u));
                    assert forall|w: u64| w < 64 && #[trigger] bit_set(all_pinned_pieces, w) implies pinned_on_axis(
                        v@,
                        opposite_color,
                        king_square as u64,
                        a,
                        w,
                    ) by {}
                    let old_pins = self.pins_bbs@;
                    assert forall|b: int, w: u64|
                        0 <= b < 4 && w < 64 && #[trigger] bit_set(
                            old_pins.update(a, old_pins[a] | all_pinned_pieces)[b],
                            w,
                        ) implies pinned_on_axis(v@, opposite_color, king_square as u64, b, w) by {
                        if b != a {
                            assert(bit_set(old_pins[b], w));
                        } else if bit_set(old_pins[a], w) {
                        } else {
                            assert(bit_set(all_pinned_pieces, w));
                        }
                    }
                }
                self.add_pin_square_from_bb(all_pinned_pieces, direction_index);
                break;
            }
            let pinned_current_pawn = pin_bb & current_pawn_bb;
            if ray_mask == en_passant_rank_mask && pin_count == 2 && pop_count(
                pinned_current_pawn,
            ) == 1 && pop_count(pin_bb & opposite_pawn_bb) == 1 {
                self.forbidden_en_passant_square = get_ls1b(pinned_current_pawn);
            }
            direction_index += 1;
        }
        attack_bb
    }

    #[verifier::spinoff_prover]
    #[verifier::rlimit(100)]
    fn calculate_sliders(
        &mut self,
        board: &Board,
        data: &PrecomputedData,
        opposite_color: usize,
        all_occ: u64,
        king_square: usize,
        not_king_bb: u64,
        all_occ_without_king: u64,
        en_passant_rank_mask: u64,
        current_pawn_bb: u64,
        opposite_pawn_bb: u64,
    )
        requires
            view_wf(board@),
            data.wf(),
            opposite_color < 2,
            opposite_color == 1 - board@.color,
            king_square < 64,
            old(self).wf(),
            single_square(!not_king_bb, king_square as u64),
            board@.squares[king_square as int] == (board@.color, KING),
            all_occ_without_king == all_occ & not_king_bb,
            block_ok(board@, opposite_color, king_square as u64, all_occ_without_king, old(self).check_block_bb, old(self).is_in_double_check),
            forall|w: u64| w < 64 ==> (#[trigger] bit_set(all_occ, w) <==> board@.squares[w as int].1 != NONE),
            pins_ok(board@, opposite_color, king_square as u64, old(self).pins_bbs@),
        ensures
            final(self).wf(),
            block_ok(board@, opposite_color, king_square as u64, all_occ_without_king, final(self).check_block_bb, final(self).is_in_double_check),
            pins_ok(board@, opposite_color, king_square as u64, final(self).pins_bbs@),
            ({
                let v = board@;
                let o = opposite_color;
                let k = king_square as u64;
                let occ = all_occ_without_king;
                let r1 = type_checks(v, o, ROOK, k, occ);
                let b1 = type_checks(v, o, BISHOP, k, occ);
                let q1 = type_checks(v, o, QUEEN, k, occ);
                final(self).is_in_double_check == (old(self).is_in_double_check || (old(self).in_check_state()
                    && (r1 || b1 || q1)) || type_double_checks(v, o, ROOK, k, occ) || type_double_checks(
                    v,
                    o,
                    BISHOP,
                    k,
                    occ,
                ) || type_double_checks(v, o, QUEEN, k, occ) || (r1 && b1) || (r1 && q1) || (b1 && q1))
            }),
            final(self).in_check_state() == (old(self).in_check_state() || processed_attacks(
                piece_bb(board@, opposite_color as int, ROOK as int),
                0u64,
                ROOK,
                opposite_color,
                king_square as u64,
                all_occ_without_king,
            ) || processed_attacks(
                piece_bb(board@, opposite_color as int, BISHOP as int),
                0u64,
                BISHOP,
                opposite_color,
                king_square as u64,
                all_occ_without_king,
            ) || processed_attacks(
                piece_bb(board@, opposite_color as int, QUEEN as int),
                0u64,
                QUEEN,
                opposite_color,
                king_square as u64,
                all_occ_without_king,
            )),
            forall|t: u64|
                t < 64 ==> (bit_set(final(self).squares_in_attack_bb, t) <==> (bit_set(
                    old(self).squares_in_attack_bb,
                    t,
                ) || processed_attacks(
                    piece_bb(board@, opposite_color as int, ROOK as int),
                    0u64,
                    ROOK,
                    opposite_color,
                    t,
                    all_occ_without_king,
                ) || processed_attacks(
                    piece_bb(board@, opposite_color as int, BISHOP as int),
                    0u64,
                    BISHOP,
                    opposite_color,
                    t,
                    all_occ_without_king,
                ) || processed_attacks(
                    piece_bb(board@, opposite_color as int, QUEEN as int),
                    0u64,
                    QUEEN,
                    opposite_color,
                    t,
                    all_occ_without_king,
                ))),
    {
        let ghost v = board@;
        proof {
            let ks = king_square as u64;
            assert(bit_set(bb_at(v.pieces, opposite_color as int, ROOK as int), ks) == (v.squares[ks as int] == (opposite_color, ROOK)));
            assert(bit_set(bb_at(v.pieces, opposite_color as int, BISHOP as int), ks) == (v.squares[ks as int] == (opposite_color, BISHOP)));
            assert(bit_set(bb_at(v.pieces, opposite_color as int, QUEEN as int), ks) == (v.squares[ks as int] == (opposite_color, QUEEN)));
            assert forall|t: usize, s: u64| (t == ROOK || t == BISHOP || t == QUEEN) && s < 64 && #[trigger] bit_set(piece_bb(v, opposite_color as int, t as int), s)
                implies v.squares[s as int] == (opposite_color, t) by {
                assert(bit_set(bb_at(v.pieces, opposite_color as int, t as int), s) == (v.squares[s as int] == (opposite_color, t)));
            }
        }
        let rook_bb = board.get_piece_bitboard(opposite_color, ROOK);
        self.calculate_slider_type(
            Ghost(v),
            data,
            rook_bb,
            ROOK,
            opposite_color,
            0,
            2,
            all_occ,
            king_square,
            not_king_bb,
            all_occ_without_king,
            en_passant_rank_mask,
            current_pawn_bb,
            opposite_pawn_bb,
        );
        let bishop_bb = board.get_piece_bitboard(opposite_color, BISHOP);
        self.calculate_slider_type(
            Ghost(v),
            data,
            bishop_bb,
            BISHOP,
            opposite_color,
            2,
            4,
            all_occ,
            king_square,
            not_king_bb,
            all_occ_without_king,
            en_passant_rank_mask,
            current_pawn_bb,
            opposite_pawn_bb,
        );
        let queen_bb = board.get_piece_bitboard(opposite_color, QUEEN);
        self.calculate_slider_type(
            Ghost(v),
            data,
            queen_bb,
            QUEEN,
            opposite_color,
            0,
            4,
            all_occ,
            king_square,
            not_king_bb,
            all_occ_without_king,
            en_passant_rank_mask,
            current_pawn_bb,
            opposite_pawn_bb,
        );
    }
}

} // verus!

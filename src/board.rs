use vstd::prelude::*;
use vstd::string::StringSliceAdditionalSpecFns;
use crate::bitboards::{bit_set, group_bits, get_bit_from_square, lemma_bits_ext, popcount, popcount_below};
use crate::castling::{self, king_side_right, queen_side_right};
use crate::moves::{Move, MoveRecord, MoveType};
use crate::board_representation::{
    ascii_chars, ascii_to_string, fen_byte_to_piece, fen_letter, piece_to_fen_byte, square_from_name_bytes,
    square_name_bytes, square_name_to_bytes,
};
use crate::piece::{BISHOP, BLACK, INVALID_COLOR, KING, KNIGHT, NONE, PAWN, QUEEN, ROOK, WHITE};

verus! {

broadcast use group_bits;

/// Out of the board: marks a missing square.
pub const INVALID_SQUARE: usize = 64;

pub open spec fn king_side_rook_sq(c: usize) -> usize {
    if c == WHITE { 0 } else { 56 }
}

pub open spec fn queen_side_rook_sq(c: usize) -> usize {
    if c == WHITE { 7 } else { 63 }
}

pub open spec fn king_start_sq(c: usize) -> usize {
    if c == WHITE { 3 } else { 59 }
}

pub open spec fn king_side_sq(c: usize) -> usize {
    if c == WHITE { 1 } else { 57 }
}

pub open spec fn queen_side_sq(c: usize) -> usize {
    if c == WHITE { 5 } else { 61 }
}

pub open spec fn castled_king_side_rook_sq(c: usize) -> usize {
    if c == WHITE { 2 } else { 58 }
}

pub open spec fn castled_queen_side_rook_sq(c: usize) -> usize {
    if c == WHITE { 4 } else { 60 }
}

fn get_king_side_castling_rook_square(color: usize) -> (r: usize)
    ensures
        r == king_side_rook_sq(color),
{
    if color == WHITE { 0 } else { 56 }
}

fn get_queen_side_castling_rook_square(color: usize) -> (r: usize)
    ensures
        r == queen_side_rook_sq(color),
{
    if color == WHITE { 7 } else { 63 }
}

/// The square a king of `color` starts on.
pub fn get_king_start_square(color: usize) -> (r: usize)
    ensures
        r == king_start_sq(color),
{
    if color == WHITE { 3 } else { 59 }
}

/// The square a king of `color` reaches when castling king-side.
pub fn get_king_side_square(color: usize) -> (r: usize)
    ensures
        r == king_side_sq(color),
{
    if color == WHITE { 1 } else { 57 }
}

/// The square a king of `color` reaches when castling queen-side.
pub fn get_queen_side_square(color: usize) -> (r: usize)
    ensures
        r == queen_side_sq(color),
{
    if color == WHITE { 5 } else { 61 }
}

/// The square the rook reaches when `color` castles king-side.
pub fn get_castled_king_side_rook_square(color: usize) -> (r: usize)
    ensures
        r == castled_king_side_rook_sq(color),
{
    if color == WHITE { 2 } else { 58 }
}

/// The square the rook reaches when `color` castles queen-side.
pub fn get_castled_queen_side_rook_square(color: usize) -> (r: usize)
    ensures
        r == castled_queen_side_rook_sq(color),
{
    if color == WHITE { 4 } else { 60 }
}

/// The occupant of an empty square.
pub open spec fn empty_square() -> (usize, usize) {
    (INVALID_COLOR, NONE)
}

/// The mathematical model of a position.
pub struct BoardView {
    /// `pieces[7 * color + type]`; type 0 is the union of the color's pieces.
    pub pieces: Seq<u64>,
    /// `(color, type)` on each square.
    pub squares: Seq<(usize, usize)>,
    /// Side to move.
    pub color: usize,
    /// Castling rights per color: bit 0 king-side, bit 1 queen-side.
    pub castling: Seq<u8>,
    pub ep: bool,
    pub ep_pawn: usize,
    pub ep_capture: usize,
}

pub open spec fn bb_at(pieces: Seq<u64>, c: int, t: int) -> u64 {
    pieces[7 * c + t]
}

pub open spec fn piece_bb(v: BoardView, c: int, t: int) -> u64 {
    bb_at(v.pieces, c, t)
}

pub open spec fn square_ok(p: (usize, usize)) -> bool {
    (p.0 == INVALID_COLOR && p.1 == NONE) || (p.0 < 2 && 1 <= p.1 < 7)
}

/// The bitboards and the square cache describe the same placement.
pub open spec fn placement_ok(pieces: Seq<u64>, squares: Seq<(usize, usize)>) -> bool {
    &&& pieces.len() == 14
    &&& squares.len() == 64
    &&& forall|s: int| 0 <= s < 64 ==> square_ok(#[trigger] squares[s])
    &&& forall|c: int, t: int, s: u64|
        0 <= c < 2 && 1 <= t < 7 && s < 64 ==> (#[trigger] bit_set(bb_at(pieces, c, t), s)
            <==> squares[s as int] == (c as usize, t as usize))
    &&& forall|c: int, s: u64|
        0 <= c < 2 && s < 64 ==> (#[trigger] bit_set(bb_at(pieces, c, 0), s) <==> squares[s as int].0
            == c as usize)
}

/// The placement is sound, and the side to move and the castling rights are in range.
pub open spec fn consistent(v: BoardView) -> bool {
    &&& placement_ok(v.pieces, v.squares)
    &&& v.castling.len() == 2
    &&& v.color < 2
}

/// `k` is the one square holding the king of color `c`.
pub open spec fn is_only_king(v: BoardView, c: usize, k: int) -> bool {
    &&& 0 <= k < 64
    &&& v.squares[k] == (c, KING)
    &&& forall|j: int| 0 <= j < 64 && #[trigger] v.squares[j] == (c, KING) ==> j == k
}

pub open spec fn one_king(v: BoardView, c: usize) -> bool {
    exists|k: int| is_only_king(v, c, k)
}

/// A castling right implies that king and rook stand on their starting squares.
pub open spec fn castling_ok(v: BoardView) -> bool {
    forall|c: usize|
        c < 2 ==> (king_side_right(#[trigger] v.castling[c as int]) ==> v.squares[king_start_sq(c) as int]
            == (c, KING) && v.squares[king_side_rook_sq(c) as int] == (c, ROOK)) && (
        queen_side_right(v.castling[c as int]) ==> v.squares[king_start_sq(c) as int] == (c, KING)
            && v.squares[queen_side_rook_sq(c) as int] == (c, ROOK))
}

/// An en-passant state names a pawn of the side that just moved and the
/// empty square behind it.
pub open spec fn ep_ok(v: BoardView) -> bool {
    v.ep ==> {
        &&& v.ep_pawn < 64
        &&& v.ep_capture < 64
        &&& v.squares[v.ep_pawn as int] == ((1 - v.color) as usize, PAWN)
        &&& v.squares[v.ep_capture as int].1 == NONE
        &&& v.ep_capture == if v.color == WHITE {
            v.ep_pawn + 8
        } else {
            v.ep_pawn - 8
        }
    }
}

/// A position: consistent, one king per side, castling rights and en passant sound.
pub open spec fn view_wf(v: BoardView) -> bool {
    &&& consistent(v)
    &&& one_king(v, WHITE)
    &&& one_king(v, BLACK)
    &&& castling_ok(v)
    &&& forall|c: int| 0 <= c < 2 ==> #[trigger] v.castling[c] < 4
    &&& ep_ok(v)
}

/// The moves that `make_move` accepts in position `v`.
pub open spec fn move_ok(v: BoardView, m: Move) -> bool {
    let s = m.start_square as int;
    let t = m.target_square as int;
    let cap = m.capture_square as int;
    let c = v.color;
    let o = (1 - c) as usize;
    &&& 0 <= s < 64 && 0 <= t < 64 && 0 <= cap < 64 && s != t
    &&& v.squares[s].0 == c
    &&& v.squares[t].1 == NONE || (v.squares[t].0 == o && v.squares[t].1 != KING)
    &&& cap == t || (v.squares[t].1 == NONE && v.squares[cap] == (o, PAWN))
    &&& m.move_type.is_promotion_spec() ==> v.squares[s].1 == PAWN
    &&& m.move_type == MoveType::PawnDoubleMove ==> {
        &&& v.squares[s].1 == PAWN
        &&& v.squares[t].1 == NONE
        &&& cap == t
        &&& t == if c == WHITE { s + 16 } else { s - 16 }
        &&& v.squares[(s + t) / 2].1 == NONE
    }
    &&& m.move_type == MoveType::CastlingKingSide ==> {
        &&& s == king_start_sq(c)
        &&& t == king_side_sq(c)
        &&& v.squares[s] == (c, KING)
        &&& v.squares[t].1 == NONE
        &&& cap == t
        &&& v.squares[king_side_rook_sq(c) as int] == (c, ROOK)
        &&& v.squares[castled_king_side_rook_sq(c) as int].1 == NONE
    }
    &&& m.move_type == MoveType::CastlingQueenSide ==> {
        &&& s == king_start_sq(c)
        &&& t == queen_side_sq(c)
        &&& v.squares[s] == (c, KING)
        &&& v.squares[t].1 == NONE
        &&& cap == t
        &&& v.squares[queen_side_rook_sq(c) as int] == (c, ROOK)
        &&& v.squares[castled_queen_side_rook_sq(c) as int].1 == NONE
    }
}

/// The type of the moving piece once it stands on its target square.
pub open spec fn placed_type(v: BoardView, m: Move) -> usize {
    match m.move_type {
        MoveType::PromotionQueen => QUEEN,
        MoveType::PromotionKnight => KNIGHT,
        MoveType::PromotionRook => ROOK,
        MoveType::PromotionBishop => BISHOP,
        _ => v.squares[m.start_square as int].1,
    }
}

/// The placement after move `m`.
pub open spec fn make_squares(v: BoardView, m: Move) -> Seq<(usize, usize)> {
    let c = v.color;
    let sq1 = v.squares.update(m.start_square as int, empty_square());
    let sq2 = if sq1[m.capture_square as int].1 != NONE {
        sq1.update(m.capture_square as int, empty_square())
    } else {
        sq1
    };
    let sq3 = if m.move_type == MoveType::CastlingKingSide {
        sq2.update(king_side_rook_sq(c) as int, empty_square()).update(
            castled_king_side_rook_sq(c) as int,
            (c, ROOK),
        )
    } else if m.move_type == MoveType::CastlingQueenSide {
        sq2.update(queen_side_rook_sq(c) as int, empty_square()).update(
            castled_queen_side_rook_sq(c) as int,
            (c, ROOK),
        )
    } else {
        sq2
    };
    sq3.update(m.target_square as int, (c, placed_type(v, m)))
}

/// The mover's castling rights after move `m`.
pub open spec fn own_rights_after(v: BoardView, m: Move) -> u8 {
    let c = v.color;
    let p = placed_type(v, m);
    let r0 = v.castling[c as int];
    let r1 = if p == KING { 0u8 } else { r0 };
    let r2 = if p == ROOK && m.start_square == king_side_rook_sq(c) { r1 & 2u8 } else { r1 };
    if p == ROOK && m.start_square == queen_side_rook_sq(c) { r2 & 1u8 } else { r2 }
}

/// The opponent's castling rights after move `m`.
pub open spec fn their_rights_after(v: BoardView, m: Move) -> u8 {
    let o = (1 - v.color) as usize;
    let r0 = v.castling[o as int];
    let r1 = if m.target_square == king_side_rook_sq(o) { r0 & 2u8 } else { r0 };
    if m.target_square == queen_side_rook_sq(o) { r1 & 1u8 } else { r1 }
}

pub open spec fn make_castling(v: BoardView, m: Move) -> Seq<u8> {
    if v.color == WHITE {
        seq![own_rights_after(v, m), their_rights_after(v, m)]
    } else {
        seq![their_rights_after(v, m), own_rights_after(v, m)]
    }
}

/// `q` is the position reached from `p` by move `m`.
pub open spec fn made(p: BoardView, m: Move, q: BoardView) -> bool {
    &&& consistent(q)
    &&& q.squares == make_squares(p, m)
    &&& q.castling == make_castling(p, m)
    &&& q.color == 1 - p.color
    &&& q.ep == (m.move_type == MoveType::PawnDoubleMove)
    &&& q.ep ==> q.ep_pawn == m.target_square && q.ep_capture == (m.start_square
        + m.target_square) / 2
    &&& !q.ep ==> q.ep_pawn == p.ep_pawn && q.ep_capture == p.ep_capture
}

/// `r` records move `m` made from position `p`.
pub open spec fn is_record_of(r: MoveRecord, p: BoardView, m: Move) -> bool {
    &&& r.mov == m
    &&& r.captured_piece_type == p.squares[m.capture_square as int].1
    &&& r.is_en_passant_possible == p.ep
    &&& r.en_passant_pawn_square == p.ep_pawn
    &&& r.en_passant_capture_square == p.ep_capture
    &&& r.old_castling_states@ == p.castling
}

/// The records that `undo_move` accepts in position `q`.
pub open spec fn undo_ok(q: BoardView, r: MoveRecord) -> bool {
    let m = r.mov;
    let s = m.start_square as int;
    let t = m.target_square as int;
    let cap = m.capture_square as int;
    let c = (1 - q.color) as usize;
    &&& 0 <= s < 64 && 0 <= t < 64 && 0 <= cap < 64 && s != t
    &&& q.squares[t].0 == c
    &&& q.squares[s].1 == NONE
    &&& r.old_castling_states@.len() == 2
    &&& r.captured_piece_type != NONE ==> {
        &&& 1 <= r.captured_piece_type < 7
        &&& cap != s
        &&& cap != t ==> q.squares[cap].1 == NONE
    }
    &&& m.move_type == MoveType::CastlingKingSide ==> {
        &&& s == king_start_sq(c)
        &&& t == king_side_sq(c)
        &&& q.squares[castled_king_side_rook_sq(c) as int] == (c, ROOK)
        &&& q.squares[king_side_rook_sq(c) as int].1 == NONE
        &&& r.captured_piece_type == NONE
    }
    &&& m.move_type == MoveType::CastlingQueenSide ==> {
        &&& s == king_start_sq(c)
        &&& t == queen_side_sq(c)
        &&& q.squares[castled_queen_side_rook_sq(c) as int] == (c, ROOK)
        &&& q.squares[queen_side_rook_sq(c) as int].1 == NONE
        &&& r.captured_piece_type == NONE
    }
}

/// The placement after taking back the move of record `r`.
pub open spec fn undo_squares(q: BoardView, r: MoveRecord) -> Seq<(usize, usize)> {
    let m = r.mov;
    let c = (1 - q.color) as usize;
    let moved = if m.move_type.is_promotion_spec() {
        PAWN
    } else {
        q.squares[m.target_square as int].1
    };
    let sq1 = q.squares.update(m.target_square as int, empty_square());
    let sq2 = if m.move_type == MoveType::CastlingKingSide {
        sq1.update(castled_king_side_rook_sq(c) as int, empty_square()).update(
            king_side_rook_sq(c) as int,
            (c, ROOK),
        )
    } else if m.move_type == MoveType::CastlingQueenSide {
        sq1.update(castled_queen_side_rook_sq(c) as int, empty_square()).update(
            queen_side_rook_sq(c) as int,
            (c, ROOK),
        )
    } else {
        sq1
    };
    let sq3 = sq2.update(m.start_square as int, (c, moved));
    if r.captured_piece_type != NONE {
        sq3.update(m.capture_square as int, ((1 - c) as usize, r.captured_piece_type))
    } else {
        sq3
    }
}

/// `p` is the position reached from `q` by taking back the move of record `r`.
pub open spec fn undone(q: BoardView, r: MoveRecord, p: BoardView) -> bool {
    &&& consistent(p)
    &&& p.squares == undo_squares(q, r)
    &&& p.castling == r.old_castling_states@
    &&& p.color == 1 - q.color
    &&& p.ep == r.is_en_passant_possible
    &&& p.ep_pawn == r.en_passant_pawn_square
    &&& p.ep_capture == r.en_passant_capture_square
}

/// Everything but the placement is the same.
pub open spec fn same_state(a: BoardView, b: BoardView) -> bool {
    &&& a.color == b.color
    &&& a.castling == b.castling
    &&& a.ep == b.ep
    &&& a.ep_pawn == b.ep_pawn
    &&& a.ep_capture == b.ep_capture
}

/// Two consistent positions with the same placement have the same bitboards.
pub proof fn lemma_placement_determines_bitboards(a: BoardView, b: BoardView)
    requires
        consistent(a),
        consistent(b),
        a.squares == b.squares,
    ensures
        a.pieces == b.pieces,
{
    assert forall|i: int| 0 <= i < 14 implies a.pieces[i] == b.pieces[i] by {
        let c = i / 7;
        let t = i % 7;
        assert(piece_bb(a, c, t) == a.pieces[i] && piece_bb(b, c, t) == b.pieces[i]);
        assert forall|s: u64| s < 64 implies bit_set(a.pieces[i], s) == bit_set(
            b.pieces[i],
            s,
        ) by {
            if t == 0 {
                assert(bit_set(piece_bb(a, c, 0), s) == bit_set(piece_bb(b, c, 0), s));
            } else {
                assert(bit_set(piece_bb(a, c, t), s) == bit_set(piece_bb(b, c, t), s));
            }
        }
        lemma_bits_ext(a.pieces[i], b.pieces[i]);
    }
    assert(a.pieces =~= b.pieces);
}


/// After a move, its record is one that `undo_move` accepts.
pub proof fn lemma_record_undoable(p: BoardView, m: Move, r: MoveRecord, q: BoardView)
    requires
        view_wf(p),
        move_ok(p, m),
        made(p, m, q),
        is_record_of(r, p, m),
    ensures
        undo_ok(q, r),
{
    assert(square_ok(p.squares[m.capture_square as int]));
    assert(square_ok(p.squares[m.start_square as int]));
}

/// Making a move and taking it back restores the position bit for bit: the
/// bitboards, the square cache, the side to move, the castling rights and the
/// en-passant state.
pub proof fn lemma_make_undo_round_trip(
    p: BoardView,
    m: Move,
    r: MoveRecord,
    q: BoardView,
    p2: BoardView,
)
    requires
        view_wf(p),
        move_ok(p, m),
        made(p, m, q),
        is_record_of(r, p, m),
        undone(q, r, p2),
    ensures
        p2 == p,
{
    assert(square_ok(p.squares[m.capture_square as int]));
    assert(square_ok(p.squares[m.start_square as int]));
    assert(p2.squares =~= p.squares);
    lemma_placement_determines_bitboards(p2, p);
}


/// A position stays a position after any move that `make_move` accepts.
pub proof fn lemma_make_preserves_wf(p: BoardView, m: Move, q: BoardView)
    requires
        view_wf(p),
        move_ok(p, m),
        made(p, m, q),
    ensures
        view_wf(q),
{
    let c = p.color;
    let o = (1 - c) as usize;
    let s = m.start_square as int;
    let t = m.target_square as int;
    assert(square_ok(p.squares[m.capture_square as int]));
    assert(square_ok(p.squares[s]));
    assert(square_ok(p.squares[t]));
    let kc = choose|k: int| is_only_king(p, c, k);
    let ko = choose|k: int| is_only_king(p, o, k);
    assert(c == WHITE || c == BLACK);
    if p.squares[s].1 == KING {
        assert(is_only_king(q, c, t));
    } else {
        assert(is_only_king(q, c, kc));
    }
    assert(is_only_king(q, o, ko));
    if c == WHITE {
        assert(one_king(q, WHITE));
        assert(one_king(q, BLACK));
    } else {
        assert(one_king(q, WHITE));
        assert(one_king(q, BLACK));
    }
    assert forall|cc: usize| cc < 2 implies (king_side_right(#[trigger] q.castling[cc as int])
        ==> q.squares[king_start_sq(cc) as int] == (cc, KING) && q.squares[king_side_rook_sq(
        cc,
    ) as int] == (cc, ROOK)) && (queen_side_right(q.castling[cc as int])
        ==> q.squares[king_start_sq(cc) as int] == (cc, KING) && q.squares[queen_side_rook_sq(
        cc,
    ) as int] == (cc, ROOK)) by {
        let r0 = p.castling[cc as int];
        assert(king_side_right(p.castling[cc as int]) ==> p.squares[king_start_sq(cc) as int] == (cc, KING)
            && p.squares[king_side_rook_sq(cc) as int] == (cc, ROOK));
        assert(queen_side_right(p.castling[cc as int]) ==> p.squares[king_start_sq(cc) as int] == (cc, KING)
            && p.squares[queen_side_rook_sq(cc) as int] == (cc, ROOK));
        assert(!king_side_right(0u8) && !queen_side_right(0u8) && !king_side_right(r0 & 2u8) && (
        queen_side_right(r0 & 2u8) == queen_side_right(r0)) && !queen_side_right(r0 & 1u8) && (
        king_side_right(r0 & 1u8) == king_side_right(r0)) && !king_side_right((r0 & 2u8) & 1u8)
            && !queen_side_right((r0 & 2u8) & 1u8) && !king_side_right(0u8 & 2u8) && !queen_side_right(
            0u8 & 2u8,
        ) && !king_side_right(0u8 & 1u8) && !queen_side_right(0u8 & 1u8)) by (bit_vector);
    }
    assert forall|cc: int| 0 <= cc < 2 implies #[trigger] q.castling[cc] < 4 by {
        let r0 = p.castling[cc];
        assert(p.castling[cc] < 4);
        assert(r0 & 2u8 < 4 && r0 & 1u8 < 4 && (r0 & 2u8) & 1u8 < 4) by (bit_vector);
    }
}


/// A chess position: bitboards per color and piece type, a cache of the piece
/// on each square, the side to move, castling rights and en-passant state.
pub struct Board {
    pieces: Vec<u64>,
    squares: Vec<(usize, usize)>,
    current_color: usize,
    castling_states: [u8; 2],
    is_en_passant_possible: bool,
    en_passant_pawn_square: usize,
    en_passant_capture_square: usize,
}

impl View for Board {
    type V = BoardView;

    closed spec fn view(&self) -> BoardView {
        BoardView {
            pieces: self.pieces@,
            squares: self.squares@,
            color: self.current_color,
            castling: self.castling_states@,
            ep: self.is_en_passant_possible,
            ep_pawn: self.en_passant_pawn_square,
            ep_capture: self.en_passant_capture_square,
        }
    }
}

impl Board {
    /// The board is a position (see `view_wf`).
    pub open spec fn wf(&self) -> bool {
        view_wf(self@)
    }

    /// Creates an empty board, white to move, with both castling rights set.
    pub fn new() -> (r: Self)
        ensures
            consistent(r@),
            forall|s: int| 0 <= s < 64 ==> #[trigger] r@.squares[s] == empty_square(),
            r@.color == WHITE,
            r@.castling == seq![3u8, 3u8],
            !r@.ep,
            r@.ep_pawn == INVALID_SQUARE,
            r@.ep_capture == INVALID_SQUARE,
    {
        let mut pieces: Vec<u64> = Vec::new();
        let mut i: usize = 0;
        while i < 14
            invariant
                i <= 14,
                pieces@.len() == i,
                forall|j: int| 0 <= j < i ==> #[trigger] pieces@[j] == 0,
            decreases 14 - i,
        {
            pieces.push(0);
            i += 1;
        }
        let mut squares: Vec<(usize, usize)> = Vec::new();
        let mut s: usize = 0;
        while s < 64
            invariant
                s <= 64,
                squares@.len() == s,
                forall|j: int| 0 <= j < s ==> #[trigger] squares@[j] == empty_square(),
            decreases 64 - s,
        {
            squares.push((INVALID_COLOR, NONE));
            s += 1;
        }
        let board = Board {
            pieces,
            squares,
            current_color: WHITE,
            castling_states: [3u8, 3u8],
            is_en_passant_possible: false,
            en_passant_pawn_square: INVALID_SQUARE,
            en_passant_capture_square: INVALID_SQUARE,
        };
        assert(board@.castling =~= seq![3u8, 3u8]);
        board
    }

    pub fn get_current_color(&self) -> (r: usize)
        ensures
            r == self@.color,
    {
        self.current_color
    }

    pub fn get_opposite_color(&self) -> (r: usize)
        requires
            self@.color < 2,
        ensures
            r == 1 - self@.color,
    {
        1 - self.current_color
    }

    /// Returns the square of the king of `color`.
    pub fn get_king_square(&self, color: usize) -> (r: usize)
        requires
            self.wf(),
            color < 2,
        ensures
            is_only_king(self@, color, r as int),
    {
        let ghost v = self@;
        let ghost k = choose|k: int| is_only_king(v, color, k);
        assert(is_only_king(v, color, k)) by {
            if color == WHITE {
                assert(one_king(v, WHITE));
            } else {
                assert(one_king(v, BLACK));
            }
        }
        let bb = self.pieces[7 * color + KING];
        assert(bb == piece_bb(v, color as int, KING as int));
        assert(bit_set(bb, k as u64));
        let r = crate::bitboards::get_ls1b(bb);
        assert(bit_set(piece_bb(v, color as int, KING as int), r as u64));
        r
    }

    /// Returns the bitboard of the pieces of `color` and `piece_type` (0: all of them).
    pub fn get_piece_bitboard(&self, color: usize, piece_type: usize) -> (r: u64)
        requires
            consistent(self@),
            color < 2,
            piece_type < 7,
        ensures
            r == piece_bb(self@, color as int, piece_type as int),
    {
        self.pieces[7 * color + piece_type]
    }

    /// Returns `(color, type)` of the piece on `square`.
    pub fn get_piece_on_square(&self, square: usize) -> (r: (usize, usize))
        requires
            consistent(self@),
            square < 64,
        ensures
            r == self@.squares[square as int],
    {
        self.squares[square]
    }

    /// Returns the bitboard of every piece on the board.
    pub fn get_all_occupied_squares(&self) -> (r: u64)
        requires
            consistent(self@),
        ensures
            r == piece_bb(self@, 0, 0) | piece_bb(self@, 1, 0),
            forall|s: u64| s < 64 ==> (bit_set(r, s) <==> self@.squares[s as int].1 != NONE),
    {
        let r = self.pieces[0] | self.pieces[7];
        assert forall|s: u64| s < 64 implies (bit_set(r, s) <==> self@.squares[s as int].1
            != NONE) by {
            assert(bit_set(piece_bb(self@, 0, 0), s) == (self@.squares[s as int].0 == 0));
            assert(bit_set(piece_bb(self@, 1, 0), s) == (self@.squares[s as int].0 == 1));
            assert(square_ok(self@.squares[s as int]));
        }
        r
    }

    /// Returns the bitboard of every piece of `color`.
    pub fn get_all_occupied_squares_for_color(&self, color: usize) -> (r: u64)
        requires
            consistent(self@),
            color < 2,
        ensures
            r == piece_bb(self@, color as int, 0),
    {
        self.pieces[7 * color]
    }

    pub fn is_white_to_move(&self) -> (r: bool)
        ensures
            r == (self@.color == WHITE),
    {
        self.current_color == WHITE
    }

    /// Returns the castling rights of `color`.
    pub fn get_castling_state(&self, color: usize) -> (r: u8)
        requires
            color < 2,
        ensures
            r == self@.castling[color as int],
    {
        self.castling_states[color]
    }

    pub fn is_en_passant_possible(&self) -> (r: bool)
        ensures
            r == self@.ep,
    {
        self.is_en_passant_possible
    }

    pub fn en_passant_pawn_square(&self) -> (r: usize)
        ensures
            r == self@.ep_pawn,
    {
        self.en_passant_pawn_square
    }

    pub fn en_passant_capture_square(&self) -> (r: usize)
        ensures
            r == self@.ep_capture,
    {
        self.en_passant_capture_square
    }

    /// Sets the en-passant flag; the squares change only when it is set.
    fn update_en_passant_state(&mut self, possible: bool, pawn_square: usize, capture_square: usize)
        ensures
            final(self)@.pieces == old(self)@.pieces,
            final(self)@.squares == old(self)@.squares,
            final(self)@.color == old(self)@.color,
            final(self)@.castling == old(self)@.castling,
            final(self)@.ep == possible,
            possible ==> final(self)@.ep_pawn == pawn_square && final(self)@.ep_capture
                == capture_square,
            !possible ==> final(self)@.ep_pawn == old(self)@.ep_pawn && final(self)@.ep_capture
                == old(self)@.ep_capture,
    {
        self.is_en_passant_possible = possible;
        if !possible {
            return ;
        }
        self.en_passant_pawn_square = pawn_square;
        self.en_passant_capture_square = capture_square;
    }

    /// Hands the move to the other side.
    pub fn switch_color(&mut self)
        requires
            old(self)@.color < 2,
        ensures
            final(self)@ == (BoardView { color: (1 - old(self)@.color) as usize, ..old(self)@ }),
    {
        self.current_color = 1 - self.current_color;
    }

    fn delete_piece(&mut self, square: usize)
        requires
            consistent(old(self)@),
            square < 64,
            old(self)@.squares[square as int].1 != NONE,
        ensures
            consistent(final(self)@),
            final(self)@.squares == old(self)@.squares.update(square as int, empty_square()),
            same_state(final(self)@, old(self)@),
    {
        let ghost v = self@;
        assert(square_ok(v.squares[square as int]));
        let inverted_bit: u64 = !get_bit_from_square(square);
        let (color, piece_type) = self.squares[square];
        let i0 = 7 * color;
        let it = 7 * color + piece_type;
        let b0 = self.pieces[i0] & inverted_bit;
        self.pieces.set(i0, b0);
        let bt = self.pieces[it] & inverted_bit;
        self.pieces.set(it, bt);
        self.squares.set(square, (INVALID_COLOR, NONE));
        let ghost w = self@;
        assert forall|c: int, t: int, s: u64|
            0 <= c < 2 && 1 <= t < 7 && s < 64 implies (#[trigger] bit_set(bb_at(w.pieces, c, t), s)
            <==> w.squares[s as int] == (c as usize, t as usize)) by {
            assert(bit_set(bb_at(v.pieces, c, t), s) <==> v.squares[s as int] == (c as usize, t as usize));
        }
        assert forall|c: int, s: u64|
            0 <= c < 2 && s < 64 implies (#[trigger] bit_set(bb_at(w.pieces, c, 0), s)
            <==> w.squares[s as int].0 == c as usize) by {
            assert(bit_set(bb_at(v.pieces, c, 0), s) <==> v.squares[s as int].0 == c as usize);
        }
    }

    fn create_piece(&mut self, square: usize, color: usize, piece_type: usize)
        requires
            consistent(old(self)@),
            square < 64,
            color < 2,
            1 <= piece_type < 7,
            old(self)@.squares[square as int].1 == NONE,
        ensures
            consistent(final(self)@),
            final(self)@.squares == old(self)@.squares.update(square as int, (color, piece_type)),
            same_state(final(self)@, old(self)@),
    {
        let ghost v = self@;
        assert(square_ok(v.squares[square as int]));
        let bit = get_bit_from_square(square);
        let i0 = 7 * color;
        let it = 7 * color + piece_type;
        let b0 = self.pieces[i0] | bit;
        self.pieces.set(i0, b0);
        let bt = self.pieces[it] | bit;
        self.pieces.set(it, bt);
        self.squares.set(square, (color, piece_type));
        let ghost w = self@;
        assert forall|c: int, t: int, s: u64|
            0 <= c < 2 && 1 <= t < 7 && s < 64 implies (#[trigger] bit_set(bb_at(w.pieces, c, t), s)
            <==> w.squares[s as int] == (c as usize, t as usize)) by {
            assert(bit_set(bb_at(v.pieces, c, t), s) <==> v.squares[s as int] == (c as usize, t as usize));
        }
        assert forall|c: int, s: u64|
            0 <= c < 2 && s < 64 implies (#[trigger] bit_set(bb_at(w.pieces, c, 0), s)
            <==> w.squares[s as int].0 == c as usize) by {
            assert(bit_set(bb_at(v.pieces, c, 0), s) <==> v.squares[s as int].0 == c as usize);
        }
    }
}


impl Board {
    fn set_castling_states(&mut self, white: u8, black: u8)
        ensures
            final(self)@ == (BoardView { castling: seq![white, black], ..old(self)@ }),
    {
        self.castling_states = [white, black];
        assert(self@.castling =~= seq![white, black]);
    }

    /// Plays `move_to_make` and returns what is needed to take it back.
    pub fn make_move(&mut self, move_to_make: Move) -> (r: MoveRecord)
        requires
            old(self).wf(),
            move_ok(old(self)@, move_to_make),
        ensures
            made(old(self)@, move_to_make, final(self)@),
            is_record_of(r, old(self)@, move_to_make),
            final(self).wf(),
    {
        let ghost p = self@;
        let old_castling_states = self.castling_states;
        let old_ep = self.is_en_passant_possible;
        let old_ep_pawn = self.en_passant_pawn_square;
        let old_ep_capture = self.en_passant_capture_square;
        let current_color = self.current_color;
        let opposite_color = 1 - current_color;
        let start_square = move_to_make.start_square;
        let target_square = move_to_make.target_square;
        let (_, mut piece_type) = self.squares[start_square];
        assert(square_ok(p.squares[start_square as int]));
        assert(square_ok(p.squares[move_to_make.capture_square as int]));
        self.delete_piece(start_square);
        let captured_square = move_to_make.capture_square;
        let (_, captured_piece_type) = self.squares[captured_square];
        if captured_piece_type != NONE {
            self.delete_piece(captured_square);
        }
        self.update_en_passant_state(false, INVALID_SQUARE, INVALID_SQUARE);
        let king_side_castling_rook_square = get_king_side_castling_rook_square(current_color);
        let queen_side_castling_rook_square = get_queen_side_castling_rook_square(current_color);
        match move_to_make.move_type {
            MoveType::PromotionQueen => piece_type = QUEEN,
            MoveType::PromotionKnight => piece_type = KNIGHT,
            MoveType::PromotionRook => piece_type = ROOK,
            MoveType::PromotionBishop => piece_type = BISHOP,
            MoveType::PawnDoubleMove => self.update_en_passant_state(
                true,
                target_square,
                (start_square + target_square) / 2,
            ),
            MoveType::CastlingKingSide => {
                self.delete_piece(king_side_castling_rook_square);
                self.create_piece(
                    get_castled_king_side_rook_square(current_color),
                    current_color,
                    ROOK,
                );
            },
            MoveType::CastlingQueenSide => {
                self.delete_piece(queen_side_castling_rook_square);
                self.create_piece(
                    get_castled_queen_side_rook_square(current_color),
                    current_color,
                    ROOK,
                );
            },
            _ => {},
        }
        assert(piece_type == placed_type(p, move_to_make));
        self.create_piece(target_square, current_color, piece_type);
        let mut castling_state = self.castling_states[current_color];
        if piece_type == KING {
            castling::annul(&mut castling_state);
        }
        if piece_type == ROOK {
            if start_square == king_side_castling_rook_square {
                castling::annul_king_side(&mut castling_state);
            }
            if start_square == queen_side_castling_rook_square {
                castling::annul_queen_side(&mut castling_state);
            }
        }
        let mut opposite_castling_state = self.castling_states[opposite_color];
        if target_square == get_king_side_castling_rook_square(opposite_color) {
            castling::annul_king_side(&mut opposite_castling_state);
        }
        if target_square == get_queen_side_castling_rook_square(opposite_color) {
            castling::annul_queen_side(&mut opposite_castling_state);
        }
        if current_color == WHITE {
            self.set_castling_states(castling_state, opposite_castling_state);
        } else {
            self.set_castling_states(opposite_castling_state, castling_state);
        }
        self.switch_color();
        assert(self@.squares =~= make_squares(p, move_to_make));
        assert(self@.castling =~= make_castling(p, move_to_make));
        proof {
            lemma_make_preserves_wf(p, move_to_make, self@);
        }
        MoveRecord::new(
            move_to_make,
            captured_piece_type,
            old_ep,
            old_ep_pawn,
            old_ep_capture,
            old_castling_states,
        )
    }

    /// Takes back the move of `move_record`.
    pub fn undo_move(&mut self, move_record: MoveRecord)
        requires
            consistent(old(self)@),
            undo_ok(old(self)@, move_record),
        ensures
            undone(old(self)@, move_record, final(self)@),
    {
        let ghost q = self@;
        let mov = move_record.mov;
        let start_square = mov.start_square;
        let target_square = mov.target_square;
        let captured_piece_type = move_record.captured_piece_type;
        let captured_square = mov.capture_square;
        self.set_castling_states(
            move_record.old_castling_states[0],
            move_record.old_castling_states[1],
        );
        self.is_en_passant_possible = move_record.is_en_passant_possible;
        self.en_passant_pawn_square = move_record.en_passant_pawn_square;
        self.en_passant_capture_square = move_record.en_passant_capture_square;
        let (_, mut moved_piece_type) = self.squares[target_square];
        assert(square_ok(q.squares[target_square as int]));
        self.switch_color();
        let current_color = self.current_color;
        self.delete_piece(target_square);
        match mov.move_type {
            MoveType::PromotionQueen
            | MoveType::PromotionKnight
            | MoveType::PromotionRook
            | MoveType::PromotionBishop => {
                moved_piece_type = PAWN;
            },
            MoveType::CastlingKingSide => {
                self.delete_piece(get_castled_king_side_rook_square(current_color));
                self.create_piece(
                    get_king_side_castling_rook_square(current_color),
                    current_color,
                    ROOK,
                );
            },
            MoveType::CastlingQueenSide => {
                self.delete_piece(get_castled_queen_side_rook_square(current_color));
                self.create_piece(
                    get_queen_side_castling_rook_square(current_color),
                    current_color,
                    ROOK,
                );
            },
            _ => {},
        }
        self.create_piece(start_square, current_color, moved_piece_type);
        if captured_piece_type == NONE {
            assert(self@.squares =~= undo_squares(q, move_record));
            assert(self@.castling =~= move_record.old_castling_states@);
            return ;
        }
        let opposite_color = 1 - self.current_color;
        self.create_piece(captured_square, opposite_color, captured_piece_type);
        assert(self@.squares =~= undo_squares(q, move_record));
        assert(self@.castling =~= move_record.old_castling_states@);
    }
}


/// In a consistent board the union bitboard of a color is the union of its six
/// piece-type bitboards.
pub proof fn lemma_union_of_piece_types(v: BoardView, c: int)
    requires
        consistent(v),
        0 <= c < 2,
    ensures
        piece_bb(v, c, 0) == piece_bb(v, c, 1) | piece_bb(v, c, 2) | piece_bb(v, c, 3) | piece_bb(
            v,
            c,
            4,
        ) | piece_bb(v, c, 5) | piece_bb(v, c, 6),
{
    let u = piece_bb(v, c, 1) | piece_bb(v, c, 2) | piece_bb(v, c, 3) | piece_bb(v, c, 4)
        | piece_bb(v, c, 5) | piece_bb(v, c, 6);
    assert forall|s: u64| s < 64 implies bit_set(piece_bb(v, c, 0), s) == bit_set(u, s) by {
        assert(square_ok(v.squares[s as int]));
        assert(bit_set(bb_at(v.pieces, c, 0), s) == (v.squares[s as int].0 == c as usize));
        assert(bit_set(bb_at(v.pieces, c, 1), s) == (v.squares[s as int] == (c as usize, 1usize)));
        assert(bit_set(bb_at(v.pieces, c, 2), s) == (v.squares[s as int] == (c as usize, 2usize)));
        assert(bit_set(bb_at(v.pieces, c, 3), s) == (v.squares[s as int] == (c as usize, 3usize)));
        assert(bit_set(bb_at(v.pieces, c, 4), s) == (v.squares[s as int] == (c as usize, 4usize)));
        assert(bit_set(bb_at(v.pieces, c, 5), s) == (v.squares[s as int] == (c as usize, 5usize)));
        assert(bit_set(bb_at(v.pieces, c, 6), s) == (v.squares[s as int] == (c as usize, 6usize)));
    }
    lemma_bits_ext(piece_bb(v, c, 0), u);
}

/// In a consistent board no square holds pieces of both colors.
pub proof fn lemma_colors_disjoint(v: BoardView)
    requires
        consistent(v),
    ensures
        piece_bb(v, 0, 0) & piece_bb(v, 1, 0) == 0,
{
    let x = piece_bb(v, 0, 0) & piece_bb(v, 1, 0);
    assert forall|s: u64| s < 64 implies bit_set(x, s) == bit_set(0u64, s) by {
        assert(bit_set(bb_at(v.pieces, 0, 0), s) == (v.squares[s as int].0 == 0usize));
        assert(bit_set(bb_at(v.pieces, 1, 0), s) == (v.squares[s as int].0 == 1usize));
    }
    lemma_bits_ext(x, 0u64);
}

/// In a position each king bitboard has exactly one bit set: the king's square.
pub proof fn lemma_one_king_bit(v: BoardView, c: usize)
    requires
        view_wf(v),
        c < 2,
    ensures
        exists|k: u64| k < 64 && piece_bb(v, c as int, KING as int) == 1u64 << k,
        popcount(piece_bb(v, c as int, KING as int)) == 1,
{
    assert(one_king(v, c)) by {
        if c == WHITE {
        } else {
        }
    }
    let k = choose|k: int| is_only_king(v, c, k);
    let kb = k as u64;
    assert forall|s: u64| s < 64 implies bit_set(piece_bb(v, c as int, KING as int), s) == bit_set(
        1u64 << kb,
        s,
    ) by {
        assert(bit_set(bb_at(v.pieces, c as int, 1), s) == (v.squares[s as int] == (c, 1usize)));
    }
    lemma_bits_ext(piece_bb(v, c as int, KING as int), 1u64 << kb);
    lemma_popcount_single(kb, 64);
}

/// A bitboard with one bit set counts one bit once the count reaches past it.
proof fn lemma_popcount_single(k: u64, n: nat)
    requires
        k < 64,
        n <= 64,
    ensures
        popcount_below(1u64 << k, n) == if n > k { 1nat } else { 0nat },
    decreases n,
{
    if n > 0 {
        lemma_popcount_single(k, (n - 1) as nat);
        assert(bit_set(1u64 << k, (n - 1) as u64) == (k == (n - 1) as u64));
    }
}

/// In a consistent board a square holds a piece exactly when its bit is set in
/// the union bitboard of that piece's color.
pub proof fn lemma_square_cache_matches(v: BoardView, s: u64)
    requires
        consistent(v),
        s < 64,
    ensures
        v.squares[s as int].1 != NONE <==> (v.squares[s as int].0 < 2 && bit_set(
            piece_bb(v, v.squares[s as int].0 as int, 0),
            s,
        )),
        v.squares[s as int].1 == NONE <==> !bit_set(piece_bb(v, 0, 0), s) && !bit_set(
            piece_bb(v, 1, 0),
            s,
        ),
{
    assert(square_ok(v.squares[s as int]));
    assert(bit_set(bb_at(v.pieces, 0, 0), s) == (v.squares[s as int].0 == 0usize));
    assert(bit_set(bb_at(v.pieces, 1, 0), s) == (v.squares[s as int].0 == 1usize));
}


/// The FEN text of rank `y` from the `i`-th square on (counted from the
/// a-file), with `run` empty squares not yet written.
pub open spec fn rank_text(v: BoardView, y: int, i: int, run: int) -> Seq<u8>
    decreases 8 - i,
{
    if i >= 8 {
        if run > 0 { seq![(48 + run) as u8] } else { seq![] }
    } else {
        let p = v.squares[(7 - i) + 8 * y];
        if p.1 == NONE {
            rank_text(v, y, i + 1, run + 1)
        } else {
            (if run > 0 { seq![(48 + run) as u8] } else { seq![] }) + seq![fen_letter(p.0, p.1)]
                + rank_text(v, y, i + 1, 0)
        }
    }
}

/// The FEN placement text from the `k`-th rank counted from the top (rank
/// `7 - k`) down to the first rank, ranks separated by slashes.
pub open spec fn placement_from(v: BoardView, k: int) -> Seq<u8>
    decreases 8 - k,
{
    if k >= 8 {
        seq![]
    } else {
        rank_text(v, 7 - k, 0, 0) + (if k < 7 { seq![47u8] } else { seq![] }) + placement_from(
            v,
            k + 1,
        )
    }
}

/// `KQkq` for the rights that are set, or `-`.
pub open spec fn castling_text(v: BoardView) -> Seq<u8> {
    let t = (if king_side_right(v.castling[0]) { seq![75u8] } else { seq![] }) + (if queen_side_right(
        v.castling[0],
    ) { seq![81u8] } else { seq![] }) + (if king_side_right(v.castling[1]) { seq![107u8] } else { seq![] })
        + (if queen_side_right(v.castling[1]) { seq![113u8] } else { seq![] });
    if t.len() == 0 { seq![45u8] } else { t }
}

/// The FEN text of a position: placement, side to move, castling rights and
/// en-passant target.
pub open spec fn fen_text(v: BoardView) -> Seq<u8> {
    placement_from(v, 0) + seq![32u8, if v.color == WHITE { 119u8 } else { 98u8 }, 32u8]
        + castling_text(v) + seq![32u8] + if v.ep {
        square_name_bytes(v.ep_capture as int)
    } else {
        seq![45u8]
    }
}

/// The text that follows rank `7 - k` in the placement: a slash and the
/// lower ranks.
pub open spec fn rank_suffix(v: BoardView, k: int) -> Seq<u8> {
    (if k < 7 { seq![47u8] } else { seq![] }) + placement_from(v, k + 1)
}

/// The square of the `j`-th file (counted from the a-file) of rank `y`.
pub open spec fn rank_square(y: int, j: int) -> int {
    (7 - j) + 8 * y
}

/// The number of empty squares of rank `y` from the `j`-th file on.
pub open spec fn empty_run(v: BoardView, y: int, j: int) -> int
    decreases 8 - j,
{
    if j >= 8 || v.squares[rank_square(y, j)].1 != NONE {
        0
    } else {
        1 + empty_run(v, y, j + 1)
    }
}

proof fn lemma_empty_run(v: BoardView, y: int, j: int)
    requires
        0 <= j <= 8,
    ensures
        0 <= empty_run(v, y, j) <= 8 - j,
        forall|jj: int| j <= jj < j + empty_run(v, y, j) ==> #[trigger] v.squares[rank_square(y, jj)].1 == NONE,
        j + empty_run(v, y, j) == 8 || v.squares[rank_square(y, j + empty_run(v, y, j))].1 != NONE,
    decreases 8 - j,
{
    if j < 8 && v.squares[rank_square(y, j)].1 == NONE {
        lemma_empty_run(v, y, j + 1);
    }
}

proof fn lemma_rank_text_skip(v: BoardView, y: int, j: int, run: int, m: int)
    requires
        0 <= j,
        0 <= m,
        j + m <= 8,
        forall|jj: int| j <= jj < j + m ==> #[trigger] v.squares[rank_square(y, jj)].1 == NONE,
    ensures
        rank_text(v, y, j, run) == rank_text(v, y, j + m, run + m),
    decreases m,
{
    if m > 0 {
        assert(v.squares[rank_square(y, j)].1 == NONE);
        lemma_rank_text_skip(v, y, j + 1, run + 1, m - 1);
    }
}

/// A rank's text from an empty square on starts with the digit of its run of
/// empty squares.
proof fn lemma_rank_text_digit(v: BoardView, y: int, j: int)
    requires
        0 <= j < 8,
        v.squares[rank_square(y, j)].1 == NONE,
    ensures
        1 <= empty_run(v, y, j) <= 8 - j,
        rank_text(v, y, j, 0) == seq![(48 + empty_run(v, y, j)) as u8] + rank_text(
            v,
            y,
            j + empty_run(v, y, j),
            0,
        ),
{
    lemma_empty_run(v, y, j);
    let d = empty_run(v, y, j);
    lemma_rank_text_skip(v, y, j, 0, d);
    if j + d == 8 {
        assert(rank_text(v, y, 8, 0) =~= seq![]);
        assert(seq![(48 + d) as u8] + rank_text(v, y, j + d, 0) =~= seq![(48 + d) as u8]);
    } else {
        let p = v.squares[rank_square(y, j + d)];
        assert(rank_text(v, y, j + d, 0) == seq![] + seq![fen_letter(p.0, p.1)] + rank_text(v, y, j + d + 1, 0));
        assert(rank_text(v, y, j + d, d) == seq![(48 + d) as u8] + seq![fen_letter(p.0, p.1)] + rank_text(v, y, j + d + 1, 0));
        assert(seq![(48 + d) as u8] + rank_text(v, y, j + d, 0) =~= seq![(48 + d) as u8] + seq![fen_letter(p.0, p.1)] + rank_text(v, y, j + d + 1, 0));
    }
}

proof fn lemma_fen_letter_injective(c1: usize, t1: usize, c2: usize, t2: usize)
    requires
        c1 < 2,
        c2 < 2,
        1 <= t1 < 7,
        1 <= t2 < 7,
        fen_letter(c1, t1) == fen_letter(c2, t2),
    ensures
        c1 == c2,
        t1 == t2,
{
}

/// The placement text of `p` opens `b` and is followed by a blank.
pub open spec fn placement_given(p: BoardView, b: Seq<u8>) -> bool {
    &&& consistent(p)
    &&& placement_from(p, 0).len() < b.len()
    &&& b.subrange(0, placement_from(p, 0).len() as int) == placement_from(p, 0)
    &&& b[placement_from(p, 0).len() as int] == 32
}

/// Two boards hold the same position: the en-passant squares count only
/// while en passant is possible.
pub open spec fn same_position(a: BoardView, b: BoardView) -> bool {
    &&& a.pieces == b.pieces
    &&& a.squares == b.squares
    &&& a.color == b.color
    &&& a.castling == b.castling
    &&& a.ep == b.ep
    &&& a.ep ==> a.ep_pawn == b.ep_pawn && a.ep_capture == b.ep_capture
}

/// `b` holds the castling text of `p` from `c0` on, closed by a blank.
pub open spec fn castling_given(p: BoardView, b: Seq<u8>, c0: int) -> bool {
    &&& 0 <= c0
    &&& c0 + castling_text(p).len() < b.len()
    &&& b.subrange(c0, c0 + castling_text(p).len()) == castling_text(p)
    &&& b[c0 + castling_text(p).len()] == 32
}

/// Reads the castling field from `c0`: the letters `KQkq` that are present, in
/// this order, or `-`; returns where the closing blank stands and which
/// letters were there.
#[verifier::spinoff_prover]
#[verifier::rlimit(100)]
fn parse_castling(bytes: &[u8], c0: usize) -> (r: Option<(usize, bool, bool, bool, bool)>)
    ensures
        r matches Some(t) ==> c0 < t.0 < bytes@.len() && bytes@[t.0 as int] == 32,
        forall|p: BoardView|
            p.castling.len() == 2 && castling_given(p, bytes@, c0 as int) ==> (r matches Some(t) && t.0 == c0
                + castling_text(p).len() && t.1 == king_side_right(p.castling[0]) && t.2
                == queen_side_right(p.castling[0]) && t.3 == king_side_right(p.castling[1]) && t.4
                == queen_side_right(p.castling[1])),
{
    let ghost b = bytes@;
    let len = bytes.len();
    let mut i = c0;
    let mut white_king_side = false;
    let mut white_queen_side = false;
    let mut black_king_side = false;
    let mut black_queen_side = false;
    if i < len && bytes[i] == 75 {
        white_king_side = true;
        i += 1;
    }
    let i1 = i;
    if i < len && bytes[i] == 81 {
        white_queen_side = true;
        i += 1;
    }
    let i2 = i;
    if i < len && bytes[i] == 107 {
        black_king_side = true;
        i += 1;
    }
    let i3 = i;
    if i < len && bytes[i] == 113 {
        black_queen_side = true;
        i += 1;
    }
    let i4 = i;
    if i == c0 {
        if i < len && bytes[i] == 45 {
            i += 1;
        } else {
            proof {
                assert forall|p: BoardView| !(p.castling.len() == 2 && castling_given(p, b, c0 as int)) by {
                    if p.castling.len() == 2 && castling_given(p, b, c0 as int) {
                        lemma_castling_text_bytes(p, b, c0 as int);
                    }
                }
            }
            return None;
        }
    }
    if i >= len || bytes[i] != 32 {
        proof {
            assert forall|p: BoardView| !(p.castling.len() == 2 && castling_given(p, b, c0 as int)) by {
                if p.castling.len() == 2 && castling_given(p, b, c0 as int) {
                    lemma_castling_text_bytes(p, b, c0 as int);
                }
            }
        }
        return None;
    }
    proof {
        assert forall|p: BoardView| p.castling.len() == 2 && castling_given(p, b, c0 as int) implies i == c0
            + castling_text(p).len() && white_king_side == king_side_right(p.castling[0])
            && white_queen_side == queen_side_right(p.castling[0]) && black_king_side
            == king_side_right(p.castling[1]) && black_queen_side == queen_side_right(p.castling[1]) by {
            lemma_castling_text_bytes(p, b, c0 as int);
        }
    }
    Some((i, white_king_side, white_queen_side, black_king_side, black_queen_side))
}

/// The bytes of the castling text, one optional letter after the other.
proof fn lemma_castling_text_bytes(p: BoardView, b: Seq<u8>, c0: int)
    requires
        p.castling.len() == 2,
        castling_given(p, b, c0),
    ensures
        ({
            let k1 = king_side_right(p.castling[0]);
            let q1 = queen_side_right(p.castling[0]);
            let k2 = king_side_right(p.castling[1]);
            let q2 = queen_side_right(p.castling[1]);
            let n1: int = if k1 { 1int } else { 0int };
            let n2: int = n1 + if q1 { 1int } else { 0int };
            let n3: int = n2 + if k2 { 1int } else { 0int };
            let n4: int = n3 + if q2 { 1int } else { 0int };
            &&& k1 ==> b[c0] == 75
            &&& !k1 ==> b[c0] != 75
            &&& q1 ==> b[c0 + n1] == 81
            &&& !q1 ==> b[c0 + n1] != 81
            &&& k2 ==> b[c0 + n2] == 107
            &&& !k2 ==> b[c0 + n2] != 107
            &&& q2 ==> b[c0 + n3] == 113
            &&& !q2 ==> b[c0 + n3] != 113
            &&& n4 == 0 ==> b[c0] == 45 && b[c0 + 1] == 32 && castling_text(p).len() == 1
            &&& n4 > 0 ==> b[c0 + n4] == 32 && castling_text(p).len() == n4
        }),
{
    let k1 = king_side_right(p.castling[0]);
    let q1 = queen_side_right(p.castling[0]);
    let k2 = king_side_right(p.castling[1]);
    let q2 = queen_side_right(p.castling[1]);
    let t = (if k1 { seq![75u8] } else { seq![] }) + (if q1 { seq![81u8] } else { seq![] }) + (if k2 {
        seq![107u8]
    } else {
        seq![]
    }) + (if q2 { seq![113u8] } else { seq![] });
    let ct = castling_text(p);
    assert(forall|x: int| 0 <= x < ct.len() ==> b[c0 + x] == #[trigger] ct[x]) by {
        assert forall|x: int| 0 <= x < ct.len() implies b[c0 + x] == #[trigger] ct[x] by {
            assert(b.subrange(c0, c0 + ct.len())[x] == b[c0 + x]);
        }
    }
    let whole = ct + seq![32u8];
    assert forall|x: int| 0 <= x < whole.len() implies b[c0 + x] == #[trigger] whole[x] by {
        if x < ct.len() {
            assert(b[c0 + x] == ct[x]);
        }
    }
    if t.len() == 0 {
        assert(ct =~= seq![45u8]);
        assert(b[c0] == whole[0]);
        assert(b[c0 + 1] == whole[1]);
    } else {
        assert(ct == t);
        let tw = t + seq![32u8];
        assert(whole =~= tw);
        assert(b[c0] == whole[0]);
        assert(b[c0 + 1] == whole[1]);
        assert(t.len() >= 2 ==> b[c0 + 2] == whole[2]);
        assert(t.len() >= 3 ==> b[c0 + 3] == whole[3]);
        assert(t.len() >= 4 ==> b[c0 + 4] == whole[4]);
    }
}

/// `b` opens with the FEN text of `p`, then ends or goes on after a blank
/// (with the move counters, say).
pub open spec fn fen_opens(b: Seq<u8>, p: BoardView) -> bool {
    let f = fen_text(p);
    &&& f.len() <= b.len()
    &&& b.subrange(0, f.len() as int) == f
    &&& (b.len() == f.len() || b[f.len() as int] == 32)
}

/// Where each field of a position's FEN text stands.
proof fn lemma_fen_text_layout(p: BoardView, b: Seq<u8>)
    requires
        fen_opens(b, p),
    ensures
        ({
            let n = placement_from(p, 0).len() as int;
            let c0 = n + 3;
            let e0 = c0 + castling_text(p).len() + 1;
            &&& b.subrange(0, n) == placement_from(p, 0)
            &&& b[n] == 32
            &&& b[n + 1] == if p.color == WHITE { 119u8 } else { 98u8 }
            &&& b[n + 2] == 32
            &&& castling_given(p, b, c0)
            &&& p.ep ==> e0 + 2 <= b.len() && b[e0] == square_name_bytes(p.ep_capture as int)[0]
                && b[e0 + 1] == square_name_bytes(p.ep_capture as int)[1] && (b.len() == e0 + 2
                || b[e0 + 2] == 32)
            &&& !p.ep ==> e0 + 1 <= b.len() && b[e0] == 45 && (b.len() == e0 + 1 || b[e0 + 1] == 32)
        }),
{
    let f = fen_text(p);
    let pf = placement_from(p, 0);
    let n = pf.len() as int;
    let ct = castling_text(p);
    let c0 = n + 3;
    let e0 = c0 + ct.len() + 1;
    let side: u8 = if p.color == WHITE { 119u8 } else { 98u8 };
    let ept = if p.ep { square_name_bytes(p.ep_capture as int) } else { seq![45u8] };
    assert(f == pf + seq![32u8, side, 32u8] + ct + seq![32u8] + ept);
    assert forall|i: int| 0 <= i < f.len() implies b[i] == #[trigger] f[i] by {
        assert(b.subrange(0, f.len() as int)[i] == b[i]);
    }
    assert(f.subrange(0, n) =~= pf);
    assert(b.subrange(0, n) =~= f.subrange(0, n));
    assert(f[n] == 32 && f[n + 1] == side && f[n + 2] == 32);
    assert(b[n] == 32 && b[n + 1] == side && b[n + 2] == 32);
    assert(f.subrange(c0, c0 + ct.len()) =~= ct);
    assert(b.subrange(c0, c0 + ct.len()) =~= f.subrange(c0, c0 + ct.len()));
    assert(f[c0 + ct.len()] == 32);
    assert(b[c0 + ct.len()] == 32);
    assert(f.len() == e0 + ept.len());
    assert(f[e0] == ept[0]);
    assert(b[e0] == ept[0]);
    if p.ep {
        assert(f[e0 + 1] == ept[1]);
        assert(b[e0 + 1] == ept[1]);
    }
}

proof fn lemma_rights_equal(r: u8, c: u8)
    by (bit_vector)
    requires
        r < 4,
        c < 4,
        (r & 1u8 == 1u8) == (c & 1u8 == 1u8),
        (r & 2u8 == 2u8) == (c & 2u8 == 2u8),
    ensures
        r == c,
{
}

proof fn lemma_square_name_injective(s1: int, s2: int)
    requires
        0 <= s1 < 64,
        0 <= s2 < 64,
        square_name_bytes(s1) == square_name_bytes(s2),
    ensures
        s1 == s2,
{
    assert(square_name_bytes(s1)[0] == square_name_bytes(s2)[0]);
    assert(square_name_bytes(s1)[1] == square_name_bytes(s2)[1]);
}

proof fn lemma_rank_text_same(a: BoardView, b: BoardView, y: int, i: int, run: int)
    requires
        a.squares == b.squares,
    ensures
        rank_text(a, y, i, run) == rank_text(b, y, i, run),
    decreases 8 - i,
{
    if i < 8 {
        lemma_rank_text_same(a, b, y, i + 1, run + 1);
        lemma_rank_text_same(a, b, y, i + 1, 0);
    }
}

proof fn lemma_placement_same(a: BoardView, b: BoardView, k: int)
    requires
        a.squares == b.squares,
    ensures
        placement_from(a, k) == placement_from(b, k),
    decreases 8 - k,
{
    if k < 8 {
        lemma_rank_text_same(a, b, 7 - k, 0, 0);
        lemma_placement_same(a, b, k + 1);
    }
}

/// Two boards holding the same position have the same FEN text.
pub proof fn lemma_fen_text_same(a: BoardView, b: BoardView)
    requires
        same_position(a, b),
    ensures
        fen_text(a) == fen_text(b),
{
    lemma_placement_same(a, b, 0);
}

/// Why a FEN string was refused.
#[derive(Clone, Copy, PartialEq, Eq, Structural, Debug)]
pub enum FenError {
    MalformedFen,
}

/// Castling rights with the given king-side and queen-side bits.
fn rights_from(king_side: bool, queen_side: bool) -> (r: u8)
    ensures
        king_side_right(r) == king_side,
        queen_side_right(r) == queen_side,
        r < 4,
{
    assert(!king_side_right(0u8) && !queen_side_right(0u8) && king_side_right(1u8) && !queen_side_right(
        1u8,
    ) && !king_side_right(2u8) && queen_side_right(2u8) && king_side_right(3u8) && queen_side_right(3u8))
        by (bit_vector);
    if king_side && queen_side {
        3
    } else if king_side {
        1
    } else if queen_side {
        2
    } else {
        0
    }
}

/// Returns the one square holding the king of `color`, if there is exactly one.
fn find_only_king(board: &Board, color: usize) -> (r: Option<usize>)
    requires
        consistent(board@),
        color < 2,
    ensures
        r matches Some(k) ==> is_only_king(board@, color, k as int),
        one_king(board@, color) ==> r is Some,
{
    let mut found: Option<usize> = None;
    let mut s: usize = 0;
    while s < 64
        invariant
            consistent(board@),
            s <= 64,
            found matches Some(k) ==> k < s && board@.squares[k as int] == (color, KING) && forall|j: int|
                0 <= j < s && board@.squares[j] == (color, KING) ==> j == k,
            found is None ==> forall|j: int| 0 <= j < s ==> board@.squares[j] != (color, KING),
        decreases 64 - s,
    {
        if board.square_holds(s, color, KING) {
            if found.is_some() {
                proof {
                    if one_king(board@, color) {
                        let k = choose|k: int| is_only_king(board@, color, k);
                        let f = found->Some_0;
                        assert(board@.squares[f as int] == (color, KING));
                    }
                }
                return None;
            }
            found = Some(s);
        }
        s += 1;
    }
    proof {
        if one_king(board@, color) {
            let k = choose|k: int| is_only_king(board@, color, k);
            assert(board@.squares[k] == (color, KING));
        }
    }
    found
}

impl Board {
    fn square_holds(&self, square: usize, color: usize, piece_type: usize) -> (r: bool)
        requires
            consistent(self@),
            square < 64,
        ensures
            r == (self@.squares[square as int] == (color, piece_type)),
    {
        let (c, t) = self.squares[square];
        c == color && t == piece_type
    }

    /// Places the pieces of the FEN placement field that opens `bytes` on an
    /// empty board, and returns where the field ends (at a blank); `None` when
    /// the field is malformed.
    #[verifier::spinoff_prover]
    #[verifier::rlimit(100)]
    fn load_position(&mut self, bytes: &[u8]) -> (r: Option<usize>)
        requires
            consistent(old(self)@),
            forall|s: int| 0 <= s < 64 ==> #[trigger] old(self)@.squares[s] == empty_square(),
        ensures
            consistent(final(self)@),
            same_state(final(self)@, old(self)@),
            r matches Some(e) ==> e < bytes@.len() && bytes@[e as int] == 32,
            forall|p: BoardView|
                placement_given(p, bytes@) ==> r == Some(placement_from(p, 0).len() as usize)
                    && final(self)@.squares == p.squares,
    {
        let ghost b = bytes@;
        let mut i: usize = 0;
        let mut k: usize = 0;
        while k < 8
            invariant
                consistent(self@),
                same_state(self@, old(self)@),
                b == bytes@,
                i <= bytes@.len(),
                k <= 8,
                forall|s: int|
                    0 <= s < 64 && s / 8 <= 7 - k ==> #[trigger] self@.squares[s] == empty_square(),
                forall|p: BoardView|
                    placement_given(p, b) ==> i <= placement_from(p, 0).len() && b.subrange(
                        i as int,
                        placement_from(p, 0).len() as int,
                    ) == placement_from(p, k as int) && forall|s: int|
                        0 <= s < 64 && s / 8 > 7 - k ==> #[trigger] self@.squares[s] == p.squares[s],
            decreases 8 - k,
        {
            let y = 7 - k;
            let mut j: usize = 0;
            let ghost i0 = i;
            while i < bytes.len() && bytes[i] != 47 && bytes[i] != 32
                invariant
                    consistent(self@),
                    same_state(self@, old(self)@),
                    b == bytes@,
                    i <= bytes@.len(),
                    k < 8,
                    y == 7 - k,
                    j <= 8,
                    forall|s: int|
                        0 <= s < 64 && (s / 8 < y || (s / 8 == y && 7 - s % 8 >= j))
                            ==> #[trigger] self@.squares[s] == empty_square(),
                    forall|p: BoardView|
                        placement_given(p, b) ==> i <= placement_from(p, 0).len() && b.subrange(
                            i as int,
                            placement_from(p, 0).len() as int,
                        ) == rank_text(p, y as int, j as int, 0) + rank_suffix(p, k as int) && forall|s: int|
                            0 <= s < 64 && (s / 8 > y || (s / 8 == y && 7 - s % 8 < j))
                                ==> #[trigger] self@.squares[s] == p.squares[s],
                decreases bytes@.len() - i,
            {
                let c = bytes[i];
                let ghost j0 = j as int;
                if c >= 49 && c <= 56 {
                    let d = (c - 48) as usize;
                    if d > 8 - j {
                        proof {
                            assert forall|p: BoardView| !placement_given(p, b) by {
                                if placement_given(p, b) {
                                    self.lemma_parse_step(p, b, i as int, y as int, j0, k as int);
                                }
                            }
                        }
                        return None;
                    }
                    proof {
                        assert forall|p: BoardView| placement_given(p, b) implies i + 1 <= placement_from(p, 0).len()
                            && b.subrange(i + 1, placement_from(p, 0).len() as int) == rank_text(
                            p,
                            y as int,
                            j0 + d,
                            0,
                        ) + rank_suffix(p, k as int) && forall|s: int|
                            0 <= s < 64 && (s / 8 > y || (s / 8 == y && 7 - s % 8 < j0 + d))
                                ==> #[trigger] self@.squares[s] == p.squares[s] by {
                            self.lemma_parse_step(p, b, i as int, y as int, j0, k as int);
                            assert forall|s: int|
                                0 <= s < 64 && (s / 8 > y || (s / 8 == y && 7 - s % 8 < j0 + d))
                                implies #[trigger] self@.squares[s] == p.squares[s] by {
                                if s / 8 == y && 7 - s % 8 >= j0 {
                                    assert(s == rank_square(y as int, 7 - s % 8));
                                    assert(p.squares[rank_square(y as int, 7 - s % 8)].1 == NONE);
                                    assert(square_ok(p.squares[s]));
                                }
                            }
                        }
                    }
                    j = j + d;
                } else {
                    match fen_byte_to_piece(c) {
                        Some((color, piece_type)) => {
                            if piece_type == NONE || j >= 8 {
                                proof {
                                    assert forall|p: BoardView| !placement_given(p, b) by {
                                        if placement_given(p, b) {
                                            self.lemma_parse_step(p, b, i as int, y as int, j0, k as int);
                                        }
                                    }
                                }
                                return None;
                            }
                            let square = 7 - j + y * 8;
                            if self.squares[square].1 != NONE {
                                return None;
                            }
                            self.create_piece(square, color, piece_type);
                            proof {
                                assert forall|p: BoardView| placement_given(p, b) implies i + 1 <= placement_from(p, 0).len()
                                    && b.subrange(i + 1, placement_from(p, 0).len() as int) == rank_text(
                                    p,
                                    y as int,
                                    j0 + 1,
                                    0,
                                ) + rank_suffix(p, k as int) && forall|s: int|
                                    0 <= s < 64 && (s / 8 > y || (s / 8 == y && 7 - s % 8 < j0 + 1))
                                        ==> #[trigger] self@.squares[s] == p.squares[s] by {
                                    self.lemma_parse_step(p, b, i as int, y as int, j0, k as int);
                                    let q = p.squares[rank_square(y as int, j0)];
                                    assert(square_ok(q));
                                    lemma_fen_letter_injective(color, piece_type, q.0, q.1);
                                }
                            }
                            j = j + 1;
                        },
                        None => {
                            proof {
                                assert forall|p: BoardView| !placement_given(p, b) by {
                                    if placement_given(p, b) {
                                        self.lemma_parse_step(p, b, i as int, y as int, j0, k as int);
                                    }
                                }
                            }
                            return None;
                        },
                    }
                }
                i += 1;
            }
            if j != 8 {
                proof {
                    assert forall|p: BoardView| !placement_given(p, b) by {
                        if placement_given(p, b) {
                            self.lemma_parse_step(p, b, i as int, y as int, j as int, k as int);
                        }
                    }
                }
                return None;
            }
            let ghost before_sep = i;
            if k < 7 {
                if i >= bytes.len() || bytes[i] != 47 {
                    proof {
                        assert forall|p: BoardView| !placement_given(p, b) by {
                            if placement_given(p, b) {
                                self.lemma_parse_end_of_rank(p, b, i as int, y as int, k as int);
                            }
                        }
                    }
                    return None;
                }
                i += 1;
            } else if i >= bytes.len() || bytes[i] != 32 {
                proof {
                    assert forall|p: BoardView| !placement_given(p, b) by {
                        if placement_given(p, b) {
                            self.lemma_parse_end_of_rank(p, b, i as int, y as int, k as int);
                        }
                    }
                }
                return None;
            }
            proof {
                assert forall|p: BoardView| placement_given(p, b) implies i <= placement_from(p, 0).len() && b.subrange(
                    i as int,
                    placement_from(p, 0).len() as int,
                ) == placement_from(p, k + 1) by {
                    self.lemma_parse_end_of_rank(p, b, before_sep as int, y as int, k as int);
                }
            }
            k += 1;
        }
        proof {
            assert forall|p: BoardView| placement_given(p, b) implies i == placement_from(p, 0).len()
                && self@.squares == p.squares by {
                assert(placement_from(p, 8) =~= seq![]);
                assert(self@.squares =~= p.squares);
            }
        }
        if i >= bytes.len() || bytes[i] != 32 {
            return None;
        }
        Some(i)
    }

    /// Under the placement of `p`, the byte at `i` opens the rank text of `p`
    /// from file `j` on, and reading it moves on to the rest of that text.
    proof fn lemma_parse_step(&self, p: BoardView, b: Seq<u8>, i: int, y: int, j: int, k: int)
        requires
            placement_given(p, b),
            0 <= k < 8,
            y == 7 - k,
            0 <= j <= 8,
            0 <= i <= placement_from(p, 0).len(),
            b.subrange(i, placement_from(p, 0).len() as int) == rank_text(p, y, j, 0) + rank_suffix(p, k),
        ensures
            j < 8 ==> i < placement_from(p, 0).len(),
            j < 8 && p.squares[rank_square(y, j)].1 == NONE ==> {
                let d = empty_run(p, y, j);
                &&& 1 <= d <= 8 - j
                &&& b[i] == (48 + d) as u8
                &&& b.subrange(i + 1, placement_from(p, 0).len() as int) == rank_text(p, y, j + d, 0)
                    + rank_suffix(p, k)
                &&& forall|jj: int| j <= jj < j + d ==> #[trigger] p.squares[rank_square(y, jj)].1 == NONE
            },
            j < 8 && p.squares[rank_square(y, j)].1 != NONE ==> {
                let q = p.squares[rank_square(y, j)];
                &&& b[i] == fen_letter(q.0, q.1)
                &&& b.subrange(i + 1, placement_from(p, 0).len() as int) == rank_text(p, y, j + 1, 0)
                    + rank_suffix(p, k)
            },
            j == 8 ==> b.subrange(i, placement_from(p, 0).len() as int) == rank_suffix(p, k),
            j == 8 && k < 7 ==> i < placement_from(p, 0).len() && b[i] == 47,
            j == 8 && k == 7 ==> i == placement_from(p, 0).len() && b[i] == 32,
    {
        let n = placement_from(p, 0).len() as int;
        let rest = rank_suffix(p, k);
        if j < 8 {
            if p.squares[rank_square(y, j)].1 == NONE {
                lemma_rank_text_digit(p, y, j);
                lemma_empty_run(p, y, j);
                let d = empty_run(p, y, j);
                let tail = rank_text(p, y, j + d, 0) + rest;
                assert(b.subrange(i, n) =~= seq![(48 + d) as u8] + tail);
                assert(b[i] == b.subrange(i, n)[0]);
                assert(b.subrange(i + 1, n) =~= b.subrange(i, n).subrange(1, n - i));
                assert((seq![(48 + d) as u8] + tail).subrange(1, n - i) =~= tail);
            } else {
                let q = p.squares[rank_square(y, j)];
                let tail = rank_text(p, y, j + 1, 0) + rest;
                assert(rank_text(p, y, j, 0) == seq![] + seq![fen_letter(q.0, q.1)] + rank_text(p, y, j + 1, 0));
                assert(b.subrange(i, n) =~= seq![fen_letter(q.0, q.1)] + tail);
                assert(b[i] == b.subrange(i, n)[0]);
                assert(b.subrange(i + 1, n) =~= b.subrange(i, n).subrange(1, n - i));
                assert((seq![fen_letter(q.0, q.1)] + tail).subrange(1, n - i) =~= tail);
            }
        } else {
            assert(rank_text(p, y, 8, 0) =~= seq![]);
            assert(rank_text(p, y, j, 0) + rest =~= rest);
            self.lemma_parse_end_of_rank(p, b, i, y, k);
        }
    }

    /// At the end of a rank the placement text goes on with a slash, or, after
    /// the first rank, with the blank that closes it.
    proof fn lemma_parse_end_of_rank(&self, p: BoardView, b: Seq<u8>, i: int, y: int, k: int)
        requires
            placement_given(p, b),
            0 <= k < 8,
            y == 7 - k,
            0 <= i <= placement_from(p, 0).len(),
            b.subrange(i, placement_from(p, 0).len() as int) == rank_text(p, y, 8, 0) + rank_suffix(p, k),
        ensures
            k < 7 ==> i < placement_from(p, 0).len() && b[i] == 47 && b.subrange(
                i + 1,
                placement_from(p, 0).len() as int,
            ) == placement_from(p, k + 1),
            k == 7 ==> i == placement_from(p, 0).len() && b[i] == 32,
    {
        let n = placement_from(p, 0).len() as int;
        assert(rank_text(p, y, 8, 0) =~= seq![]);
        if k < 7 {
            assert(b.subrange(i, n) =~= seq![47u8] + placement_from(p, k + 1));
            assert(b[i] == b.subrange(i, n)[0]);
            assert(b.subrange(i + 1, n) =~= b.subrange(i, n).subrange(1, n - i));
            assert((seq![47u8] + placement_from(p, k + 1)).subrange(1, n - i) =~= placement_from(p, k + 1));
        } else {
            assert(placement_from(p, 8) =~= seq![]);
            assert(b.subrange(i, n).len() == 0);
        }
    }

    /// Reads a position from FEN: placement, side to move, castling rights (in
    /// the order `KQkq`) and en-passant target, each followed by one blank; the
    /// move counters, when present, are ignored. Only text that is the FEN of
    /// the position read (as `to_fen` writes it) is accepted. Reading back what
    /// `to_fen` writes, with or without counters after it, gives the same
    /// position.
    #[verifier::spinoff_prover]
    #[verifier::rlimit(100)]
    pub fn from_fen(fen_string: &str) -> (r: Result<Board, FenError>)
        ensures
            r matches Ok(b) ==> b.wf(),
            forall|p: BoardView|
                view_wf(p) && fen_opens(fen_string.spec_bytes(), p) ==> (r matches Ok(b)
                    && same_position(b@, p)),
            r matches Ok(b) ==> fen_opens(fen_string.spec_bytes(), b@),
    {
        let bytes = fen_string.as_bytes();
        let ghost b = bytes@;
        let len = bytes.len();
        let mut board = Board::new();
        proof {
            assert forall|p: BoardView| view_wf(p) && fen_opens(b, p) implies placement_given(p, b) && {
                let n = placement_from(p, 0).len() as int;
                let c0 = n + 3;
                let e0 = c0 + castling_text(p).len() + 1;
                &&& b[n + 1] == if p.color == WHITE { 119u8 } else { 98u8 }
                &&& b[n + 2] == 32
                &&& castling_given(p, b, c0)
                &&& p.ep ==> e0 + 2 <= b.len() && b[e0] == square_name_bytes(p.ep_capture as int)[0]
                    && b[e0 + 1] == square_name_bytes(p.ep_capture as int)[1] && (b.len() == e0 + 2
                    || b[e0 + 2] == 32)
                &&& !p.ep ==> e0 + 1 <= b.len() && b[e0] == 45 && (b.len() == e0 + 1 || b[e0 + 1] == 32)
            } by {
                lemma_fen_text_layout(p, b);
            }
        }
        let e = match board.load_position(bytes) {
            Some(e) => e,
            None => {
                return Err(FenError::MalformedFen);
            },
        };
        let ghost placed = board@;
        if len - e < 3 || bytes[e + 2] != 32 {
            return Err(FenError::MalformedFen);
        }
        let side = bytes[e + 1];
        if side == 98 {
            board.switch_color();
        } else if side != 119 {
            return Err(FenError::MalformedFen);
        }
        let c0 = e + 3;
        let (i, white_king_side, white_queen_side, black_king_side, black_queen_side) = match parse_castling(bytes, c0) {
            Some(t) => t,
            None => {
                return Err(FenError::MalformedFen);
            },
        };
        let e0 = i + 1;
        let white_king_home = board.square_holds(3, WHITE, KING);
        let black_king_home = board.square_holds(59, BLACK, KING);
        let white_rights = rights_from(
            white_king_side && white_king_home && board.square_holds(0, WHITE, ROOK),
            white_queen_side && white_king_home && board.square_holds(7, WHITE, ROOK),
        );
        let black_rights = rights_from(
            black_king_side && black_king_home && board.square_holds(56, BLACK, ROOK),
            black_queen_side && black_king_home && board.square_holds(63, BLACK, ROOK),
        );
        board.set_castling_states(white_rights, black_rights);
        let mut after_ep = e0;
        if e0 < len && bytes[e0] == 45 {
            after_ep = e0 + 1;
        } else {
            if len - e0 < 2 {
                return Err(FenError::MalformedFen);
            }
            let capture_square = match square_from_name_bytes(bytes[e0], bytes[e0 + 1]) {
                Some(s) => s,
                None => {
                    proof {
                        assert forall|p: BoardView| !(view_wf(p) && fen_opens(b, p)) by {
                            if view_wf(p) && fen_opens(b, p) {
                                let name = square_name_bytes(p.ep_capture as int);
                                assert(name =~= seq![b[e0 as int], b[e0 + 1]]);
                            }
                        }
                    }
                    return Err(FenError::MalformedFen);
                },
            };
            proof {
                assert forall|p: BoardView| view_wf(p) && fen_opens(b, p) implies capture_square == p.ep_capture by {
                    if p.ep {
                        let name = square_name_bytes(p.ep_capture as int);
                        assert(name =~= seq![b[e0 as int], b[e0 + 1]]);
                        lemma_square_name_injective(capture_square as int, p.ep_capture as int);
                    }
                }
            }
            let white_to_move = board.current_color == WHITE;
            if (white_to_move && capture_square < 8) || (!white_to_move && capture_square >= 56) {
                return Err(FenError::MalformedFen);
            }
            let pawn_square = if white_to_move {
                capture_square - 8
            } else {
                capture_square + 8
            };
            let mover = 1 - board.current_color;
            if !board.square_holds(pawn_square, mover, PAWN) || board.squares[capture_square].1 != NONE {
                return Err(FenError::MalformedFen);
            }
            board.update_en_passant_state(true, pawn_square, capture_square);
            after_ep = e0 + 2;
        }
        if after_ep < len && bytes[after_ep] != 32 {
            return Err(FenError::MalformedFen);
        }
        proof {
            assert(board@.squares == placed.squares);
            assert forall|p: BoardView| view_wf(p) && fen_opens(b, p) implies one_king(board@, WHITE)
                && one_king(board@, BLACK) by {
                assert(placed.squares == p.squares);
                let kw = choose|k: int| is_only_king(p, WHITE, k);
                assert(is_only_king(board@, WHITE, kw));
                let kb = choose|k: int| is_only_king(p, BLACK, k);
                assert(is_only_king(board@, BLACK, kb));
            }
        }
        let white_king = find_only_king(&board, WHITE);
        let black_king = find_only_king(&board, BLACK);
        if white_king.is_none() || black_king.is_none() {
            return Err(FenError::MalformedFen);
        }
        proof {
            let v = board@;
            if let Some(k) = white_king {
                assert(is_only_king(v, WHITE, k as int));
            }
            if let Some(k) = black_king {
                assert(is_only_king(v, BLACK, k as int));
            }
            assert forall|p: BoardView| view_wf(p) && fen_opens(b, p) implies same_position(v, p) by {
                assert(placed.squares == p.squares);
                assert(v.squares == p.squares);
                lemma_placement_determines_bitboards(v, p);
                assert(castling_ok(p));
                assert(p.castling[0] < 4 && p.castling[1] < 4);
                assert(king_side_right(p.castling[0]) ==> p.squares[3] == (WHITE, KING) && p.squares[0] == (WHITE, ROOK));
                assert(queen_side_right(p.castling[0]) ==> p.squares[3] == (WHITE, KING) && p.squares[7] == (WHITE, ROOK));
                assert(king_side_right(p.castling[1]) ==> p.squares[59] == (BLACK, KING) && p.squares[56] == (BLACK, ROOK));
                assert(queen_side_right(p.castling[1]) ==> p.squares[59] == (BLACK, KING) && p.squares[63] == (BLACK, ROOK));
                lemma_rights_equal(white_rights, p.castling[0]);
                lemma_rights_equal(black_rights, p.castling[1]);
                assert(v.castling =~= p.castling);
                if p.ep {
                    let name = square_name_bytes(p.ep_capture as int);
                    assert(b[e0 as int] == name[0] && b[e0 + 1] == name[1]);
                }
            }
        }
        let text = board.fen_bytes();
        let n = text.len();
        if n > len {
            proof {
                assert forall|p: BoardView| !(view_wf(p) && fen_opens(b, p)) by {
                    if view_wf(p) && fen_opens(b, p) {
                        lemma_fen_text_same(board@, p);
                    }
                }
            }
            return Err(FenError::MalformedFen);
        }
        let mut j: usize = 0;
        while j < n
            invariant
                j <= n,
                n == text@.len(),
                n <= len,
                len == b.len(),
                bytes@ == b,
                forall|x: int| 0 <= x < j ==> text@[x] == #[trigger] b[x],
                text@ == fen_text(board@),
                b == fen_string.spec_bytes(),
                forall|p: BoardView| view_wf(p) && fen_opens(b, p) ==> same_position(board@, p),
            decreases n - j,
        {
            if text[j] != bytes[j] {
                proof {
                    assert forall|p: BoardView| !(view_wf(p) && fen_opens(b, p)) by {
                        if view_wf(p) && fen_opens(b, p) {
                            lemma_fen_text_same(board@, p);
                            assert(fen_text(p) == text@);
                            assert(b.subrange(0, n as int) == text@);
                            assert(b.subrange(0, n as int)[j as int] == b[j as int]);
                            assert(text@[j as int] == b[j as int]);
                            assert(text[j as int] == bytes@[j as int]);
                        }
                    }
                }
                return Err(FenError::MalformedFen);
            }
            j += 1;
        }
        if n < len && bytes[n] != 32 {
            proof {
                assert forall|p: BoardView| !(view_wf(p) && fen_opens(b, p)) by {
                    if view_wf(p) && fen_opens(b, p) {
                        lemma_fen_text_same(board@, p);
                    }
                }
            }
            return Err(FenError::MalformedFen);
        }
        proof {
            assert(b.subrange(0, n as int) =~= text@);
        }
        Ok(board)
    }

    fn append_rank_text(&self, out: &mut Vec<u8>, y: usize)
        requires
            consistent(self@),
            y < 8,
            forall|k: int| 0 <= k < old(out)@.len() ==> #[trigger] old(out)@[k] < 128,
        ensures
            final(out)@ == old(out)@ + rank_text(self@, y as int, 0, 0),
            forall|k: int| 0 <= k < final(out)@.len() ==> #[trigger] final(out)@[k] < 128,
    {
        let ghost v = self@;
        let ghost base = out@;
        let mut empty_squares: u8 = 0;
        let mut file_index: usize = 0;
        let ghost mut emitted: Seq<u8> = seq![];
        while file_index < 8
            invariant
                consistent(self@),
                v == self@,
                y < 8,
                file_index <= 8,
                empty_squares <= file_index,
                out@ == base + emitted,
                emitted + rank_text(v, y as int, file_index as int, empty_squares as int) == rank_text(
                    v,
                    y as int,
                    0,
                    0,
                ),
                forall|k: int| 0 <= k < out@.len() ==> #[trigger] out@[k] < 128,
            decreases 8 - file_index,
        {
            let x = 7 - file_index;
            let square = x + y * 8;
            let (color, piece_type) = self.squares[square];
            let ghost before = emitted;
            if piece_type == NONE {
                empty_squares += 1;
            } else {
                let ghost run_before: int = empty_squares as int;
                let ghost digit: Seq<u8> = if empty_squares > 0 {
                    seq![(48 + empty_squares) as u8]
                } else {
                    seq![]
                };
                if empty_squares > 0 {
                    out.push(48 + empty_squares);
                    empty_squares = 0;
                }
                assert(square_ok(self@.squares[square as int]));
                out.push(piece_to_fen_byte(color, piece_type));
                proof {
                    emitted = before + digit + seq![fen_letter(color, piece_type)];
                    assert(rank_text(v, y as int, file_index as int, run_before) == digit + seq![
                        fen_letter(color, piece_type),
                    ] + rank_text(v, y as int, file_index + 1, 0));
                    assert(emitted + rank_text(v, y as int, file_index + 1, 0) =~= before + (digit
                        + seq![fen_letter(color, piece_type)] + rank_text(v, y as int, file_index + 1, 0)));
                    assert(out@ =~= base + emitted);
                }
            }
            file_index += 1;
        }
        let ghost tail: Seq<u8> = if empty_squares > 0 {
            seq![(48 + empty_squares) as u8]
        } else {
            seq![]
        };
        if empty_squares > 0 {
            out.push(48 + empty_squares);
        }
        proof {
            assert(rank_text(v, y as int, 8, empty_squares as int) == tail);
            assert(out@ =~= base + rank_text(v, y as int, 0, 0));
        }
    }

    fn castling_bytes(&self) -> (r: Vec<u8>)
        requires
            consistent(self@),
        ensures
            r@ == castling_text(self@),
            forall|k: int| 0 <= k < r@.len() ==> #[trigger] r@[k] < 128,
    {
        let mut out: Vec<u8> = Vec::new();
        if castling::can_king_side(self.castling_states[WHITE]) {
            out.push(75);
        }
        if castling::can_queen_side(self.castling_states[WHITE]) {
            out.push(81);
        }
        if castling::can_king_side(self.castling_states[BLACK]) {
            out.push(107);
        }
        if castling::can_queen_side(self.castling_states[BLACK]) {
            out.push(113);
        }
        proof {
            let v = self@;
            assert(out@ =~= (if king_side_right(v.castling[0]) { seq![75u8] } else { seq![] }) + (
            if queen_side_right(v.castling[0]) { seq![81u8] } else { seq![] }) + (if king_side_right(
                v.castling[1],
            ) { seq![107u8] } else { seq![] }) + (if queen_side_right(v.castling[1]) { seq![113u8] } else { seq![] }));
        }
        if out.len() == 0 {
            out.push(45);
            assert(out@ =~= seq![45u8]);
        }
        out
    }

    /// Writes the position as FEN: placement, side to move, castling rights and
    /// en-passant target (the square behind the pawn that just moved two squares).
    pub fn to_fen(&self) -> (r: String)
        requires
            consistent(self@),
            self@.ep ==> self@.ep_capture < 64,
        ensures
            r@ == ascii_chars(fen_text(self@)),
    {
        ascii_to_string(self.fen_bytes())
    }

    /// The bytes of the position's FEN text.
    pub fn fen_bytes(&self) -> (r: Vec<u8>)
        requires
            consistent(self@),
            self@.ep ==> self@.ep_capture < 64,
        ensures
            r@ == fen_text(self@),
            forall|k: int| 0 <= k < r@.len() ==> #[trigger] r@[k] < 128,
    {
        let ghost v = self@;
        let mut out: Vec<u8> = Vec::new();
        let mut rank_index: usize = 0;
        while rank_index < 8
            invariant
                consistent(self@),
                v == self@,
                rank_index <= 8,
                out@ + placement_from(v, rank_index as int) == placement_from(v, 0),
                forall|k: int| 0 <= k < out@.len() ==> #[trigger] out@[k] < 128,
            decreases 8 - rank_index,
        {
            let y = 7 - rank_index;
            let ghost before = out@;
            self.append_rank_text(&mut out, y);
            if y > 0 {
                out.push(47);
            }
            proof {
                assert(out@ + placement_from(v, rank_index + 1) =~= before + placement_from(v, rank_index as int));
            }
            rank_index += 1;
        }
        assert(placement_from(v, 8) =~= seq![]);
        assert(out@ =~= placement_from(v, 0));
        out.push(32);
        out.push(if self.current_color == WHITE { 119 } else { 98 });
        out.push(32);
        let castling = self.castling_bytes();
        let mut i: usize = 0;
        let ghost head = out@;
        while i < castling.len()
            invariant
                i <= castling@.len(),
                out@ == head + castling@.subrange(0, i as int),
                forall|k: int| 0 <= k < out@.len() ==> #[trigger] out@[k] < 128,
                forall|k: int| 0 <= k < castling@.len() ==> #[trigger] castling@[k] < 128,
            decreases castling@.len() - i,
        {
            out.push(castling[i]);
            assert(out@ =~= head + castling@.subrange(0, i + 1));
            i += 1;
        }
        assert(castling@.subrange(0, castling@.len() as int) =~= castling@);
        out.push(32);
        if self.is_en_passant_possible {
            let (f, r) = square_name_to_bytes(self.en_passant_capture_square);
            out.push(f);
            out.push(r);
        } else {
            out.push(45);
        }
        assert(out@ =~= fen_text(v));
        out
    }
}

} // verus!

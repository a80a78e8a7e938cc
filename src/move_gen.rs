use vstd::prelude::*;
use crate::attack_calculator::{
    AttackCalculator, attacked_by, checked_by, full_occupancy, is_square_attacked, king_square_of,
    lemma_pawn_geometry, occupancy_without_king, pawn_attacks, type_attacks,
};
use crate::bitboards::{bit_set, group_bits};
use crate::board::{
    Board, BoardView, bb_at, castled_king_side_rook_sq, castled_queen_side_rook_sq, castling_ok,
    consistent, is_only_king, king_side_rook_sq, king_side_sq, king_start_sq, lemma_make_undo_round_trip,
    lemma_placement_determines_bitboards, lemma_record_undoable, made, move_ok, one_king, piece_bb,
    queen_side_rook_sq, queen_side_sq, square_ok, view_wf,
};
use crate::castling::{self, king_side_right, queen_side_right};
use crate::moves::{Move, MoveType};
use crate::piece::{BISHOP, BLACK, KING, KNIGHT, NONE, PAWN, QUEEN, ROOK, WHITE};
use crate::precomputed::PrecomputedData;

verus! {

broadcast use group_bits;

/// Room reserved for the moves of one position; no legal position has more.
pub const MAX_MOVES_PER_POS: usize = 218;

/// Square `t` is empty or holds an opposing piece other than the king.
pub open spec fn target_ok(v: BoardView, t: int) -> bool {
    v.squares[t].1 == NONE || (v.squares[t].0 == (1 - v.color) as usize && v.squares[t].1 != KING)
}

/// The move kinds in the order in which moves of one start and target square
/// are listed.
pub open spec fn kind_of_index(k: int) -> MoveType {
    if k == 0 {
        MoveType::Regular
    } else if k == 1 {
        MoveType::PawnDoubleMove
    } else if k == 2 {
        MoveType::PromotionQueen
    } else if k == 3 {
        MoveType::PromotionKnight
    } else if k == 4 {
        MoveType::PromotionRook
    } else if k == 5 {
        MoveType::PromotionBishop
    } else if k == 6 {
        MoveType::CastlingKingSide
    } else {
        MoveType::CastlingQueenSide
    }
}

fn kind_from_index(k: usize) -> (r: MoveType)
    requires
        k < 8,
    ensures
        r == kind_of_index(k as int),
{
    if k == 0 {
        MoveType::Regular
    } else if k == 1 {
        MoveType::PawnDoubleMove
    } else if k == 2 {
        MoveType::PromotionQueen
    } else if k == 3 {
        MoveType::PromotionKnight
    } else if k == 4 {
        MoveType::PromotionRook
    } else if k == 5 {
        MoveType::PromotionBishop
    } else if k == 6 {
        MoveType::CastlingKingSide
    } else {
        MoveType::CastlingQueenSide
    }
}

/// The square whose piece a move takes: the pawn that just moved two squares
/// for a pawn moving onto the en-passant target, the target square otherwise.
pub open spec fn capture_of(v: BoardView, s: int, t: int, kind: MoveType) -> usize {
    if v.squares[s].1 == PAWN && v.ep && t == v.ep_capture && kind == MoveType::Regular {
        v.ep_pawn
    } else {
        t as usize
    }
}

/// The `i`-th of all conceivable moves: start `i / 512`, target `(i / 8) % 64`,
/// kind `i % 8`.
pub open spec fn candidate(v: BoardView, i: int) -> Move {
    let s = i / 512;
    let t = (i / 8) % 64;
    let kind = kind_of_index(i % 8);
    Move {
        start_square: s as usize,
        target_square: t as usize,
        capture_square: capture_of(v, s, t, kind),
        move_type: kind,
    }
}

pub open spec fn candidates(v: BoardView) -> Seq<Move> {
    Seq::new(32768, |i: int| candidate(v, i))
}

pub open spec fn is_empty(v: BoardView, s: int) -> bool {
    v.squares[s].1 == NONE
}

/// The moves of a pawn of the side to move from `s` to `t`: a push, a double
/// push from its starting rank, a capture, an en-passant capture, and the
/// four promotions on the last rank.
pub open spec fn pawn_move_ok(v: BoardView, s: int, t: int, kind: MoveType) -> bool {
    let c = v.color;
    let d: int = if c == WHITE { 8 } else { -8 };
    let last = if c == WHITE { t / 8 == 7 } else { t / 8 == 0 };
    let start_rank = if c == WHITE { s / 8 == 1 } else { s / 8 == 6 };
    let push = t == s + d && is_empty(v, t);
    let capture = pawn_attacks(c, s, t) && v.squares[t].0 == (1 - c) as usize && v.squares[t].1 != KING;
    let en_passant = v.ep && t == v.ep_capture && pawn_attacks(c, s, t);
    if kind == MoveType::Regular {
        ((push || capture) && !last) || en_passant
    } else if kind == MoveType::PawnDoubleMove {
        start_rank && t == s + 2 * d && is_empty(v, s + d) && is_empty(v, t)
    } else if kind.is_promotion_spec() {
        (push || capture) && last
    } else {
        false
    }
}

/// Castling from `s` to `t`: the right is held, the squares between king and
/// rook are empty, the king is not in check and crosses no attacked square.
pub open spec fn castle_ok(v: BoardView, s: int, t: int, kind: MoveType) -> bool {
    let c = v.color;
    let o = (1 - c) as usize;
    let occ = occupancy_without_king(v);
    let not_in_check = !checked_by(v, o, king_square_of(v, c) as u64, occ);
    if kind == MoveType::CastlingKingSide {
        &&& s == king_start_sq(c)
        &&& t == king_side_sq(c)
        &&& king_side_right(v.castling[c as int])
        &&& is_empty(v, king_side_sq(c) as int)
        &&& is_empty(v, castled_king_side_rook_sq(c) as int)
        &&& not_in_check
        &&& !attacked_by(v, o, king_side_sq(c) as u64, occ)
        &&& !attacked_by(v, o, castled_king_side_rook_sq(c) as u64, occ)
    } else if kind == MoveType::CastlingQueenSide {
        &&& s == king_start_sq(c)
        &&& t == queen_side_sq(c)
        &&& queen_side_right(v.castling[c as int])
        &&& is_empty(v, queen_side_sq(c) as int)
        &&& is_empty(v, castled_queen_side_rook_sq(c) as int)
        &&& is_empty(v, queen_side_sq(c) + 1)
        &&& not_in_check
        &&& !attacked_by(v, o, queen_side_sq(c) as u64, occ)
        &&& !attacked_by(v, o, castled_queen_side_rook_sq(c) as u64, occ)
    } else {
        false
    }
}

/// `m` moves a piece of the side to move by the rules of its kind, ignoring
/// whether its own king is left in check.
pub open spec fn pseudo_legal(v: BoardView, m: Move) -> bool {
    let s = m.start_square as int;
    let t = m.target_square as int;
    let p = v.squares[s];
    &&& 0 <= s < 64
    &&& 0 <= t < 64
    &&& p.0 == v.color
    &&& m.capture_square == capture_of(v, s, t, m.move_type)
    &&& if p.1 == PAWN {
        pawn_move_ok(v, s, t, m.move_type)
    } else if m.move_type == MoveType::Regular {
        target_ok(v, t) && type_attacks(p.1, v.color, s, t as u64, full_occupancy(v))
    } else if p.1 == KING {
        castle_ok(v, s, t, m.move_type)
    } else {
        false
    }
}

/// After move `m` the mover's king stands on a square that no opposing piece
/// attacks.
pub open spec fn leaves_king_safe(v: BoardView, m: Move) -> bool {
    forall|q: BoardView|
        #[trigger] made(v, m, q) ==> !attacked_by(
            q,
            q.color,
            king_square_of(q, v.color) as u64,
            full_occupancy(q),
        )
}

/// A legal move of the side to move.
pub open spec fn legal_move(v: BoardView, m: Move) -> bool {
    pseudo_legal(v, m) && leaves_king_safe(v, m)
}

/// The legal moves of position `v`, each once, ordered by start square, then
/// target square, then kind.
pub open spec fn legal_moves(v: BoardView) -> Seq<Move> {
    candidates(v).filter(|m: Move| legal_move(v, m))
}

/// Every legal move is among the candidates, so `legal_moves` lists them all.
pub proof fn lemma_legal_move_listed(v: BoardView, m: Move)
    requires
        legal_move(v, m),
    ensures
        legal_moves(v).contains(m),
{
    let s = m.start_square as int;
    let t = m.target_square as int;
    let k: int = if m.move_type == MoveType::Regular {
        0
    } else if m.move_type == MoveType::PawnDoubleMove {
        1
    } else if m.move_type == MoveType::PromotionQueen {
        2
    } else if m.move_type == MoveType::PromotionKnight {
        3
    } else if m.move_type == MoveType::PromotionRook {
        4
    } else if m.move_type == MoveType::PromotionBishop {
        5
    } else if m.move_type == MoveType::CastlingKingSide {
        6
    } else {
        7
    };
    let i = 512 * s + 8 * t + k;
    lemma_candidate_index(v, s, t, k);
    assert(candidates(v)[i] == m);
    candidates(v).filter_lemma(|x: Move| legal_move(v, x));
    assert(candidates(v).contains(m));
}

proof fn lemma_candidate_index(v: BoardView, s: int, t: int, k: int)
    requires
        0 <= s < 64,
        0 <= t < 64,
        0 <= k < 8,
    ensures
        ({
            let i = 512 * s + 8 * t + k;
            &&& 0 <= i < 32768
            &&& i / 512 == s
            &&& (i / 8) % 64 == t
            &&& i % 8 == k
            &&& candidate(v, i) == (Move {
                start_square: s as usize,
                target_square: t as usize,
                capture_square: capture_of(v, s, t, kind_of_index(k)),
                move_type: kind_of_index(k),
            })
        }),
{
    let i = 512 * s + 8 * t + k;
    assert(i / 512 == s && (i / 8) % 64 == t && i % 8 == k) by (nonlinear_arith)
        requires
            i == 512 * s + 8 * t + k,
            0 <= s < 64,
            0 <= t < 64,
            0 <= k < 8,
    ;
}

proof fn lemma_filter_step(c: Seq<Move>, p: spec_fn(Move) -> bool, n: int)
    requires
        0 <= n < c.len(),
    ensures
        c.take(n + 1).filter(p) == c.take(n).filter(p) + if p(c[n]) {
            seq![c[n]]
        } else {
            seq![]
        },
{
    reveal(Seq::filter);
    let x = c.take(n + 1);
    assert(x.drop_last() =~= c.take(n));
    assert(x.last() == c[n]);
    assert(x.filter(p) == if p(x.last()) {
        x.drop_last().filter(p).push(x.last())
    } else {
        x.drop_last().filter(p)
    });
    if p(c[n]) {
        assert(c.take(n).filter(p).push(c[n]) =~= c.take(n).filter(p) + seq![c[n]]);
    } else {
        assert(c.take(n).filter(p) =~= c.take(n).filter(p) + seq![]);
    }
}

proof fn lemma_filter_skip(c: Seq<Move>, p: spec_fn(Move) -> bool, n: int, m: int)
    requires
        0 <= n <= m <= c.len(),
        forall|i: int| n <= i < m ==> !p(#[trigger] c[i]),
    ensures
        c.take(m).filter(p) == c.take(n).filter(p),
    decreases m - n,
{
    if n < m {
        lemma_filter_skip(c, p, n, m - 1);
        lemma_filter_step(c, p, m - 1);
        assert(c.take(m - 1).filter(p) + seq![] =~= c.take(m - 1).filter(p));
    }
}

/// A pseudo-legal move is one that `make_move` accepts.
pub proof fn lemma_pseudo_legal_move_ok(v: BoardView, m: Move)
    requires
        view_wf(v),
        pseudo_legal(v, m),
    ensures
        move_ok(v, m),
{
    let s = m.start_square as int;
    let t = m.target_square as int;
    let c = v.color;
    assert(square_ok(v.squares[s]));
    assert(square_ok(v.squares[t]));
    if v.squares[s].1 == PAWN {
        lemma_pawn_geometry(c, s, t);
        if v.ep {
            assert(square_ok(v.squares[v.ep_pawn as int]));
        }
    }
    if m.move_type.is_castling_spec() {
        assert(castling_ok(v));
        assert(king_side_right(v.castling[c as int]) ==> v.squares[king_start_sq(c) as int] == (c, KING)
            && v.squares[king_side_rook_sq(c) as int] == (c, ROOK));
        assert(queen_side_right(v.castling[c as int]) ==> v.squares[king_start_sq(c) as int] == (c, KING)
            && v.squares[queen_side_rook_sq(c) as int] == (c, ROOK));
    }
}


/// Plays `m`, tests whether the mover's king is then attacked, and takes the
/// move back.
fn leaves_king_safe_exec(board: &mut Board, data: &PrecomputedData, m: Move) -> (r: bool)
    requires
        view_wf(old(board)@),
        data.wf(),
        pseudo_legal(old(board)@, m),
    ensures
        final(board)@ == old(board)@,
        r == leaves_king_safe(old(board)@, m),
{
    let ghost v = board@;
    proof {
        lemma_pseudo_legal_move_ok(v, m);
    }
    let mover = board.get_current_color();
    let record = board.make_move(m);
    let ghost q = board@;
    let king = board.get_king_square(mover);
    let them = board.get_current_color();
    let attacked = is_square_attacked(board, data, king, them);
    proof {
        lemma_record_undoable(v, m, record, q);
        let k1 = king_square_of(q, v.color);
        assert(is_only_king(q, mover, k1)) by {
            if mover == WHITE {
                assert(one_king(q, WHITE));
            } else {
                assert(one_king(q, BLACK));
            }
        }
        assert(k1 == king as int);
        assert forall|q2: BoardView| #[trigger] made(v, m, q2) implies q2 == q by {
            lemma_made_unique(v, m, q2, q);
        }
    }
    board.undo_move(record);
    proof {
        lemma_make_undo_round_trip(v, m, record, q, board@);
    }
    !attacked
}

/// A move leads to one position only.
pub proof fn lemma_made_unique(v: BoardView, m: Move, q1: BoardView, q2: BoardView)
    requires
        made(v, m, q1),
        made(v, m, q2),
    ensures
        q1 == q2,
{
    lemma_placement_determines_bitboards(q1, q2);
    assert(q1.castling =~= q2.castling);
}

/// Returns whether the `k`-th kind of move from `s` to `t` is pseudo-legal.
fn pseudo_legal_exec(
    board: &Board,
    data: &PrecomputedData,
    s: usize,
    t: usize,
    k: usize,
    piece_type: usize,
    reach: u64,
    attacked: u64,
    in_check: bool,
    occ: u64,
) -> (r: bool)
    requires
        view_wf(board@),
        data.wf(),
        s < 64,
        t < 64,
        k < 8,
        board@.squares[s as int] == (board@.color, piece_type),
        occ == full_occupancy(board@),
        piece_type != PAWN ==> forall|u: u64|
            u < 64 ==> (#[trigger] bit_set(reach, u) <==> (target_ok(board@, u as int) && type_attacks(
                piece_type,
                board@.color,
                s as int,
                u,
                occ,
            ))),
        forall|u: u64|
            u < 64 ==> (#[trigger] bit_set(attacked, u) <==> attacked_by(
                board@,
                (1 - board@.color) as usize,
                u,
                occupancy_without_king(board@),
            )),
        in_check == checked_by(
            board@,
            (1 - board@.color) as usize,
            king_square_of(board@, board@.color) as u64,
            occupancy_without_king(board@),
        ),
    ensures
        r == pseudo_legal(board@, candidate(board@, 512 * s + 8 * t + k)),
{
    let ghost v = board@;
    proof {
        lemma_candidate_index(v, s as int, t as int, k as int);
    }
    let c = board.get_current_color();
    let o = 1 - c;
    let kind = kind_from_index(k);
    if piece_type == PAWN {
        let last = if c == WHITE { t / 8 == 7 } else { t / 8 == 0 };
        let start_rank = if c == WHITE { s / 8 == 1 } else { s / 8 == 6 };
        let target = board.get_piece_on_square(t);
        let target_empty = target.1 == NONE;
        let push = if c == WHITE { t == s + 8 && target_empty } else { s >= 8 && t == s - 8 && target_empty };
        let attacks = crate::attack_calculator::piece_attacks(data, PAWN, c, s, t, occ);
        let capture = attacks && target.0 == o && target.1 != KING;
        let en_passant = board.is_en_passant_possible() && t == board.en_passant_capture_square() && attacks;
        proof {
            let m = candidate(v, 512 * s + 8 * t + k);
            assert(m.start_square == s && m.target_square == t && m.move_type == kind);
            assert(last == if c == WHITE { t / 8 == 7 } else { t / 8 == 0 });
            assert(push == (t == s + (if c == WHITE { 8int } else { -8int }) && is_empty(v, t as int)));
            assert(capture == (pawn_attacks(c, s as int, t as int) && v.squares[t as int].0 == (1 - c) as usize && v.squares[t as int].1 != KING));
            assert(en_passant == (v.ep && t == v.ep_capture && pawn_attacks(c, s as int, t as int)));
        }
        if k == 0 {
            let r = ((push || capture) && !last) || en_passant;
            assert(r == pseudo_legal(v, candidate(v, 512 * s + 8 * t + k)));
            r
        } else if k == 1 {
            if !start_rank {
                return false;
            }
            if c == WHITE {
                let r = t == s + 16 && board.get_piece_on_square(s + 8).1 == NONE && target_empty;
                assert(r == (t == s + 2 * 8 && is_empty(v, s + 8) && is_empty(v, t as int)));
                r
            } else {
                let r = s >= 16 && t == s - 16 && board.get_piece_on_square(s - 8).1 == NONE && target_empty;
                assert(r == (t == s + 2 * (-8) && is_empty(v, s - 8) && is_empty(v, t as int)));
                r
            }
        } else if k <= 5 {
            let r = (push || capture) && last;
            assert(r == pseudo_legal(v, candidate(v, 512 * s + 8 * t + k)));
            r
        } else {
            assert(!pseudo_legal(v, candidate(v, 512 * s + 8 * t + k)));
            false
        }
    } else if k == 0 {
        let r = (reach >> t as u64) & 1 == 1;
        assert(r == bit_set(reach, t as u64));
        assert(r == pseudo_legal(v, candidate(v, 512 * s + 8 * t + k)));
        r
    } else if piece_type == KING && (k == 6 || k == 7) {
        if in_check {
            assert(!pseudo_legal(v, candidate(v, 512 * s + 8 * t + k)));
            return false;
        }
        let rights = board.get_castling_state(c);
        if k == 6 {
            let target_sq = crate::board::get_king_side_square(c);
            let rook_sq = crate::board::get_castled_king_side_rook_square(c);
            let r = s == crate::board::get_king_start_square(c) && t == target_sq && castling::can_king_side(rights)
                && board.get_piece_on_square(target_sq).1 == NONE && board.get_piece_on_square(rook_sq).1 == NONE
                && (attacked >> target_sq as u64) & 1 != 1 && (attacked >> rook_sq as u64) & 1 != 1;
            assert(((attacked >> target_sq as u64) & 1 != 1) == !bit_set(attacked, target_sq as u64));
            assert(((attacked >> rook_sq as u64) & 1 != 1) == !bit_set(attacked, rook_sq as u64));
            assert(r == pseudo_legal(v, candidate(v, 512 * s + 8 * t + k)));
            r
        } else {
            assert(k == 7);
            let target_sq = crate::board::get_queen_side_square(c);
            let rook_sq = crate::board::get_castled_queen_side_rook_square(c);
            let r = s == crate::board::get_king_start_square(c) && t == target_sq && castling::can_queen_side(rights)
                && board.get_piece_on_square(target_sq).1 == NONE && board.get_piece_on_square(rook_sq).1 == NONE
                && board.get_piece_on_square(target_sq + 1).1 == NONE && (attacked >> target_sq as u64) & 1
                != 1 && (attacked >> rook_sq as u64) & 1 != 1;
            assert(((attacked >> target_sq as u64) & 1 != 1) == !bit_set(attacked, target_sq as u64));
            assert(((attacked >> rook_sq as u64) & 1 != 1) == !bit_set(attacked, rook_sq as u64));
            assert(r == pseudo_legal(v, candidate(v, 512 * s + 8 * t + k)));
            r
        }
    } else {
        assert(!pseudo_legal(v, candidate(v, 512 * s + 8 * t + k)));
        false
    }
}


/// The attacks of the non-pawn piece on `s` onto squares it may move to.
fn reach_of(board: &Board, data: &PrecomputedData, s: usize, piece_type: usize, occ: u64, allowed: u64) -> (r: u64)
    requires
        view_wf(board@),
        data.wf(),
        s < 64,
        piece_type != PAWN,
        forall|u: u64| u < 64 ==> (#[trigger] bit_set(allowed, u) <==> target_ok(board@, u as int)),
    ensures
        forall|u: u64|
            u < 64 ==> (#[trigger] bit_set(r, u) <==> (target_ok(board@, u as int) && type_attacks(
                piece_type,
                board@.color,
                s as int,
                u,
                occ,
            ))),
{
    let attacks = if piece_type == KING {
        data.square_data.get_bb_for_king(s)
    } else if piece_type == KNIGHT {
        data.square_data.get_bb_for_knight(s)
    } else if piece_type == BISHOP {
        data.bishop_table.get_pseudo_legal_move_bb(s, occ)
    } else if piece_type == ROOK {
        data.rook_table.get_pseudo_legal_move_bb(s, occ)
    } else if piece_type == QUEEN {
        let straight = data.rook_table.get_pseudo_legal_move_bb(s, occ);
        let diagonal = data.bishop_table.get_pseudo_legal_move_bb(s, occ);
        proof {
            assert forall|u: u64| u < 64 implies (bit_set(straight | diagonal, u) <==> type_attacks(
                piece_type,
                board@.color,
                s as int,
                u,
                occ,
            )) by {
                assert(bit_set(straight, u) == crate::magic::slider_attacks(s as int, occ, true, u));
                assert(bit_set(diagonal, u) == crate::magic::slider_attacks(s as int, occ, false, u));
            }
        }
        straight | diagonal
    } else {
        0
    };
    proof {
        assert forall|u: u64| u < 64 implies (bit_set(attacks, u) <==> type_attacks(
            piece_type,
            board@.color,
            s as int,
            u,
            occ,
        )) by {}
    }
    attacks & allowed
}

/// `t` is one of the squares a pawn of color `c` on `s` can reach.
fn pawn_near(c: usize, s: usize, t: usize) -> (r: bool)
    requires
        s < 64,
        t < 64,
    ensures
        r == if c == WHITE {
            t == s + 7 || t == s + 8 || t == s + 9 || t == s + 16
        } else {
            t == s - 7 || t == s - 8 || t == s - 9 || t == s - 16
        },
{
    if c == WHITE {
        t == s + 7 || t == s + 8 || t == s + 9 || t == s + 16
    } else {
        t + 7 == s || t + 8 == s || t + 9 == s || t + 16 == s
    }
}

/// The facts about the position that move generation reads from its tables.
pub open spec fn generation_context(
    v: BoardView,
    attacked: u64,
    in_check: bool,
    occ: u64,
    allowed: u64,
) -> bool {
    &&& occ == full_occupancy(v)
    &&& forall|u: u64| u < 64 ==> (#[trigger] bit_set(allowed, u) <==> target_ok(v, u as int))
    &&& forall|u: u64|
        u < 64 ==> (#[trigger] bit_set(attacked, u) <==> attacked_by(
            v,
            (1 - v.color) as usize,
            u,
            occupancy_without_king(v),
        ))
    &&& in_check == checked_by(
        v,
        (1 - v.color) as usize,
        king_square_of(v, v.color) as u64,
        occupancy_without_king(v),
    )
}

/// Appends to `moves` every legal move of the side to move, each once, in
/// the order of `legal_moves`: each pseudo-legal move is played, kept when
/// the mover's king is then out of attack, and taken back.
pub fn generate_moves(moves: &mut Vec<Move>, board: &mut Board, data: &PrecomputedData)
    requires
        old(board).wf(),
        data.wf(),
    ensures
        final(board)@ == old(board)@,
        final(moves)@ == old(moves)@ + legal_moves(old(board)@),
{
    let ghost v = board@;
    let ghost base = moves@;
    let ghost p = |m: Move| legal_move(v, m);
    let ghost cs = candidates(v);
    let attack_calculator = AttackCalculator::new(board, data);
    let attacked = attack_calculator.squares_in_attack_bb;
    let in_check = attack_calculator.in_check();
    let c = board.get_current_color();
    let o = board.get_opposite_color();
    let occ = board.get_all_occupied_squares();
    let own = board.get_all_occupied_squares_for_color(c);
    let their_king = board.get_piece_bitboard(o, KING);
    let allowed = !own & !their_king;
    proof {
        assert forall|u: u64| u < 64 implies (#[trigger] bit_set(allowed, u) <==> target_ok(v, u as int)) by {
            assert(square_ok(v.squares[u as int]));
            assert(bit_set(bb_at(v.pieces, c as int, 0), u) == (v.squares[u as int].0 == c));
            assert(bit_set(bb_at(v.pieces, o as int, 1), u) == (v.squares[u as int] == (o, 1usize)));
        }
        reveal(Seq::filter);
        assert(cs.take(0).filter(p) =~= seq![]);
        assert(moves@ =~= base + cs.take(0).filter(p));
    }
    let mut s: usize = 0;
    while s < 64
        invariant
            board@ == v,
            view_wf(v),
            data.wf(),
            c == v.color,
            p == (|m: Move| legal_move(v, m)),
            cs == candidates(v),
            generation_context(v, attacked, in_check, occ, allowed),
            s <= 64,
            moves@ == base + cs.take(512 * s).filter(p),
        decreases 64 - s,
    {
        let (piece_color, piece_type) = board.get_piece_on_square(s);
        if piece_color != c {
            proof {
                assert forall|i: int| 512 * s <= i < 512 * s + 512 implies !p(#[trigger] cs[i]) by {
                    let t = (i - 512 * s) / 8;
                    let k = (i - 512 * s) % 8;
                    assert(i == 512 * s + 8 * t + k && 0 <= t < 64 && 0 <= k < 8) by (nonlinear_arith)
                        requires
                            512 * s <= i < 512 * s + 512,
                            t == (i - 512 * s) / 8,
                            k == (i - 512 * s) % 8,
                    ;
                    lemma_candidate_index(v, s as int, t, k);
                }
                lemma_filter_skip(cs, p, 512 * s, 512 * s + 512);
            }
            s += 1;
            continue;
        }
        let reach = if piece_type != PAWN {
            reach_of(board, data, s, piece_type, occ, allowed)
        } else {
            0
        };
        let mut t: usize = 0;
        while t < 64
            invariant
                board@ == v,
                view_wf(v),
                data.wf(),
                c == v.color,
                p == (|m: Move| legal_move(v, m)),
                cs == candidates(v),
                generation_context(v, attacked, in_check, occ, allowed),
                s < 64,
                v.squares[s as int] == (c, piece_type),
                piece_type != PAWN ==> forall|u: u64|
                    u < 64 ==> (#[trigger] bit_set(reach, u) <==> (target_ok(v, u as int) && type_attacks(
                        piece_type,
                        v.color,
                        s as int,
                        u,
                        occ,
                    ))),
                t <= 64,
                moves@ == base + cs.take(512 * s + 8 * t).filter(p),
            decreases 64 - t,
        {
            let near = if piece_type == PAWN {
                pawn_near(c, s, t)
            } else {
                (reach >> t as u64) & 1 == 1 || (piece_type == KING && (t == crate::board::get_king_side_square(c)
                    || t == crate::board::get_queen_side_square(c)))
            };
            if !near {
                proof {
                    assert forall|i: int| 512 * s + 8 * t <= i < 512 * s + 8 * t + 8 implies !p(#[trigger] cs[i]) by {
                        let k = i - 512 * s - 8 * t;
                        lemma_candidate_index(v, s as int, t as int, k);
                        lemma_pawn_geometry(c, s as int, t as int);
                        assert(((reach >> t as u64) & 1 == 1) == bit_set(reach, t as u64));
                    }
                    lemma_filter_skip(cs, p, 512 * s + 8 * t, 512 * s + 8 * t + 8);
                }
            } else {
                let mut k: usize = 0;
                while k < 8
                    invariant
                        board@ == v,
                        view_wf(v),
                        data.wf(),
                        c == v.color,
                        p == (|m: Move| legal_move(v, m)),
                        cs == candidates(v),
                        generation_context(v, attacked, in_check, occ, allowed),
                        s < 64,
                        t < 64,
                        v.squares[s as int] == (c, piece_type),
                        piece_type != PAWN ==> forall|u: u64|
                            u < 64 ==> (#[trigger] bit_set(reach, u) <==> (target_ok(v, u as int)
                                && type_attacks(piece_type, v.color, s as int, u, occ))),
                        k <= 8,
                        moves@ == base + cs.take(512 * s + 8 * t + k).filter(p),
                    decreases 8 - k,
                {
                    let ok = pseudo_legal_exec(board, data, s, t, k, piece_type, reach, attacked, in_check, occ);
                    let kind = kind_from_index(k);
                    let capture = if piece_type == PAWN && board.is_en_passant_possible() && t
                        == board.en_passant_capture_square() && k == 0 {
                        board.en_passant_pawn_square()
                    } else {
                        t
                    };
                    let m = Move::new(s, t, capture, kind);
                    proof {
                        lemma_candidate_index(v, s as int, t as int, k as int);
                        assert(m == cs[512 * s + 8 * t + k]);
                        lemma_filter_step(cs, p, 512 * s + 8 * t + k);
                    }
                    let ghost before = moves@;
                    if ok {
                        let safe = leaves_king_safe_exec(board, data, m);
                        if safe {
                            moves.push(m);
                        }
                    }
                    proof {
                        assert(moves@ =~= base + cs.take(512 * s + 8 * t + k + 1).filter(p));
                    }
                    k += 1;
                }
            }
            t += 1;
        }
        s += 1;
    }
    proof {
        assert(cs.take(512 * 64int) =~= cs);
    }
}

} // verus!

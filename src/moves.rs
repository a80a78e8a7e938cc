use vstd::prelude::*;
use vstd::string::StringSliceAdditionalSpecFns;
use crate::board::{Board, consistent, king_side_sq, king_start_sq, queen_side_sq};
use crate::board_representation::{
    ascii_chars, ascii_to_string, fen_byte_to_piece, square_from_name_bytes, square_name_bytes,
    square_name_to_bytes,
};
use crate::piece::{BISHOP, KING, KNIGHT, PAWN, QUEEN, ROOK};

verus! {

/// What a move does besides carrying a piece from one square to another.
#[derive(Clone, Copy, PartialEq, Eq, Structural, Debug)]
pub enum MoveType {
    Regular,
    PawnDoubleMove,
    PromotionQueen,
    PromotionKnight,
    PromotionRook,
    PromotionBishop,
    CastlingKingSide,
    CastlingQueenSide,
}

impl MoveType {
    pub open spec fn is_promotion_spec(self) -> bool {
        self == MoveType::PromotionQueen || self == MoveType::PromotionKnight || self
            == MoveType::PromotionRook || self == MoveType::PromotionBishop
    }

    pub open spec fn is_castling_spec(self) -> bool {
        self == MoveType::CastlingKingSide || self == MoveType::CastlingQueenSide
    }
}

/// A move as given by a UCI string: squares and a promotion kind only.
#[derive(Clone, Copy, PartialEq, Eq, Structural, Debug)]
pub struct UciMove {
    pub move_type: MoveType,
    pub start_square: usize,
    pub target_square: usize,
}

/// The outcome of reading a UCI move string.
#[derive(Clone, Copy, PartialEq, Eq, Structural, Debug)]
pub enum UciMoveCreationResult {
    Success(UciMove),
    Failure,
}

impl UciMove {
    pub fn new(move_type: MoveType, start_square: usize, target_square: usize) -> (r: Self)
        ensures
            r == (UciMove { move_type, start_square, target_square }),
    {
        UciMove { move_type, start_square, target_square }
    }

    pub fn is_promotion(&self) -> (r: bool)
        ensures
            r == self.move_type.is_promotion_spec(),
    {
        match self.move_type {
            MoveType::PromotionQueen
            | MoveType::PromotionKnight
            | MoveType::PromotionRook
            | MoveType::PromotionBishop => true,
            _ => false,
        }
    }
}

/// A move: the square left, the square reached, the square whose piece is
/// taken (differs from the target only for en passant) and its kind.
#[derive(Clone, Copy, PartialEq, Eq, Structural, Debug)]
pub struct Move {
    pub start_square: usize,
    pub target_square: usize,
    pub capture_square: usize,
    pub move_type: MoveType,
}

impl Move {
    pub fn new(
        start_square: usize,
        target_square: usize,
        capture_square: usize,
        move_type: MoveType,
    ) -> (r: Self)
        ensures
            r == (Move { start_square, target_square, capture_square, move_type }),
    {
        Move { start_square, target_square, capture_square, move_type }
    }

    pub fn is_promotion(&self) -> (r: bool)
        ensures
            r == self.move_type.is_promotion_spec(),
    {
        match self.move_type {
            MoveType::PromotionQueen
            | MoveType::PromotionKnight
            | MoveType::PromotionRook
            | MoveType::PromotionBishop => true,
            _ => false,
        }
    }

    pub fn is_castling(&self) -> (r: bool)
        ensures
            r == self.move_type.is_castling_spec(),
    {
        match self.move_type {
            MoveType::CastlingKingSide | MoveType::CastlingQueenSide => true,
            _ => false,
        }
    }
}

/// Everything needed to take a move back: the move, the type of the piece it
/// took, and the en-passant state and castling rights from before it.
#[derive(Clone, Copy, Debug)]
pub struct MoveRecord {
    pub mov: Move,
    pub captured_piece_type: usize,
    pub is_en_passant_possible: bool,
    pub en_passant_pawn_square: usize,
    pub en_passant_capture_square: usize,
    pub old_castling_states: [u8; 2],
}

impl MoveRecord {
    pub fn new(
        mov: Move,
        captured_piece_type: usize,
        is_en_passant_possible: bool,
        en_passant_pawn_square: usize,
        en_passant_capture_square: usize,
        old_castling_states: [u8; 2],
    ) -> (r: Self)
        ensures
            r == (MoveRecord {
                mov,
                captured_piece_type,
                is_en_passant_possible,
                en_passant_pawn_square,
                en_passant_capture_square,
                old_castling_states,
            }),
    {
        MoveRecord {
            mov,
            captured_piece_type,
            is_en_passant_possible,
            en_passant_pawn_square,
            en_passant_capture_square,
            old_castling_states,
        }
    }
}


/// The promotion letter of a move kind, if it is a promotion.
pub open spec fn promotion_letter(t: MoveType) -> Seq<u8> {
    match t {
        MoveType::PromotionQueen => seq![113u8],
        MoveType::PromotionKnight => seq![110u8],
        MoveType::PromotionRook => seq![114u8],
        MoveType::PromotionBishop => seq![98u8],
        _ => seq![],
    }
}

/// The UCI text of a move: from-square, to-square, and the promotion letter.
pub open spec fn uci_bytes(start: int, target: int, t: MoveType) -> Seq<u8> {
    square_name_bytes(start) + square_name_bytes(target) + promotion_letter(t)
}

/// The two bytes name a square.
pub open spec fn is_square_name(b0: u8, b1: u8) -> bool {
    exists|s: int| 0 <= s < 64 && square_name_bytes(s) == seq![b0, b1]
}

/// The promotion kind of a UCI promotion letter: `q`, `n`, `r` or `b`.
pub open spec fn promotion_of_letter(b: u8) -> Option<MoveType> {
    if b == 113 {
        Some(MoveType::PromotionQueen)
    } else if b == 110 {
        Some(MoveType::PromotionKnight)
    } else if b == 114 {
        Some(MoveType::PromotionRook)
    } else if b == 98 {
        Some(MoveType::PromotionBishop)
    } else {
        None
    }
}

/// `b` is a UCI move: two square names, then possibly a promotion letter.
pub open spec fn uci_valid(b: Seq<u8>) -> bool {
    &&& (b.len() == 4 || b.len() == 5)
    &&& is_square_name(b[0], b[1])
    &&& is_square_name(b[2], b[3])
    &&& b.len() == 5 ==> promotion_of_letter(b[4]) is Some
}

impl UciMove {
    /// Reads a UCI move such as `e2e4` or `e7e8q`; anything else, a
    /// promotion letter other than `q`, `n`, `r` or `b` included, fails.
    pub fn from_uci(uci: &str) -> (r: UciMoveCreationResult)
        ensures
            r is Success <==> uci_valid(uci.spec_bytes()),
            r matches UciMoveCreationResult::Success(m) ==> {
                &&& m.start_square < 64
                &&& m.target_square < 64
                &&& uci.spec_bytes().subrange(0, 2) == square_name_bytes(m.start_square as int)
                &&& uci.spec_bytes().subrange(2, 4) == square_name_bytes(m.target_square as int)
                &&& m.move_type == if uci.spec_bytes().len() == 5 {
                    promotion_of_letter(uci.spec_bytes()[4])->Some_0
                } else {
                    MoveType::Regular
                }
            },
    {
        let bytes = uci.as_bytes();
        let len = bytes.len();
        if len < 4 || len > 5 {
            return UciMoveCreationResult::Failure;
        }
        let start_square = match square_from_name_bytes(bytes[0], bytes[1]) {
            Some(s) => s,
            None => {
                return UciMoveCreationResult::Failure;
            },
        };
        let target_square = match square_from_name_bytes(bytes[2], bytes[3]) {
            Some(s) => s,
            None => {
                return UciMoveCreationResult::Failure;
            },
        };
        assert(bytes@.subrange(0, 2) =~= seq![bytes@[0], bytes@[1]]);
        assert(bytes@.subrange(2, 4) =~= seq![bytes@[2], bytes@[3]]);
        assert(is_square_name(bytes@[0], bytes@[1]) && is_square_name(bytes@[2], bytes@[3]));
        let mut move_type = MoveType::Regular;
        if len == 5 {
            let letter = bytes[4];
            if letter == 113 {
                move_type = MoveType::PromotionQueen;
            } else if letter == 110 {
                move_type = MoveType::PromotionKnight;
            } else if letter == 114 {
                move_type = MoveType::PromotionRook;
            } else if letter == 98 {
                move_type = MoveType::PromotionBishop;
            } else {
                return UciMoveCreationResult::Failure;
            }
        }
        UciMoveCreationResult::Success(UciMove::new(move_type, start_square, target_square))
    }
}

impl Move {
    /// Completes a UCI move against the board: a king moving two files from
    /// its start square castles, a pawn crossing two ranks makes a double
    /// move, and a pawn moving onto the en-passant target captures the pawn
    /// that just moved.
    pub fn from_uci(mov: UciMove, board: &Board) -> (r: Move)
        requires
            consistent(board@),
            mov.start_square < 64,
            mov.target_square < 64,
        ensures
            r.start_square == mov.start_square,
            r.target_square == mov.target_square,
            ({
                let (c, t) = board@.squares[mov.start_square as int];
                &&& r.move_type == if t == KING && mov.start_square == king_start_sq(c)
                    && mov.target_square == king_side_sq(c) {
                    MoveType::CastlingKingSide
                } else if t == KING && mov.start_square == king_start_sq(c) && mov.target_square
                    == queen_side_sq(c) {
                    MoveType::CastlingQueenSide
                } else if t == PAWN && (mov.target_square == mov.start_square + 16
                    || mov.start_square == mov.target_square + 16) {
                    MoveType::PawnDoubleMove
                } else {
                    mov.move_type
                }
                &&& r.capture_square == if t == PAWN && board@.ep && mov.target_square
                    == board@.ep_capture {
                    board@.ep_pawn
                } else {
                    mov.target_square
                }
            }),
    {
        let start_square = mov.start_square;
        let target_square = mov.target_square;
        let (color, piece_type) = board.get_piece_on_square(start_square);
        let mut capture_square = target_square;
        if piece_type == PAWN && board.is_en_passant_possible() && target_square
            == board.en_passant_capture_square() {
            capture_square = board.en_passant_pawn_square();
        }
        let mut move_type = mov.move_type;
        if piece_type == KING && start_square == crate::board::get_king_start_square(color) {
            if target_square == crate::board::get_king_side_square(color) {
                move_type = MoveType::CastlingKingSide;
            } else if target_square == crate::board::get_queen_side_square(color) {
                move_type = MoveType::CastlingQueenSide;
            }
        }
        if piece_type == PAWN && (target_square == start_square + 16 || start_square == target_square
            + 16) {
            move_type = MoveType::PawnDoubleMove;
        }
        Move { start_square, target_square, capture_square, move_type }
    }

    /// The move in UCI notation, such as `e2e4` or `e7e8q`.
    pub fn to_uci(&self) -> (r: String)
        requires
            self.start_square < 64,
            self.target_square < 64,
        ensures
            r@ == ascii_chars(
                uci_bytes(self.start_square as int, self.target_square as int, self.move_type),
            ),
    {
        let (f1, r1) = square_name_to_bytes(self.start_square);
        let (f2, r2) = square_name_to_bytes(self.target_square);
        let mut out: Vec<u8> = Vec::new();
        out.push(f1);
        out.push(r1);
        out.push(f2);
        out.push(r2);
        match self.move_type {
            MoveType::PromotionQueen => out.push(113),
            MoveType::PromotionKnight => out.push(110),
            MoveType::PromotionRook => out.push(114),
            MoveType::PromotionBishop => out.push(98),
            _ => {},
        }
        assert(out@ =~= uci_bytes(self.start_square as int, self.target_square as int, self.move_type));
        ascii_to_string(out)
    }
}

} // verus!

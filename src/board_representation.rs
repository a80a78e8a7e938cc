use vstd::prelude::*;
use vstd::string::StringSliceAdditionalSpecFns;
use crate::piece::{BISHOP, BLACK, INVALID_COLOR, KING, KNIGHT, NONE, PAWN, QUEEN, ROOK, WHITE};

verus! {

/// Position the regular chess game starts from.
pub const DEFAULT_FEN: &'static str = "rnbqkbnr/pppppppp/8/8/8/8/PPPPPPPP/RNBQKBNR w KQkq - 0 1";
/// A position rich in promotions and checks.
pub const PERFT_FEN: &'static str = "rnbq1k1r/pp1Pbppp/2p5/8/2B5/8/PPP1NnPP/RNBQK2R w KQ - 1 8";
/// White mates in two.
pub const MATE_IN_2_FEN: &'static str = "kbK5/pp6/1P6/8/8/8/8/R7 w - -";

/// The characters of an ASCII byte sequence.
pub open spec fn ascii_chars(b: Seq<u8>) -> Seq<char> {
    b.map_values(|x: u8| x as char)
}

/// Relies on String::from_utf8: ASCII bytes are valid UTF-8, so the string
/// holds exactly these characters.
#[verifier::external_body]
pub(crate) fn ascii_to_string(bytes: Vec<u8>) -> (r: String)
    requires
        forall|i: int| 0 <= i < bytes@.len() ==> bytes@[i] < 128,
    ensures
        r@ == ascii_chars(bytes@),
{
    String::from_utf8(bytes).unwrap_or_default()
}

/// Letter of file column `row` counted from the a-file.
pub fn get_board_row_letter(row: usize) -> (r: char)
    requires
        row < 8,
    ensures
        r == (97 + row) as u8 as char,
{
    (97u8 + row as u8) as char
}

/// The FEN letter of a piece: upper case for white, lower case for black.
pub open spec fn fen_letter(color: usize, piece_type: usize) -> u8 {
    let upper: u8 = if piece_type == KING {
        75u8
    } else if piece_type == PAWN {
        80u8
    } else if piece_type == KNIGHT {
        78u8
    } else if piece_type == BISHOP {
        66u8
    } else if piece_type == ROOK {
        82u8
    } else {
        81u8
    };
    if color == WHITE { upper } else { (upper + 32) as u8 }
}

/// The piece a FEN byte names: `(INVALID_COLOR, NONE)` for a blank, `None` for
/// a byte that names no piece.
pub(crate) fn fen_byte_to_piece(b: u8) -> (r: Option<(usize, usize)>)
    ensures
        r matches Some(p) ==> (b == 32 && p == (INVALID_COLOR, NONE)) || (p.0 < 2 && 1 <= p.1 < 7
            && fen_letter(p.0, p.1) == b),
        r is None ==> b != 32 && forall|c: usize, t: usize|
            c < 2 && 1 <= t < 7 ==> fen_letter(c, t) != b,
{
    let (color, lower) = if b >= 97 {
        (BLACK, b - 32)
    } else {
        (WHITE, b)
    };
    if b == 32 {
        return Some((INVALID_COLOR, NONE));
    }
    let t = if lower == 75 {
        KING
    } else if lower == 80 {
        PAWN
    } else if lower == 78 {
        KNIGHT
    } else if lower == 66 {
        BISHOP
    } else if lower == 82 {
        ROOK
    } else if lower == 81 {
        QUEEN
    } else {
        NONE
    };
    if t == NONE {
        None
    } else {
        Some((color, t))
    }
}

/// Returns the piece a FEN character names, `(INVALID_COLOR, NONE)` for a
/// blank, or `None` for any other character.
pub fn get_piece_from_fen(fen_sym: &char) -> (r: Option<(usize, usize)>)
    ensures
        r matches Some(p) ==> (*fen_sym == ' ' && p == (INVALID_COLOR, NONE)) || (p.0 < 2 && 1
            <= p.1 < 7 && fen_letter(p.0, p.1) as char == *fen_sym),
        r is None ==> *fen_sym != ' ' && forall|c: usize, t: usize|
            c < 2 && 1 <= t < 7 ==> fen_letter(c, t) as char != *fen_sym,
{
    let c = *fen_sym;
    if (c as u32) < 128 {
        fen_byte_to_piece(c as u8)
    } else {
        None
    }
}

/// Returns the FEN character of a piece, or a blank for `NONE`.
pub fn piece_to_fen_sym(color: usize, piece_type: usize) -> (r: char)
    requires
        color < 2 || piece_type == NONE,
        piece_type < 7,
    ensures
        piece_type == NONE ==> r == ' ',
        piece_type != NONE ==> r == fen_letter(color, piece_type) as char,
{
    if piece_type == NONE {
        return ' ';
    }
    piece_to_fen_byte(color, piece_type) as char
}

pub(crate) fn piece_to_fen_byte(color: usize, piece_type: usize) -> (r: u8)
    requires
        color < 2,
        1 <= piece_type < 7,
    ensures
        r == fen_letter(color, piece_type),
        r < 128,
{
    let upper: u8 = if piece_type == KING {
        75
    } else if piece_type == PAWN {
        80
    } else if piece_type == KNIGHT {
        78
    } else if piece_type == BISHOP {
        66
    } else if piece_type == ROOK {
        82
    } else {
        81
    };
    if color == WHITE {
        upper
    } else {
        upper + 32
    }
}

/// The two bytes naming a square: its file letter (file index 0 is `h`) and
/// its rank digit.
pub open spec fn square_name_bytes(square: int) -> Seq<u8> {
    seq![(104 - square % 8) as u8, (49 + square / 8) as u8]
}

pub(crate) fn square_name_to_bytes(square: usize) -> (r: (u8, u8))
    requires
        square < 64,
    ensures
        seq![r.0, r.1] == square_name_bytes(square as int),
        r.0 < 128 && r.1 < 128,
{
    ((104 - square % 8) as u8, (49 + square / 8) as u8)
}

/// Returns the name of a square, such as `e1`.
pub fn get_square_name(square: usize) -> (r: String)
    requires
        square < 64,
    ensures
        r@ == ascii_chars(square_name_bytes(square as int)),
{
    let (f, rank) = square_name_to_bytes(square);
    let mut v: Vec<u8> = Vec::new();
    v.push(f);
    v.push(rank);
    assert(v@ == seq![f, rank]);
    ascii_to_string(v)
}

pub(crate) fn square_from_name_bytes(file: u8, rank: u8) -> (r: Option<usize>)
    ensures
        r matches Some(s) ==> s < 64 && square_name_bytes(s as int) == seq![file, rank],
        r is None ==> forall|s: int| 0 <= s < 64 ==> square_name_bytes(s) != seq![file, rank],
{
    if file >= 97 && file <= 104 && rank >= 49 && rank <= 56 {
        let s = (104 - file) as usize + 8 * (rank - 49) as usize;
        assert(square_name_bytes(s as int) =~= seq![file, rank]);
        Some(s)
    } else {
        assert forall|s: int| 0 <= s < 64 implies square_name_bytes(s) != seq![file, rank] by {
            assert(square_name_bytes(s)[0] == (104 - s % 8) as u8);
            assert(square_name_bytes(s)[1] == (49 + s / 8) as u8);
        }
        None
    }
}

/// Returns the square a name such as `e1` denotes, or `None` for anything else.
pub fn get_square_from_name(square_name: &str) -> (r: Option<usize>)
    ensures
        r matches Some(s) ==> s < 64 && square_name.spec_bytes() == square_name_bytes(s as int),
        r is None ==> forall|s: int| 0 <= s < 64 ==> square_name.spec_bytes() != square_name_bytes(s),
{
    let bytes = square_name.as_bytes();
    if bytes.len() != 2 {
        return None;
    }
    let r = square_from_name_bytes(bytes[0], bytes[1]);
    assert(bytes@ =~= seq![bytes@[0], bytes@[1]]);
    r
}

} // verus!

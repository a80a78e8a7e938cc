use chess::board::{Board, FenError};
use chess::board_representation::{
    get_board_row_letter, get_piece_from_fen, get_square_from_name, get_square_name,
    piece_to_fen_sym,
};
use chess::move_gen::generate_moves;
use chess::moves::{Move, MoveType, UciMove, UciMoveCreationResult};
use chess::piece::{BLACK, INVALID_COLOR, KING, KNIGHT, NONE, PAWN, QUEEN, ROOK, WHITE};
use chess::precomputed::PrecomputedData;

const POSITIONS: [&str; 6] = [
    "rnbqkbnr/pppppppp/8/8/8/8/PPPPPPPP/RNBQKBNR w KQkq -",
    "r3k2r/p1ppqpb1/bn2pnp1/3PN3/1p2P3/2N2Q1p/PPPBBPPP/R3K2R w KQkq -",
    "8/2p5/3p4/KP5r/1R3p1k/8/4P1P1/8 w - -",
    "r3k2r/Pppp1ppp/1b3nbN/nP6/BBP1P3/q4N2/Pp1P2pP/R2Q1RK1 w kq -",
    "rnbq1k1r/pp1Pbppp/2p5/8/2B5/8/PPP1NnPP/RNBQK2R w KQ -",
    "rnbqkbnr/ppp1p1pp/8/3pPp2/8/8/PPPP1PPP/RNBQKBNR w KQkq f6",
];

fn snapshot(board: &Board) -> (String, Vec<(usize, usize)>, Vec<u64>, u8, u8, bool, usize, usize) {
    let squares = (0..64).map(|s| board.get_piece_on_square(s)).collect();
    let mut bitboards = Vec::new();
    for c in 0..2 {
        for t in 0..7 {
            bitboards.push(board.get_piece_bitboard(c, t));
        }
    }
    (
        board.to_fen(),
        squares,
        bitboards,
        board.get_castling_state(WHITE),
        board.get_castling_state(BLACK),
        board.is_en_passant_possible(),
        board.en_passant_pawn_square(),
        board.en_passant_capture_square(),
    )
}

fn check_invariants(board: &Board) {
    for c in 0..2 {
        let mut union = 0u64;
        for t in 1..7 {
            union |= board.get_piece_bitboard(c, t);
        }
        assert_eq!(board.get_piece_bitboard(c, 0), union);
        assert_eq!(board.get_piece_bitboard(c, KING).count_ones(), 1);
    }
    assert_eq!(board.get_piece_bitboard(WHITE, 0) & board.get_piece_bitboard(BLACK, 0), 0);
    for s in 0..64 {
        let (c, t) = board.get_piece_on_square(s);
        let occupied = board.get_all_occupied_squares() & (1u64 << s) != 0;
        assert_eq!(t != NONE, occupied);
        if t != NONE {
            assert!(board.get_piece_bitboard(c, 0) & (1u64 << s) != 0);
        }
    }
    for c in 0..2 {
        let rights = board.get_castling_state(c);
        let king_start = chess::board::get_king_start_square(c);
        if rights & 1 != 0 {
            assert_eq!(board.get_piece_on_square(king_start), (c, KING));
            assert_eq!(board.get_piece_on_square(if c == WHITE { 0 } else { 56 }), (c, ROOK));
        }
        if rights & 2 != 0 {
            assert_eq!(board.get_piece_on_square(king_start), (c, KING));
            assert_eq!(board.get_piece_on_square(if c == WHITE { 7 } else { 63 }), (c, ROOK));
        }
    }
}

#[test]
fn make_then_undo_restores_every_position() {
    let data = PrecomputedData::new().unwrap();
    for fen in POSITIONS {
        let mut board = Board::from_fen(fen).unwrap();
        let before = snapshot(&board);
        let mut moves = Vec::new();
        generate_moves(&mut moves, &mut board, &data);
        assert!(!moves.is_empty());
        for m in moves {
            let record = board.make_move(m);
            check_invariants(&board);
            assert_eq!(board.is_en_passant_possible(), m.move_type == MoveType::PawnDoubleMove);
            board.undo_move(record);
            assert_eq!(snapshot(&board), before);
        }
    }
}

#[test]
fn invariants_hold_two_plies_deep() {
    let data = PrecomputedData::new().unwrap();
    let mut board = Board::from_fen(POSITIONS[1]).unwrap();
    let mut moves = Vec::new();
    generate_moves(&mut moves, &mut board, &data);
    for m in moves {
        let r1 = board.make_move(m);
        let mut replies = Vec::new();
        generate_moves(&mut replies, &mut board, &data);
        for reply in replies {
            let r2 = board.make_move(reply);
            check_invariants(&board);
            board.undo_move(r2);
        }
        board.undo_move(r1);
    }
}

#[test]
fn fen_round_trip() {
    for fen in POSITIONS {
        let board = Board::from_fen(fen).unwrap();
        assert_eq!(board.to_fen(), fen);
        let again = Board::from_fen(&board.to_fen()).unwrap();
        assert_eq!(snapshot(&again), snapshot(&board));
    }
}

#[test]
fn fen_round_trip_after_moves() {
    let data = PrecomputedData::new().unwrap();
    let mut board = Board::from_fen(POSITIONS[1]).unwrap();
    let mut moves = Vec::new();
    generate_moves(&mut moves, &mut board, &data);
    for m in moves {
        let record = board.make_move(m);
        let again = Board::from_fen(&board.to_fen()).unwrap();
        assert_eq!(snapshot(&again), snapshot(&board));
        board.undo_move(record);
    }
}

#[test]
fn fen_with_counters_reads_back_after_a_move() {
    let data = PrecomputedData::new().unwrap();
    let mut board = Board::from_fen("rnbqkbnr/pppppppp/8/8/8/8/PPPPPPPP/RNBQKBNR w KQkq - 0 1").unwrap();
    let mut moves = Vec::new();
    generate_moves(&mut moves, &mut board, &data);
    let e2e4 = *moves.iter().find(|m| m.start_square == 11 && m.target_square == 27).unwrap();
    board.make_move(e2e4);
    let fen = board.to_fen();
    assert_eq!(fen, "rnbqkbnr/pppppppp/8/8/4P3/8/PPPP1PPP/RNBQKBNR b KQkq e3");
    let again = Board::from_fen(&(fen + " 0 1")).unwrap();
    assert_eq!(snapshot(&again), snapshot(&board));
    assert_eq!(again.en_passant_pawn_square(), 27);
}

#[test]
fn fen_counters_are_ignored() {
    let board = Board::from_fen("rnbqkbnr/pppppppp/8/8/8/8/PPPPPPPP/RNBQKBNR w KQkq - 0 1").unwrap();
    assert_eq!(board.to_fen(), "rnbqkbnr/pppppppp/8/8/8/8/PPPPPPPP/RNBQKBNR w KQkq -");
    assert!(board.is_white_to_move());
}

#[test]
fn fen_reads_side_and_rights() {
    let board = Board::from_fen("r3k2r/8/8/8/8/8/8/R3K2R b Kq - 3 20").unwrap();
    assert_eq!(board.get_current_color(), BLACK);
    assert_eq!(board.get_opposite_color(), WHITE);
    assert_eq!(board.get_castling_state(WHITE), 0b01);
    assert_eq!(board.get_castling_state(BLACK), 0b10);
    assert_eq!(board.get_king_square(WHITE), 3);
    assert_eq!(board.get_king_square(BLACK), 59);
}

#[test]
fn fen_refuses_non_canonical_text() {
    // a right whose rook is missing, a split run of empty squares, rights out of order
    for fen in [
        "4k3/8/8/8/8/8/8/4K2R w KQ -",
        "rnbqkbnr/pppppppp/44/8/8/8/PPPPPPPP/RNBQKBNR w KQkq -",
        "rnbqkbnr/pppppppp/8/8/8/8/PPPPPPPP/RNBQKBNR w QKkq -",
        "rnbqkbnr/pppppppp/8/8/8/8/PPPPPPPP/RNBQKBNR w KQkq -x",
    ] {
        assert!(matches!(Board::from_fen(fen), Err(FenError::MalformedFen)), "{}", fen);
    }
    assert!(Board::from_fen("4k3/8/8/8/8/8/8/4K2R w K -").is_ok());
}

#[test]
fn malformed_fens_are_refused() {
    for fen in [
        "",
        "rnbqkbnr/pppppppp/8/8/8/8/PPPPPPPP w KQkq -",
        "rnbqkbnr/pppppppp/8/8/8/8/PPPPPPPP/RNBQKBNR x KQkq -",
        "rnbqkbnr/pppppppp/9/8/8/8/PPPPPPPP/RNBQKBNR w KQkq -",
        "rnbqkbnr/pppppppp/8/8/8/8/PPPPPPPP/RNBQKBNX w KQkq -",
        "rnbqkbnr/pppppppp/8/8/8/8/PPPPPPPP/RNBQQBNR w KQkq -",
        "rnbqkbnr/pppppppp/8/8/8/8/PPPPPPPP/RNBQKBNR w KQkq e3",
        "rnbqkbnr/pppppppp/8/8/8/8/PPPPPPPP/RNBQKBNR w KQkX -",
        "rnbqkbnr/pppppppp/8/8/8/8/PPPPPPPP/RNBQKBNR w",
    ] {
        assert!(matches!(Board::from_fen(fen), Err(FenError::MalformedFen)), "{}", fen);
    }
}

#[test]
fn fen_en_passant_target() {
    let board = Board::from_fen(POSITIONS[5]).unwrap();
    assert!(board.is_en_passant_possible());
    assert_eq!(board.en_passant_capture_square(), get_square_from_name("f6").unwrap());
    assert_eq!(board.en_passant_pawn_square(), get_square_from_name("f5").unwrap());
}

#[test]
fn new_board_is_empty() {
    let board = Board::new();
    assert_eq!(board.get_all_occupied_squares(), 0);
    assert!(board.is_white_to_move());
    assert_eq!(board.get_castling_state(WHITE), 0b11);
    assert!(!board.is_en_passant_possible());
    assert_eq!(board.get_piece_on_square(10), (INVALID_COLOR, NONE));
}

#[test]
fn switch_color_flips_side() {
    let mut board = Board::new();
    board.switch_color();
    assert_eq!(board.get_current_color(), BLACK);
    board.switch_color();
    assert_eq!(board.get_current_color(), WHITE);
}

#[test]
fn square_names() {
    assert_eq!(get_square_name(0), "h1");
    assert_eq!(get_square_name(3), "e1");
    assert_eq!(get_square_name(63), "a8");
    assert_eq!(get_square_from_name("e1"), Some(3));
    assert_eq!(get_square_from_name("a8"), Some(63));
    assert_eq!(get_square_from_name("i1"), None);
    assert_eq!(get_square_from_name("e9"), None);
    assert_eq!(get_square_from_name("e10"), None);
    for s in 0..64 {
        assert_eq!(get_square_from_name(&get_square_name(s)), Some(s));
    }
    assert_eq!(get_board_row_letter(0), 'a');
    assert_eq!(get_board_row_letter(7), 'h');
}

#[test]
fn fen_symbols() {
    assert_eq!(get_piece_from_fen(&'K'), Some((WHITE, KING)));
    assert_eq!(get_piece_from_fen(&'n'), Some((BLACK, KNIGHT)));
    assert_eq!(get_piece_from_fen(&' '), Some((INVALID_COLOR, NONE)));
    assert_eq!(get_piece_from_fen(&'x'), None);
    assert_eq!(piece_to_fen_sym(WHITE, QUEEN), 'Q');
    assert_eq!(piece_to_fen_sym(BLACK, PAWN), 'p');
    assert_eq!(piece_to_fen_sym(INVALID_COLOR, NONE), ' ');
}

#[test]
fn uci_parsing() {
    match UciMove::from_uci("e2e4") {
        UciMoveCreationResult::Success(m) => {
            assert_eq!(m.start_square, 11);
            assert_eq!(m.target_square, 27);
            assert_eq!(m.move_type, MoveType::Regular);
            assert!(!m.is_promotion());
        }
        UciMoveCreationResult::Failure => panic!("e2e4 refused"),
    }
    match UciMove::from_uci("e7e8q") {
        UciMoveCreationResult::Success(m) => {
            assert_eq!(m.move_type, MoveType::PromotionQueen);
            assert!(m.is_promotion());
        }
        UciMoveCreationResult::Failure => panic!("e7e8q refused"),
    }
    assert_eq!(UciMove::from_uci("e2"), UciMoveCreationResult::Failure);
    assert_eq!(UciMove::from_uci("e2e4qq"), UciMoveCreationResult::Failure);
    assert_eq!(UciMove::from_uci("z2e4"), UciMoveCreationResult::Failure);
    assert_eq!(UciMove::from_uci("e7e8x"), UciMoveCreationResult::Failure);
    assert_eq!(UciMove::from_uci("e7e8k"), UciMoveCreationResult::Failure);
    assert_eq!(UciMove::from_uci("e7e8p"), UciMoveCreationResult::Failure);
    assert_eq!(UciMove::from_uci("e7e8Q"), UciMoveCreationResult::Failure);
    match UciMove::from_uci("a2a1b") {
        UciMoveCreationResult::Success(m) => assert_eq!(m.move_type, MoveType::PromotionBishop),
        UciMoveCreationResult::Failure => panic!("a2a1b refused"),
    }
}

#[test]
fn uci_moves_are_completed_by_the_board() {
    let board = Board::from_fen("r3k2r/8/8/8/3pP3/8/4P3/R3K2R b KQkq e3").unwrap();
    let parse = |s: &str| match UciMove::from_uci(s) {
        UciMoveCreationResult::Success(m) => Move::from_uci(m, &board),
        UciMoveCreationResult::Failure => panic!("refused"),
    };
    let castle = parse("e8g8");
    assert_eq!(castle.move_type, MoveType::CastlingKingSide);
    assert!(castle.is_castling());
    assert_eq!(parse("e8c8").move_type, MoveType::CastlingQueenSide);
    let ep = parse("d4e3");
    assert_eq!(ep.capture_square, get_square_from_name("e4").unwrap());
    let white = Board::from_fen("r3k2r/8/8/8/3pP3/8/4P3/R3K2R w KQkq -").unwrap();
    let double = match UciMove::from_uci("e2e4") {
        UciMoveCreationResult::Success(m) => Move::from_uci(m, &white),
        UciMoveCreationResult::Failure => panic!("refused"),
    };
    assert_eq!(double.move_type, MoveType::PawnDoubleMove);
}

#[test]
fn uci_text_of_moves() {
    let m = Move::new(11, 27, 27, MoveType::PawnDoubleMove);
    assert_eq!(m.to_uci(), "e2e4");
    let p = Move::new(52, 60, 60, MoveType::PromotionKnight);
    assert_eq!(p.to_uci(), "d7d8n");
    assert!(p.is_promotion());
    assert!(!p.is_castling());
}

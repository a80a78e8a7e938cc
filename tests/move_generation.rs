use chess::attack_calculator::AttackCalculator;
use chess::board::Board;
use chess::move_gen::generate_moves;
use chess::moves::{Move, MoveType};
use chess::precomputed::PrecomputedData;
use chess::game::{game_state, GameState};

fn legal_moves(board: &Board, data: &PrecomputedData) -> Vec<Move> {
    // generation plays each candidate on the board and takes it back
    let mut copy = Board::from_fen(&board.to_fen()).unwrap();
    let mut moves = Vec::new();
    generate_moves(&mut moves, &mut copy, data);
    moves
}

fn square(name: &str) -> usize {
    chess::board_representation::get_square_from_name(name).unwrap()
}

/// True when the side to move is checkmated.
fn is_mate(board: &Board, data: &PrecomputedData) -> bool {
    legal_moves(board, data).is_empty() && AttackCalculator::new(board, data).in_check()
}

#[test]
fn mate_in_two_is_found() {
    let data = PrecomputedData::new().unwrap();
    let mut board = Board::from_fen("kbK5/pp6/1P6/8/8/8/8/R7 w - -").unwrap();
    let mut found = false;
    for first in legal_moves(&board, &data) {
        let r1 = board.make_move(first);
        let replies = legal_moves(&board, &data);
        let mut all_replies_lose = !replies.is_empty();
        for reply in replies {
            let r2 = board.make_move(reply);
            let mut mates = false;
            for second in legal_moves(&board, &data) {
                let r3 = board.make_move(second);
                if is_mate(&board, &data) {
                    mates = true;
                }
                board.undo_move(r3);
            }
            board.undo_move(r2);
            if !mates {
                all_replies_lose = false;
            }
        }
        board.undo_move(r1);
        if all_replies_lose {
            found = true;
        }
    }
    assert!(found);
}

#[test]
fn en_passant_exposing_king_on_rank_is_absent() {
    let data = PrecomputedData::new().unwrap();
    let board = Board::from_fen("8/8/8/KPp4r/8/8/8/7k w - c6 0 1").unwrap();
    let moves = legal_moves(&board, &data);
    assert!(moves.iter().all(|m| m.target_square != square("c6")));
    assert!(moves.iter().any(|m| m.start_square == square("b5") && m.target_square == square("b6")));
}

#[test]
fn en_passant_is_generated_when_allowed() {
    let data = PrecomputedData::new().unwrap();
    let board = Board::from_fen("8/8/8/1Pp5/8/8/8/K6k w - c6 0 1").unwrap();
    let moves = legal_moves(&board, &data);
    let ep: Vec<&Move> = moves.iter().filter(|m| m.target_square == square("c6")).collect();
    assert_eq!(ep.len(), 1);
    assert_eq!(ep[0].capture_square, square("c5"));
}

fn castles(fen: &str) -> (bool, bool) {
    let data = PrecomputedData::new().unwrap();
    let board = Board::from_fen(fen).unwrap();
    let moves = legal_moves(&board, &data);
    (
        moves.iter().any(|m| m.move_type == MoveType::CastlingKingSide),
        moves.iter().any(|m| m.move_type == MoveType::CastlingQueenSide),
    )
}

#[test]
fn castling_both_sides_when_free() {
    assert_eq!(castles("4k3/8/8/8/8/8/8/R3K2R w KQ - 0 1"), (true, true));
}

#[test]
fn castling_through_check_is_forbidden() {
    assert_eq!(castles("4kr2/8/8/8/8/8/8/R3K2R w KQ - 0 1"), (false, true));
}

#[test]
fn castling_into_check_is_forbidden() {
    assert_eq!(castles("4k1r1/8/8/8/8/8/8/R3K2R w KQ - 0 1"), (false, true));
}

#[test]
fn castling_out_of_check_is_forbidden() {
    assert_eq!(castles("k3r3/8/8/8/8/8/8/R3K2R w KQ - 0 1"), (false, false));
}

#[test]
fn castling_past_attacked_b_file_is_allowed() {
    assert_eq!(castles("1r2k3/8/8/8/8/8/8/R3K2R w KQ - 0 1"), (true, true));
}

#[test]
fn castling_over_an_occupied_square_is_forbidden() {
    assert_eq!(castles("4k3/8/8/8/8/8/8/RN2K1NR w KQ - 0 1"), (false, false));
}

#[test]
fn promotion_captures_give_four_moves_per_target() {
    let data = PrecomputedData::new().unwrap();
    let board = Board::from_fen("1n1n4/2P5/8/8/8/8/8/K6k w - - 0 1").unwrap();
    let moves = legal_moves(&board, &data);
    let from_c7: Vec<&Move> = moves.iter().filter(|m| m.start_square == square("c7")).collect();
    assert_eq!(from_c7.len(), 12);
    for target in ["b8", "c8", "d8"] {
        let kinds: Vec<MoveType> = from_c7
            .iter()
            .filter(|m| m.target_square == square(target))
            .map(|m| m.move_type)
            .collect();
        assert_eq!(kinds.len(), 4);
        assert!(kinds.contains(&MoveType::PromotionQueen));
        assert!(kinds.contains(&MoveType::PromotionKnight));
        assert!(kinds.contains(&MoveType::PromotionRook));
        assert!(kinds.contains(&MoveType::PromotionBishop));
    }
}

#[test]
fn double_check_allows_only_king_moves() {
    let data = PrecomputedData::new().unwrap();
    let board = Board::from_fen("4r1k1/8/8/8/1b6/8/8/R3K3 w Q - 0 1").unwrap();
    let calc = AttackCalculator::new(&board, &data);
    assert!(calc.is_in_double_check);
    let moves = legal_moves(&board, &data);
    assert!(!moves.is_empty());
    assert!(moves.iter().all(|m| m.start_square == square("e1")));
}

#[test]
fn pinned_rook_moves_along_its_file() {
    let data = PrecomputedData::new().unwrap();
    let board = Board::from_fen("4r1k1/8/8/8/8/8/4R3/4K3 w - - 0 1").unwrap();
    let moves = legal_moves(&board, &data);
    let rook: Vec<&Move> = moves.iter().filter(|m| m.start_square == square("e2")).collect();
    assert_eq!(rook.len(), 6);
    assert!(rook.iter().all(|m| m.target_square % 8 == square("e2") % 8));
}

#[test]
fn single_check_by_knight_is_answered() {
    let data = PrecomputedData::new().unwrap();
    let board = Board::from_fen("4k3/8/8/8/8/5n2/8/R3K3 w Q - 0 1").unwrap();
    let calc = AttackCalculator::new(&board, &data);
    assert!(calc.in_check());
    assert!(!calc.is_in_double_check);
    assert_eq!(calc.check_block_bb, 1u64 << square("f3"));
    let moves = legal_moves(&board, &data);
    assert!(moves.iter().all(|m| m.start_square == square("e1")));
}

#[test]
fn pins_are_reported_per_axis() {
    let data = PrecomputedData::new().unwrap();
    let board = Board::from_fen("4r1k1/8/8/8/8/8/4N3/4K3 w - - 0 1").unwrap();
    let calc = AttackCalculator::new(&board, &data);
    assert_eq!(calc.pins_bbs[0], 1u64 << square("e2"));
    assert_eq!(calc.pins_bbs[1] | calc.pins_bbs[2] | calc.pins_bbs[3], 0);
    let moves = legal_moves(&board, &data);
    assert!(moves.iter().all(|m| m.start_square != square("e2")));
}

#[test]
fn attacked_squares_see_through_the_king() {
    let data = PrecomputedData::new().unwrap();
    let board = Board::from_fen("4k3/8/8/8/8/8/8/r3K3 w - - 0 1").unwrap();
    let calc = AttackCalculator::new(&board, &data);
    // the rook on a1 checks along the first rank, and the square behind the king stays attacked
    assert!(calc.in_check());
    assert!(calc.squares_in_attack_bb & (1u64 << square("f1")) != 0);
    let moves = legal_moves(&board, &data);
    assert!(moves.iter().all(|m| m.target_square != square("f1") && m.target_square != square("d1")));
}

#[test]
fn checkmate_and_stalemate_positions() {
    let data = PrecomputedData::new().unwrap();
    let mate = Board::from_fen("R5k1/5ppp/8/8/8/8/8/6K1 b - - 0 1").unwrap();
    let moves = legal_moves(&mate, &data);
    let check = AttackCalculator::new(&mate, &data).in_check();
    assert_eq!(game_state(mate.get_current_color(), moves.len(), check), GameState::WhiteWon);
    let stale = Board::from_fen("7k/5Q2/6K1/8/8/8/8/8 b - - 0 1").unwrap();
    let moves = legal_moves(&stale, &data);
    let check = AttackCalculator::new(&stale, &data).in_check();
    assert_eq!(game_state(stale.get_current_color(), moves.len(), check), GameState::Draw);
}

use chess::board::Board;
use chess::perft::perft;
use chess::precomputed::PrecomputedData;

const START: &str = "rnbqkbnr/pppppppp/8/8/8/8/PPPPPPPP/RNBQKBNR w KQkq - 0 1";
const KIWIPETE: &str = "r3k2r/p1ppqpb1/bn2pnp1/3PN3/1p2P3/2N2Q1p/PPPBBPPP/R3K2R w KQkq -";
const POSITION_3: &str = "8/2p5/3p4/KP5r/1R3p1k/8/4P1P1/8 w - -";
// The g2 pawn is white: with a black pawn there the tree is another one.
const POSITION_4: &str = "r3k2r/Pppp1ppp/1b3nbN/nP6/BBP1P3/q4N2/Pp1P2PP/R2Q1RK1 w kq - 0 1";
const POSITION_4_MIRRORED: &str = "r2q1rk1/pP1p2pp/Q4n2/bbp1p3/Np6/1B3NBn/pPPP1PPP/R3K2R b KQ - 0 1";
const POSITION_5: &str = "rnbq1k1r/pp1Pbppp/2p5/8/2B5/8/PPP1NnPP/RNBQK2R w KQ - 1 8";

fn count(fen: &str, depth: u8) -> u64 {
    let data = PrecomputedData::new().unwrap();
    let mut board = Board::from_fen(fen).unwrap();
    let before = board.to_fen();
    let n = perft(depth, &mut board, &data);
    assert_eq!(board.to_fen(), before);
    n
}

#[test]
fn start_position_depth_1() {
    assert_eq!(count(START, 1), 20);
}

#[test]
fn start_position_depth_2() {
    assert_eq!(count(START, 2), 400);
}

#[test]
fn start_position_depth_3() {
    assert_eq!(count(START, 3), 8902);
}

#[test]
fn start_position_depth_4() {
    assert_eq!(count(START, 4), 197281);
}

#[test]
fn start_position_depth_5() {
    assert_eq!(count(START, 5), 4865609);
}

#[test]
fn kiwipete_depth_1() {
    assert_eq!(count(KIWIPETE, 1), 48);
}

#[test]
fn kiwipete_depth_2() {
    assert_eq!(count(KIWIPETE, 2), 2039);
}

#[test]
fn kiwipete_depth_3() {
    assert_eq!(count(KIWIPETE, 3), 97862);
}

#[test]
fn kiwipete_depth_4() {
    assert_eq!(count(KIWIPETE, 4), 4085603);
}

#[test]
fn position_3_depth_4() {
    assert_eq!(count(POSITION_3, 4), 43238);
}

#[test]
fn position_3_depth_5() {
    assert_eq!(count(POSITION_3, 5), 674624);
}

#[test]
fn position_4_depth_4() {
    assert_eq!(count(POSITION_4, 4), 422333);
}

#[test]
fn position_4_shallow_depths() {
    assert_eq!(count(POSITION_4, 1), 6);
    assert_eq!(count(POSITION_4, 2), 264);
    assert_eq!(count(POSITION_4, 3), 9467);
}

#[test]
fn position_4_mirrored_depth_4() {
    assert_eq!(count(POSITION_4_MIRRORED, 4), 422333);
}

#[test]
fn position_5_depth_3() {
    assert_eq!(count(POSITION_5, 3), 62379);
}

#[test]
fn perft_depth_zero_is_one() {
    assert_eq!(count(START, 0), 1);
}

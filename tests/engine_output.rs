use chess::stockfish_response::{parse_u64, StockfishPerftResponse, StockfishResponse};

const ANSWER: &str = "info string NNUE evaluation enabled\na2a3: 380\r\nb2b3: 420\n\nNodes searched: 800\n";

#[test]
fn response_lines() {
    let response = StockfishResponse::new(ANSWER.to_string());
    assert_eq!(response.get_raw_response(), ANSWER);
    let lines = response.get_lines();
    assert_eq!(lines, vec!["info string NNUE evaluation enabled", "a2a3: 380", "b2b3: 420", "", "Nodes searched: 800"]);
    let expected: Vec<String> = ANSWER.lines().map(|l| l.to_string()).collect();
    assert_eq!(lines, expected);
}

#[test]
fn perft_answer_is_read() {
    let parsed = StockfishPerftResponse::from_response(StockfishResponse::new(ANSWER.to_string()));
    assert_eq!(parsed.get_node_count(), 2);
    let nodes = parsed.get_nodes();
    assert_eq!(nodes[0].get_move().start_square, 15);
    assert_eq!(nodes[0].get_move().target_square, 23);
    assert_eq!(nodes[0].get_node_count(), 380);
    assert_eq!(nodes[1].get_node_count(), 420);
    assert_eq!(parsed.get_info_lines(), &vec!["info string NNUE evaluation enabled".to_string()]);
}

#[test]
fn decimal_numbers() {
    assert_eq!(parse_u64("0"), Some(0));
    assert_eq!(parse_u64("+17"), Some(17));
    assert_eq!(parse_u64("18446744073709551615"), Some(u64::MAX));
    assert_eq!(parse_u64("18446744073709551616"), None);
    assert_eq!(parse_u64(""), None);
    assert_eq!(parse_u64("+"), None);
    assert_eq!(parse_u64("12a"), None);
    assert_eq!(parse_u64(" 12"), None);
}

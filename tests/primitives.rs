use chess::bitboards::{get_bit_from_square, get_ls1b, pop_count, shift_bb};
use chess::castling::{annul, annul_king_side, annul_queen_side, can_any, can_king_side, can_queen_side};
use chess::game::{game_state, GameState};
use chess::magic::{
    default_bishop_magics, default_bishop_shifts, default_rook_magics, default_rook_shifts,
    generate_blocker_combinations, generate_lookup_table_index, generate_relevant_occupancy,
    get_bishop_distinct_attack_set_count, get_distinct_attack_set_count, get_min_bits,
    get_min_lookup_square_size, get_relevant_occupancy_cardinality, get_rook_distinct_attack_set_count,
    get_slider_type, slider_attack_bb, validate_magic_number, BitboardData,
};
use chess::precomputed::{MagicsError, PrecomputedData};
use chess::square_data::{get_file_from_square, get_move_offset, get_rank_from_square, SquareData};

#[test]
fn bit_helpers() {
    assert_eq!(get_ls1b(0b1000), 3);
    assert_eq!(get_ls1b(0), 64);
    assert_eq!(get_bit_from_square(63), 1u64 << 63);
    assert_eq!(shift_bb(0xFF, 8), 0xFF00);
    assert_eq!(shift_bb(0xFF00, -8), 0xFF);
    assert_eq!(shift_bb(1, 0), 1);
    assert_eq!(pop_count(0xF0F0), 8);
    assert_eq!(pop_count(0), 0);
}

#[test]
fn castling_helpers() {
    assert!(can_king_side(0b01));
    assert!(!can_king_side(0b10));
    assert!(can_queen_side(0b10));
    assert!(can_any(0b10));
    assert!(!can_any(0));
    let mut c = 0b11u8;
    annul_king_side(&mut c);
    assert_eq!(c, 0b10);
    let mut c = 0b11u8;
    annul_queen_side(&mut c);
    assert_eq!(c, 0b01);
    annul(&mut c);
    assert_eq!(c, 0);
}

#[test]
fn square_geometry() {
    assert_eq!(get_rank_from_square(27), 3);
    assert_eq!(get_file_from_square(27), 3);
    let data = SquareData::new();
    assert_eq!(data.get_squares_to_edge(0, 0), 7);
    assert_eq!(data.get_squares_to_edge(0, 1), 0);
    assert_eq!(data.get_squares_to_edge(27, 4), 3);
    assert_eq!(data.get_bb_for_king(0), (1 << 1) | (1 << 8) | (1 << 9));
    assert_eq!(data.get_bb_for_knight(0), (1 << 10) | (1 << 17));
    assert_eq!(data.get_bb_for_knight(27).count_ones(), 8);
    assert_eq!(data.get_bb_line(0, 63), 0x8040201008040201);
    assert_eq!(data.get_bb_line(0, 10), 0);
    assert_eq!(data.get_bb_line(3, 3), 0);
    assert_eq!(data.get_file_rank_diagonal_mask(0, 0), 0x0101010101010101);
    assert_eq!(data.get_file_rank_diagonal_mask(0, 1), 0xFF);
    assert_eq!(data.get_file_rank_diagonal_mask(0, 2), 0x8040201008040201);
    assert_eq!(data.get_file_rank_diagonal_mask(7, 3), 0x0102040810204080);
}

#[test]
fn relevant_occupancy_sizes() {
    assert_eq!(generate_relevant_occupancy(0, true).count_ones(), 12);
    assert_eq!(generate_relevant_occupancy(27, true).count_ones(), 10);
    assert_eq!(generate_relevant_occupancy(0, false).count_ones(), 6);
    assert_eq!(generate_relevant_occupancy(27, false).count_ones(), 9);
    let mask = generate_relevant_occupancy(0, false);
    assert_eq!(generate_blocker_combinations(mask).len(), 64);
}

#[test]
fn slider_attacks_stop_at_blockers() {
    let data = SquareData::new();
    assert_eq!(slider_attack_bb(&data, 0, 0, true), 0x01010101010101FE);
    let blockers = (1u64 << 16) | (1u64 << 2);
    assert_eq!(slider_attack_bb(&data, 0, blockers, true), (1 << 8) | (1 << 16) | (1 << 1) | (1 << 2));
}

#[test]
fn magic_lookup_matches_ray_walk() {
    let tables = PrecomputedData::new().unwrap();
    let mut x: u64 = 0x9E3779B97F4A7C15;
    for square in 0..64 {
        for _ in 0..20 {
            x ^= x << 13;
            x ^= x >> 7;
            x ^= x << 17;
            let occ = x & x.rotate_left(23);
            assert_eq!(
                tables.rook_table.get_pseudo_legal_move_bb(square, occ),
                slider_attack_bb(&tables.square_data, square, occ, true)
            );
            assert_eq!(
                tables.bishop_table.get_pseudo_legal_move_bb(square, occ),
                slider_attack_bb(&tables.square_data, square, occ, false)
            );
        }
    }
}

#[test]
fn lookup_index_uses_top_bits() {
    assert_eq!(generate_lookup_table_index(1, 4, 0xF000_0000_0000_0000, u64::MAX), 0xF);
    assert_eq!(generate_lookup_table_index(2, 4, 0x0800_0000_0000_0000, u64::MAX), 0x1);
    assert_eq!(generate_lookup_table_index(1, 4, 0xF000_0000_0000_0000, 0), 0);
}

#[test]
fn distinct_attack_set_counts() {
    let data = SquareData::new();
    // a rook on h1 sees 7 squares north and 7 west
    assert_eq!(get_rook_distinct_attack_set_count(&data, 0), 49);
    // a rook on e4 (square 27): 4 north, 3 south, 3 west, 4 east
    assert_eq!(get_rook_distinct_attack_set_count(&data, 27), 144);
    assert_eq!(get_bishop_distinct_attack_set_count(&data, 0), 7);
    assert_eq!(get_distinct_attack_set_count(&data, 1, 0), 49);
    assert_eq!(get_distinct_attack_set_count(&data, 0, 0), 7);
    assert_eq!(get_min_bits(1), 0);
    assert_eq!(get_min_bits(2), 1);
    assert_eq!(get_min_bits(49), 6);
    assert_eq!(get_min_bits(64), 6);
    assert_eq!(get_min_bits(65), 7);
    assert_eq!(get_min_lookup_square_size(&data, 1, 27), 1);
    assert_eq!(get_relevant_occupancy_cardinality(0b1011), 8);
    assert_eq!(get_slider_type(0), chess::piece::BISHOP);
    assert_eq!(get_slider_type(1), chess::piece::ROOK);
}

#[test]
fn move_offsets() {
    let offsets: Vec<isize> = (0..8).map(get_move_offset).collect();
    assert_eq!(offsets, vec![8, -8, -1, 1, 7, 9, -9, -7]);
}

#[test]
fn game_states() {
    assert_eq!(game_state(0, 5, true), GameState::InProgress);
    assert_eq!(game_state(0, 0, true), GameState::BlackWon);
    assert_eq!(game_state(1, 0, true), GameState::WhiteWon);
    assert_eq!(game_state(1, 0, false), GameState::Draw);
}

#[test]
fn magic_validation_rejects_a_bad_magic() {
    let data = SquareData::new();
    let bitboards = BitboardData::new(&data);
    // a zero magic sends every pattern to index 0
    assert!(validate_magic_number(&bitboards, 64, 0, 12).is_none());
    let magics = chess::magic::default_rook_magics();
    let shifts = chess::magic::default_rook_shifts();
    assert!(validate_magic_number(&bitboards, 64, magics[0], shifts[0]).is_some());
}

#[test]
fn tables_from_magics_refuse_inconsistent_ones() {
    let mut rook = default_rook_magics();
    rook[5] = 1;
    let result = PrecomputedData::from_magics(&default_bishop_magics(), &default_bishop_shifts(), &rook, &default_rook_shifts());
    assert!(matches!(result, Err(MagicsError::MagicsInconsistent)));
}

//! A chess move generator on bitboards: board state with make and undo,
//! magic-bitboard tables for sliding pieces, an attack calculator, a legal
//! move generator and a perft driver.

pub mod attack_calculator;
pub mod bitboards;
pub mod board;
pub mod board_representation;
pub mod castling;
pub mod game;
pub mod magic;
pub mod move_gen;
pub mod moves;

pub mod piece;
pub mod precomputed;
pub mod square_data;
pub mod stockfish_response;
pub mod perft;

use vstd::prelude::*;
use crate::piece::WHITE;

verus! {

/// Who plays: people, a person and the engine, or the engine on both sides.
#[derive(Clone, Copy, PartialEq, Eq, Structural, Debug)]
pub enum GameMode {
    PvP,
    PvB,
    BvB,
}

#[derive(Clone, Copy, PartialEq, Eq, Structural, Debug)]
pub enum GameState {
    InProgress,
    WhiteWon,
    BlackWon,
    Draw,
}

pub open spec fn game_state_spec(side_to_move: usize, move_count: int, in_check: bool) -> GameState {
    if move_count > 0 {
        GameState::InProgress
    } else if in_check {
        if side_to_move == WHITE {
            GameState::BlackWon
        } else {
            GameState::WhiteWon
        }
    } else {
        GameState::Draw
    }
}

/// The state of the game when the side to move has `move_count` legal moves:
/// without any, it is checkmated when in check and stalemated otherwise.
pub fn game_state(side_to_move: usize, move_count: usize, in_check: bool) -> (r: GameState)
    ensures
        r == game_state_spec(side_to_move, move_count as int, in_check),
{
    if move_count > 0 {
        GameState::InProgress
    } else if in_check {
        if side_to_move == WHITE {
            GameState::BlackWon
        } else {
            GameState::WhiteWon
        }
    } else {
        GameState::Draw
    }
}

} // verus!

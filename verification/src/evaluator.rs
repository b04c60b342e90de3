//! Static scoring of a position by material.
use vstd::prelude::*;
use crate::bboard::{bit_count, pop_count};
use crate::state::{GameState, Piece, SideState};

verus! {

/// The material of one side: the value of each piece, once for every
/// square it stands on.
pub open spec fn material(side: SideState) -> int {
    Piece::Pawn.spec_value() * bit_count(side.board(Piece::Pawn)) + Piece::Rook.spec_value()
        * bit_count(side.board(Piece::Rook)) + Piece::Knight.spec_value() * bit_count(
        side.board(Piece::Knight),
    ) + Piece::Bishop.spec_value() * bit_count(side.board(Piece::Bishop))
        + Piece::Queen.spec_value() * bit_count(side.board(Piece::Queen))
        + Piece::King.spec_value() * bit_count(side.board(Piece::King))
}

/// The score of a position: White's material less Black's, whoever is to
/// move.
pub open spec fn evaluate(p: GameState) -> int {
    material(p.white_state) - material(p.black_state)
}

/// The material of one side.
pub fn side_material(side: &SideState) -> (r: i32)
    ensures
        r == material(*side),
        0 <= r <= 2697600,
{
    let pawns = pop_count(side.get_board(Piece::Pawn)) as i32;
    let rooks = pop_count(side.get_board(Piece::Rook)) as i32;
    let knights = pop_count(side.get_board(Piece::Knight)) as i32;
    let bishops = pop_count(side.get_board(Piece::Bishop)) as i32;
    let queens = pop_count(side.get_board(Piece::Queen)) as i32;
    let kings = pop_count(side.get_board(Piece::King)) as i32;
    Piece::Pawn.value() * pawns + Piece::Rook.value() * rooks + Piece::Knight.value() * knights
        + Piece::Bishop.value() * bishops + Piece::Queen.value() * queens + Piece::King.value()
        * kings
}

/// Scores a position by material: positive when White has more, negative
/// when Black has more.
pub fn evaluate_position(state: &GameState) -> (r: i32)
    ensures
        r == evaluate(*state),
{
    side_material(&state.white_state) - side_material(&state.black_state)
}

} // verus!

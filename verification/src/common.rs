//! Coordinate-based access to single squares of a square set.
use vstd::prelude::*;
use crate::bboard::{coord_bit, on_board, BBoard};
use crate::bits::{lemma_or_and_basics, lemma_set_clear_membership};

verus! {

/// Adds the square at file `x`, rank `y` to the set. Coordinates off the
/// board leave the set as it was.
pub fn add_bit(board: &mut BBoard, x: u32, y: u32)
    ensures
        *final(board) == *old(board) | coord_bit(x as int, y as int),
        !on_board(x as int, y as int) ==> *final(board) == *old(board),
{
    proof {
        lemma_or_and_basics(*board, 0, 0);
    }
    if x > 7 {
        return ;
    }
    if y > 7 {
        return ;
    }
    *board |= 1u64 << (x + y * 8);
}

/// Whether the square at file `x`, rank `y` is in the set. Coordinates off
/// the board are in no set.
pub fn has_bit(board: &BBoard, x: u32, y: u32) -> (r: bool)
    ensures
        r == (*board & coord_bit(x as int, y as int) != 0),
        !on_board(x as int, y as int) ==> !r,
{
    proof {
        lemma_or_and_basics(*board, 0, 0);
    }
    if x > 7 {
        return false;
    }
    if y > 7 {
        return false;
    }
    return (*board & (1u64 << (x + y * 8))) > 0;
}

/// A square that was added is found again, whatever the set held before;
/// coordinates off the board add nothing and are never found.
pub proof fn lemma_add_then_has(board: u64, x: u32, y: u32)
    ensures
        on_board(x as int, y as int) ==> (board | coord_bit(x as int, y as int)) & coord_bit(
            x as int,
            y as int,
        ) != 0,
        !on_board(x as int, y as int) ==> (board | coord_bit(x as int, y as int)) == board && board
            & coord_bit(x as int, y as int) == 0,
{
    if on_board(x as int, y as int) {
        let sq = (x + 8 * y) as u32;
        lemma_set_clear_membership(board, sq, sq);
    } else {
        lemma_or_and_basics(board, 0, 0);
    }
}

} // verus!

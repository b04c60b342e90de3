//! A move, told by its two squares, and its recovery from the positions
//! before and after it.
use vstd::prelude::*;
use vstd::std_specs::bits::u64_trailing_zeros;
use crate::bboard::{bit_set, square_bit};
use crate::bits::{
    lemma_add_union, lemma_clear_absent, lemma_membership, lemma_move_difference,
    lemma_or_and_basics, lemma_square_bits, lemma_trailing_zeros_of_square, lemma_union_of_six,
};
use crate::rules::{
    castle_rook_from, is_castle, is_promotion, legal_successors, lemma_target_not_own,
    moved_piece, mover_after, successor, successors_below, successors_from, successors_from_to,
    targets,
};
use crate::state::{GameState, Piece, SideState};

verus! {

/// A move: the square a piece leaves, the square it goes to, and the
/// piece a pawn is promoted to, if it is.
#[derive(Copy, Clone, PartialEq, Eq, Debug)]
pub struct ChessMove {
    pub from: u32,
    pub to: u32,
    pub promotion: Option<Piece>,
}

/// The move that leads from `p` to `next`, read off the sets of the side
/// that moved. If its king changed place, the move is the king's (so a
/// castling move is told by the king's squares); otherwise it goes from
/// the square the side left to the square it newly holds. It is a
/// promotion when a pawn left and another piece arrived.
pub open spec fn move_between(p: GameState, next: GameState) -> ChessMove {
    let own = p.side(p.next_to_move);
    let after = next.side(p.next_to_move);
    let king_moved = own.board(Piece::King) != after.board(Piece::King);
    let left = if king_moved {
        own.board(Piece::King) & !after.board(Piece::King)
    } else {
        own.all & !after.all
    };
    let arrived = if king_moved {
        after.board(Piece::King) & !own.board(Piece::King)
    } else {
        after.all & !own.all
    };
    ChessMove {
        from: u64_trailing_zeros(left),
        to: u64_trailing_zeros(arrived),
        promotion: if own.board(Piece::Pawn) & left != 0 && after.board(Piece::Pawn) & arrived
            == 0 {
            after.first_piece_on(arrived)
        } else {
            None
        },
    }
}

impl GameState {
    /// Recovers the move that leads from this position to `next`.
    pub fn get_move(&self, next: &GameState) -> (m: ChessMove)
        ensures
            m == move_between(*self, *next),
    {
        let own = self.get_side_state(self.next_to_move);
        let after = next.get_side_state(self.next_to_move);
        let king_moved = own.boards[5] != after.boards[5];
        let left = if king_moved {
            own.boards[5] & !after.boards[5]
        } else {
            own.all & !after.all
        };
        let arrived = if king_moved {
            after.boards[5] & !own.boards[5]
        } else {
            after.all & !own.all
        };
        let promotion = if own.boards[0] & left != 0 && after.boards[0] & arrived == 0 {
            after.first_piece(arrived)
        } else {
            None
        };
        ChessMove { from: left.trailing_zeros(), to: arrived.trailing_zeros(), promotion }
    }
}

/// Whether `promotion` goes with the move: one of queen, rook, bishop
/// and knight when a pawn reaches its last rank, nothing otherwise.
pub open spec fn promotion_fits(p: GameState, from: u32, to: u32, promotion: Option<Piece>)
    -> bool {
    if is_promotion(p, from, to) {
        promotion == Some(Piece::Queen) || promotion == Some(Piece::Rook) || promotion == Some(
            Piece::Bishop,
        ) || promotion == Some(Piece::Knight)
    } else {
        promotion is None
    }
}

/// Whether `next` is reached from `p` by the move that is read off the
/// two positions, and that move is one the rules allow.
pub open spec fn recovers(p: GameState, next: GameState) -> bool {
    let m = move_between(p, next);
    &&& m.from < 64
    &&& m.to < 64
    &&& bit_set(targets(p, m.from), m.to)
    &&& promotion_fits(p, m.from, m.to, m.promotion)
    &&& successor(p, m.from, m.to, m.promotion) == next
}

/// Every position of the sequence gives its move back.
pub open spec fn all_recover(p: GameState, s: Seq<GameState>) -> bool {
    forall|i: int| 0 <= i < s.len() ==> recovers(p, #[trigger] s[i])
}

/// After a piece has left `from` and `placed` stands on `to`, which the
/// side did not hold, the set of `placed` alone holds `to`, and no set
/// holds `from`.
proof fn lemma_moved_sets(own: SideState, from: u32, to: u32, placed: Piece)
    requires
        own.wf(),
        from < 64,
        to < 64,
        bit_set(own.all, from),
        !bit_set(own.all, to),
    ensures
        forall|i: int|
            0 <= i < 6 ==> (bit_set(
                #[trigger] own.spec_without(square_bit(from)).spec_with(
                    placed,
                    square_bit(to),
                ).boards[i],
                to,
            ) <==> i == placed.spec_idx()),
        own.spec_without(square_bit(from)).spec_with(placed, square_bit(to)).all == (own.all
            & !square_bit(from)) | square_bit(to),
{
    let fb = square_bit(from);
    let tb = square_bit(to);
    let b = own.boards;
    let moved = own.spec_without(fb).spec_with(placed, tb);
    lemma_add_union(b[0], b[1], b[2], b[3], b[4], b[5], tb);
    lemma_square_bits(to, to);
    assert forall|i: int| 0 <= i < 6 implies (bit_set(#[trigger] moved.boards[i], to) <==> i
        == placed.spec_idx()) by {
        lemma_membership(b[i], !fb, to);
        lemma_membership(b[i] & !fb, tb, to);
    }
}

/// The move read off a position and its successor is the move that was
/// made.
pub proof fn lemma_move_recovered(p: GameState, from: u32, to: u32, promotion: Option<Piece>)
    requires
        p.wf(),
        from < 64,
        to < 64,
        bit_set(targets(p, from), to),
        promotion_fits(p, from, to, promotion),
    ensures
        move_between(p, successor(p, from, to, promotion)) == (ChessMove { from, to, promotion }),
{
    let s = p.next_to_move;
    let own = p.side(s);
    let a = own.all;
    let b = own.boards;
    let fb = square_bit(from);
    let tb = square_bit(to);
    let piece = moved_piece(p, from);
    let placed = match promotion {
        Some(chosen) => chosen,
        None => piece,
    };
    let next = successor(p, from, to, promotion);
    let after = next.side(s);
    assert(after == mover_after(p, from, to, promotion));
    let moved = own.spec_without(fb).spec_with(placed, tb);
    let k = own.board(Piece::King);
    lemma_target_not_own(p, from, to);
    lemma_trailing_zeros_of_square(from);
    lemma_trailing_zeros_of_square(to);
    lemma_square_bits(from, to);
    lemma_square_bits(to, to);
    // the origin is one of the mover's squares, the destination is not
    let pb = own.board(piece);
    assert(pb & fb != 0);
    lemma_membership(pb, pb, from);
    lemma_union_of_six(b[0], b[1], b[2], b[3], b[4], b[5], fb);
    assert(a & fb == fb);
    lemma_membership(a, a, from);
    lemma_membership(a, a, to);
    assert(a & tb == 0);
    lemma_moved_sets(own, from, to, placed);
    lemma_add_union(b[0], b[1], b[2], b[3], b[4], b[5], tb);
    // every set but the piece's own lacks the origin
    assert forall|i: int| 0 <= i < 6 && i != piece.spec_idx() implies b[i] & fb == 0 by {
        lemma_membership(b[i], pb, from);
        lemma_membership(pb, b[i], from);
        lemma_or_and_basics(b[i], pb, 0);
        lemma_square_bits(from, from);
        if i < piece.spec_idx() {
            assert(b[i] & pb == 0);
        } else {
            assert(pb & b[i] == 0);
        }
        lemma_set_clear_zero(from);
    }
    if piece == Piece::King {
        assert(promotion is None);
        lemma_membership(k, k, from);
        assert(k & fb == fb);
        assert(k & tb == 0);
        lemma_move_difference(k, fb, tb);
        let k1 = (k & !fb) | tb;
        assert(moved.boards[5] == k1);
        if is_castle(p, from, to) {
            let rfrom = castle_rook_from(to);
            let rfb = square_bit(rfrom);
            let r = own.board(Piece::Rook);
            lemma_square_bits(to, rfrom);
            lemma_membership(k & !fb, tb, rfrom);
            lemma_membership(k, !fb, rfrom);
            lemma_membership(r, k, rfrom);
            lemma_set_clear_zero(rfrom);
            assert(r & k == 0);
            assert(!bit_set(k1, rfrom));
            lemma_clear_absent(k1, rfb, 0);
            assert(after.boards[5] == k1);
        } else {
            assert(after.boards[5] == k1);
        }
        assert(b[0] & fb == 0);
    } else {
        assert(!is_castle(p, from, to));
        assert(placed != Piece::King);
        assert(k & fb == 0);
        lemma_clear_absent(k, fb, 0);
        assert(after.boards[5] == k);
        lemma_move_difference(a, fb, tb);
        assert(after.all == (a & !fb) | tb);
        if piece == Piece::Pawn {
            assert(b[0] & fb != 0);
            if placed != Piece::Pawn {
                assert(after.first_piece_on(tb) == Some(placed));
            }
        } else {
            assert(b[0] & fb == 0);
        }
    }
}

/// Nothing is a member of the empty set.
proof fn lemma_set_clear_zero(sq: u32)
    requires
        sq < 64,
    ensures
        !bit_set(0, sq),
{
    crate::bits::lemma_set_clear_membership(0, sq, sq);
}

/// The successors by one origin and destination give their moves back.
pub proof fn lemma_successors_from_to_recover(p: GameState, from: u32, to: u32)
    requires
        p.wf(),
        from < 64,
        to < 64,
    ensures
        all_recover(p, successors_from_to(p, from, to)),
{
    if bit_set(targets(p, from), to) {
        if is_promotion(p, from, to) {
            lemma_move_recovered(p, from, to, Some(Piece::Queen));
            lemma_move_recovered(p, from, to, Some(Piece::Rook));
            lemma_move_recovered(p, from, to, Some(Piece::Bishop));
            lemma_move_recovered(p, from, to, Some(Piece::Knight));
        } else {
            lemma_move_recovered(p, from, to, None);
        }
    }
}

/// The successors by one origin give their moves back.
pub proof fn lemma_successors_from_recover(p: GameState, from: u32, limit: nat)
    requires
        p.wf(),
        from < 64,
        limit <= 64,
    ensures
        all_recover(p, successors_from(p, from, limit)),
    decreases limit,
{
    if limit > 0 {
        lemma_successors_from_recover(p, from, (limit - 1) as nat);
        lemma_successors_from_to_recover(p, from, (limit - 1) as u32);
    }
}

/// The successors by the origins below a limit give their moves back.
pub proof fn lemma_successors_below_recover(p: GameState, limit: nat)
    requires
        p.wf(),
        limit <= 64,
    ensures
        all_recover(p, successors_below(p, limit)),
    decreases limit,
{
    if limit > 0 {
        lemma_successors_below_recover(p, (limit - 1) as nat);
        lemma_successors_from_recover(p, (limit - 1) as u32, 64);
    }
}

/// The move read off a well-formed position and any of its legal
/// successors is a move the rules allow, and making it leads to that
/// successor.
pub proof fn lemma_legal_successors_recover(p: GameState)
    requires
        p.wf(),
    ensures
        all_recover(p, legal_successors(p)),
{
    lemma_successors_below_recover(p, 64);
}

} // verus!

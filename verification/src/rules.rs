//! The rules of movement, as mathematics: which squares a piece may go
//! to, what the position looks like afterwards, and which of the resulting
//! positions are legal.
use vstd::prelude::*;
use crate::bboard::{bit_set, square_bit};
use crate::bits::{
    lemma_membership, lemma_or_and_basics, lemma_set_clear_membership, lemma_sides_stay_apart,
    lemma_square_bits,
};
use crate::piece_moves::{
    bishop_attacks, king_attacks, knight_attacks, offset_bit, pawn_attacks, pawn_direction,
    queen_attacks, rank_of, rook_attacks,
};
use crate::state::{GameState, Piece, Side, SideState};

verus! {

/// The squares of the third rank.
pub const RANK_3: u64 = 0x0000_0000_00ff_0000u64;

/// The squares of the sixth rank.
pub const RANK_6: u64 = 0x0000_ff00_0000_0000u64;

/// The square on which a side's king starts: e1 or e8.
pub open spec fn king_home(side: Side) -> u32 {
    match side {
        Side::White => 4,
        Side::Black => 60,
    }
}

/// The rank on which a side's pawns start.
pub open spec fn pawn_start_rank(side: Side) -> int {
    match side {
        Side::White => 1,
        Side::Black => 6,
    }
}

/// The rank on which a side's pawns are promoted.
pub open spec fn promotion_rank(side: Side) -> int {
    match side {
        Side::White => 7,
        Side::Black => 0,
    }
}

/// The squares that a piece of the given kind and side attacks from `sq`
/// when `occ` is occupied.
pub open spec fn piece_attacks(piece: Piece, side: Side, sq: u32, occ: u64) -> u64 {
    match piece {
        Piece::Pawn => pawn_attacks(side, sq),
        Piece::Rook => rook_attacks(sq, occ),
        Piece::Knight => knight_attacks(sq),
        Piece::Bishop => bishop_attacks(sq, occ),
        Piece::Queen => queen_attacks(sq, occ),
        Piece::King => king_attacks(sq),
    }
}

/// Whether a piece of side `by` attacks square `sq`. The test looks from
/// `sq` outwards: a knight of `by` stands a knight's move away, a king
/// next to it, a pawn on one of the two squares from which it attacks
/// `sq`, a rook or queen at the end of a rook's ray, a bishop or queen at
/// the end of a bishop's ray.
pub open spec fn is_attacked(p: GameState, sq: u32, by: Side) -> bool {
    let a = p.side(by);
    let occ = p.occupancy();
    ||| pawn_attacks(by.spec_opposite(), sq) & a.board(Piece::Pawn) != 0
    ||| knight_attacks(sq) & a.board(Piece::Knight) != 0
    ||| king_attacks(sq) & a.board(Piece::King) != 0
    ||| rook_attacks(sq, occ) & (a.board(Piece::Rook) | a.board(Piece::Queen)) != 0
    ||| bishop_attacks(sq, occ) & (a.board(Piece::Bishop) | a.board(Piece::Queen)) != 0
}

/// Whether a king of `side` stands on a square that the other side
/// attacks.
pub open spec fn king_hit(p: GameState, side: Side) -> bool {
    exists|sq: u32|
        sq < 64 && #[trigger] bit_set(p.side(side).board(Piece::King), sq) && is_attacked(
            p,
            sq,
            side.spec_opposite(),
        )
}

/// Where a pawn may advance to: one square if it is empty, two from the
/// starting rank if both are.
pub open spec fn pawn_pushes(side: Side, sq: u32, occ: u64) -> u64 {
    let one = offset_bit(sq, 0, pawn_direction(side));
    let two = offset_bit(sq, 0, 2 * pawn_direction(side));
    if one & occ != 0 {
        0
    } else if rank_of(sq) == pawn_start_rank(side) && two & occ == 0 {
        one | two
    } else {
        one
    }
}

/// The square on which the side to move may take a pawn in passing: the
/// marked square, if it lies on the sixth rank as seen by the mover, is
/// empty, and has an enemy pawn right behind it. Empty otherwise.
pub open spec fn en_passant_set(p: GameState) -> u64 {
    let pawns = p.side(p.next_to_move.spec_opposite()).board(Piece::Pawn);
    match p.next_to_move {
        Side::White => p.en_passant & RANK_6 & (pawns << 8u32) & !p.occupancy(),
        Side::Black => p.en_passant & RANK_3 & (pawns >> 8u32) & !p.occupancy(),
    }
}

/// Where the pawn on `from` may go: its advances, and the squares it
/// attacks that hold an enemy piece or allow taking in passing.
pub open spec fn pawn_targets(p: GameState, from: u32) -> u64 {
    let s = p.next_to_move;
    pawn_pushes(s, from, p.occupancy()) | (pawn_attacks(s, from) & (p.side(
        s.spec_opposite(),
    ).all | en_passant_set(p)))
}

/// The king's destination when castling on the king's side, if that is
/// allowed now: the right is held, king and rook stand on their home
/// squares, the squares between them are empty, and the king neither
/// stands on nor passes over an attacked square.
pub open spec fn king_side_castle_target(p: GameState) -> u64 {
    let s = p.next_to_move;
    let them = s.spec_opposite();
    let own = p.side(s);
    let home = king_home(s);
    if own.king_side_castle && bit_set(own.board(Piece::King), home) && bit_set(
        own.board(Piece::Rook),
        (home + 3) as u32,
    ) && p.occupancy() & (square_bit((home + 1) as u32) | square_bit((home + 2) as u32)) == 0
        && !is_attacked(p, home, them) && !is_attacked(p, (home + 1) as u32, them) {
        square_bit((home + 2) as u32)
    } else {
        0
    }
}

/// The king's destination when castling on the queen's side, if that is
/// allowed now.
pub open spec fn queen_side_castle_target(p: GameState) -> u64 {
    let s = p.next_to_move;
    let them = s.spec_opposite();
    let own = p.side(s);
    let home = king_home(s);
    if own.queen_side_castle && bit_set(own.board(Piece::King), home) && bit_set(
        own.board(Piece::Rook),
        (home - 4) as u32,
    ) && p.occupancy() & (square_bit((home - 1) as u32) | square_bit((home - 2) as u32)
        | square_bit((home - 3) as u32)) == 0 && !is_attacked(p, home, them) && !is_attacked(
        p,
        (home - 1) as u32,
        them,
    ) {
        square_bit((home - 2) as u32)
    } else {
        0
    }
}

/// The squares the king may castle to.
pub open spec fn castle_targets(p: GameState) -> u64 {
    king_side_castle_target(p) | queen_side_castle_target(p)
}

/// The piece of the side to move that stands on `from`; a pawn where
/// there is none.
pub open spec fn moved_piece(p: GameState, from: u32) -> Piece {
    match p.side(p.next_to_move).first_piece_on(square_bit(from)) {
        Some(piece) => piece,
        None => Piece::Pawn,
    }
}

/// Every square that the piece on `from` may move to, before asking
/// whether the move leaves the mover's king attacked. Empty when no piece
/// of the side to move stands on `from`.
pub open spec fn targets(p: GameState, from: u32) -> u64 {
    let s = p.next_to_move;
    let own = p.side(s);
    match own.first_piece_on(square_bit(from)) {
        None => 0,
        Some(Piece::Pawn) => pawn_targets(p, from),
        Some(Piece::King) => (king_attacks(from) & !own.all) | (if from == king_home(s) {
            castle_targets(p)
        } else {
            0
        }),
        Some(piece) => piece_attacks(piece, s, from, p.occupancy()) & !own.all,
    }
}

/// Whether the move from `from` to `to` is the king castling.
pub open spec fn is_castle(p: GameState, from: u32, to: u32) -> bool {
    let s = p.next_to_move;
    &&& p.side(s).first_piece_on(square_bit(from)) == Some(Piece::King)
    &&& from == king_home(s)
    &&& bit_set(castle_targets(p), to)
}

/// Whether the move from `from` to `to` is a pawn taking in passing.
pub open spec fn is_en_passant(p: GameState, from: u32, to: u32) -> bool {
    let s = p.next_to_move;
    &&& p.side(s).first_piece_on(square_bit(from)) == Some(Piece::Pawn)
    &&& square_bit(to) == en_passant_set(p)
    &&& bit_set(pawn_attacks(s, from), to)
}

/// Whether the move from `from` to `to` brings a pawn to its last rank.
pub open spec fn is_promotion(p: GameState, from: u32, to: u32) -> bool {
    let s = p.next_to_move;
    &&& p.side(s).first_piece_on(square_bit(from)) == Some(Piece::Pawn)
    &&& rank_of(to) == promotion_rank(s)
}

/// The square that the move empties of enemy pieces: the destination, or
/// the square behind it when a pawn is taken in passing.
pub open spec fn captured_square(p: GameState, from: u32, to: u32) -> u64 {
    if is_en_passant(p, from, to) {
        match p.next_to_move {
            Side::White => square_bit(to) >> 8u32,
            Side::Black => square_bit(to) << 8u32,
        }
    } else {
        square_bit(to)
    }
}

/// The square the rook leaves when the king castles to `to`.
pub open spec fn castle_rook_from(to: u32) -> u32 {
    if to % 8 == 6 {
        (to + 1) as u32
    } else {
        (to - to % 8) as u32
    }
}

/// The square the rook lands on when the king castles to `to`.
pub open spec fn castle_rook_to(to: u32) -> u32 {
    if to % 8 == 6 {
        (to - 1) as u32
    } else {
        (to - to % 8 + 3) as u32
    }
}

/// The mover's side after the move: the piece leaves `from` and it, or
/// the piece it is promoted to, stands on `to`; a castling king brings its
/// rook along; a king's move gives up both castling rights, a rook's move
/// from its corner gives up that corner's right.
pub open spec fn mover_after(p: GameState, from: u32, to: u32, promotion: Option<Piece>)
    -> SideState {
    let s = p.next_to_move;
    let own = p.side(s);
    let piece = moved_piece(p, from);
    let placed = match promotion {
        Some(chosen) => chosen,
        None => piece,
    };
    let moved = own.spec_without(square_bit(from)).spec_with(placed, square_bit(to));
    let settled = if is_castle(p, from, to) {
        moved.spec_without(square_bit(castle_rook_from(to))).spec_with(
            Piece::Rook,
            square_bit(castle_rook_to(to)),
        )
    } else {
        moved
    };
    SideState {
        king_side_castle: own.king_side_castle && piece != Piece::King && !(piece == Piece::Rook
            && from == king_home(s) + 3),
        queen_side_castle: own.queen_side_castle && piece != Piece::King && !(piece
            == Piece::Rook && from == king_home(s) - 4),
        ..settled
    }
}

/// The other side after the move: whatever stood on the captured square
/// is gone, and a rook taken on its corner takes that corner's castling
/// right with it.
pub open spec fn other_after(p: GameState, from: u32, to: u32) -> SideState {
    let them = p.next_to_move.spec_opposite();
    let opp = p.side(them);
    let cleared = opp.spec_without(captured_square(p, from, to));
    let rook_taken = bit_set(opp.board(Piece::Rook), to);
    SideState {
        king_side_castle: opp.king_side_castle && !(rook_taken && to == king_home(them) + 3),
        queen_side_castle: opp.queen_side_castle && !(rook_taken && to == king_home(them) - 4),
        ..cleared
    }
}

/// The square marked for taking in passing after the move: the square a
/// pawn skipped in a double step, otherwise none.
pub open spec fn en_passant_after(p: GameState, from: u32, to: u32) -> u64 {
    if moved_piece(p, from) == Piece::Pawn && to == from + 16 {
        square_bit((from + 8) as u32)
    } else if moved_piece(p, from) == Piece::Pawn && from == to + 16 {
        square_bit((to + 8) as u32)
    } else {
        0
    }
}

/// The position after the side to move has moved its piece from `from`
/// to `to`, promoting to `promotion` if that is given.
pub open spec fn successor(p: GameState, from: u32, to: u32, promotion: Option<Piece>)
    -> GameState {
    match p.next_to_move {
        Side::White => GameState {
            next_to_move: Side::Black,
            en_passant: en_passant_after(p, from, to),
            white_state: mover_after(p, from, to, promotion),
            black_state: other_after(p, from, to),
        },
        Side::Black => GameState {
            next_to_move: Side::White,
            en_passant: en_passant_after(p, from, to),
            white_state: other_after(p, from, to),
            black_state: mover_after(p, from, to, promotion),
        },
    }
}

/// The candidate `next`, unless it leaves the king of the side that
/// moved attacked.
pub open spec fn keep_legal(p: GameState, next: GameState) -> Seq<GameState> {
    if king_hit(next, p.next_to_move) {
        Seq::empty()
    } else {
        seq![next]
    }
}

/// The legal positions reached by moving from `from` to `to`: none when
/// the piece cannot go there, one for an ordinary move, up to four for a
/// promotion (queen, rook, bishop, knight, in this order).
pub open spec fn successors_from_to(p: GameState, from: u32, to: u32) -> Seq<GameState> {
    if !bit_set(targets(p, from), to) {
        Seq::empty()
    } else if is_promotion(p, from, to) {
        keep_legal(p, successor(p, from, to, Some(Piece::Queen))) + keep_legal(
            p,
            successor(p, from, to, Some(Piece::Rook)),
        ) + keep_legal(p, successor(p, from, to, Some(Piece::Bishop))) + keep_legal(
            p,
            successor(p, from, to, Some(Piece::Knight)),
        )
    } else {
        keep_legal(p, successor(p, from, to, None))
    }
}

/// The legal positions reached from `from` with a destination below
/// `limit`, by rising destination.
pub open spec fn successors_from(p: GameState, from: u32, limit: nat) -> Seq<GameState>
    decreases limit,
{
    if limit == 0 {
        Seq::empty()
    } else {
        successors_from(p, from, (limit - 1) as nat) + successors_from_to(
            p,
            from,
            (limit - 1) as u32,
        )
    }
}

/// The legal positions reached from an origin below `limit`, by rising
/// origin, then rising destination.
pub open spec fn successors_below(p: GameState, limit: nat) -> Seq<GameState>
    decreases limit,
{
    if limit == 0 {
        Seq::empty()
    } else {
        successors_below(p, (limit - 1) as nat) + successors_from(p, (limit - 1) as u32, 64)
    }
}

/// Every legal successor of a position, in a fixed order: by origin
/// square, then destination square, then promotion piece.
pub open spec fn legal_successors(p: GameState) -> Seq<GameState> {
    successors_below(p, 64)
}

/// A destination of a move is never a square of the mover's own side.
pub proof fn lemma_target_not_own(p: GameState, from: u32, to: u32)
    requires
        p.wf(),
        from < 64,
        to < 64,
        bit_set(targets(p, from), to),
    ensures
        p.side(p.next_to_move).first_piece_on(square_bit(from)) is Some,
        !bit_set(p.side(p.next_to_move).all, to),
        is_castle(p, from, to) ==> !bit_set(p.occupancy(), to) && !bit_set(
            p.occupancy(),
            castle_rook_to(to),
        ) && castle_rook_to(to) < 64 && castle_rook_from(to) < 64 && castle_rook_to(to) != to
            && castle_rook_from(to) != to && bit_set(
            p.side(p.next_to_move).board(Piece::Rook),
            castle_rook_from(to),
        ),
        is_en_passant(p, from, to) ==> !bit_set(p.occupancy(), to),
{
    let s = p.next_to_move;
    let own = p.side(s);
    let opp = p.side(s.spec_opposite());
    let occ = p.occupancy();
    let a = own.all;
    let b = opp.all;
    let found = own.first_piece_on(square_bit(from));
    lemma_set_clear_membership(0, to, to);
    lemma_membership(a, b, to);
    lemma_or_and_basics(a, b, 0);
    assert(a & b == 0);
    assert(!(bit_set(a, to) && bit_set(b, to)));
    match found {
        None => {},
        Some(Piece::Pawn) => {
            let pushes = pawn_pushes(s, from, occ);
            let ep = en_passant_set(p);
            let hits = pawn_attacks(s, from) & (b | ep);
            lemma_membership(pushes, hits, to);
            lemma_membership(pawn_attacks(s, from), b | ep, to);
            lemma_membership(b, ep, to);
            lemma_membership(pushes, occ, to);
            lemma_or_and_basics(pushes, occ, 0);
            let one = offset_bit(from, 0, pawn_direction(s));
            let two = offset_bit(from, 0, 2 * pawn_direction(s));
            lemma_or_and_basics(one, two, occ);
            lemma_or_and_basics(one & occ, two & occ, 0);
            lemma_or_and_basics(occ, 0, 0);
            assert(pushes & occ == 0);
            let pawns = opp.board(Piece::Pawn);
            match s {
                Side::White => {
                    lemma_membership(p.en_passant & RANK_6 & (pawns << 8u32), !occ, to);
                },
                Side::Black => {
                    lemma_membership(p.en_passant & RANK_3 & (pawns >> 8u32), !occ, to);
                },
            }
            lemma_membership(occ, occ, to);
            assert(bit_set(ep, to) ==> !bit_set(occ, to));
            if is_en_passant(p, from, to) {
                lemma_square_bits(to, to);
                assert(bit_set(ep, to));
            }
        },
        Some(Piece::King) => {
            let near = king_attacks(from) & !a;
            let far = if from == king_home(s) {
                castle_targets(p)
            } else {
                0
            };
            lemma_membership(near, far, to);
            lemma_membership(king_attacks(from), !a, to);
            lemma_membership(a, a, to);
            if from == king_home(s) && bit_set(castle_targets(p), to) {
                let ks = king_side_castle_target(p);
                let qs = queen_side_castle_target(p);
                let home = king_home(s);
                lemma_membership(ks, qs, to);
                if bit_set(ks, to) {
                    let g = (home + 2) as u32;
                    let f = (home + 1) as u32;
                    lemma_square_bits(g, to);
                    assert(to == g);
                    lemma_membership(square_bit(f), square_bit(g), f);
                    lemma_membership(square_bit(f), square_bit(g), g);
                    lemma_set_clear_membership(0, f, f);
                    lemma_set_clear_membership(0, g, g);
                    lemma_square_bits(f, f);
                    lemma_square_bits(g, g);
                    lemma_membership(occ, square_bit(f) | square_bit(g), f);
                    lemma_membership(occ, square_bit(f) | square_bit(g), g);
                } else {
                    let c = (home - 2) as u32;
                    let d = (home - 1) as u32;
                    let bsq = (home - 3) as u32;
                    lemma_square_bits(c, to);
                    assert(to == c);
                    let between = square_bit(d) | square_bit(c) | square_bit(bsq);
                    lemma_membership(square_bit(d) | square_bit(c), square_bit(bsq), c);
                    lemma_membership(square_bit(d) | square_bit(c), square_bit(bsq), d);
                    lemma_membership(square_bit(d), square_bit(c), c);
                    lemma_membership(square_bit(d), square_bit(c), d);
                    lemma_set_clear_membership(0, c, c);
                    lemma_set_clear_membership(0, d, d);
                    lemma_square_bits(c, c);
                    lemma_square_bits(d, d);
                    lemma_membership(occ, between, c);
                    lemma_membership(occ, between, d);
                }
            }
        },
        Some(piece) => {
            lemma_membership(piece_attacks(piece, s, from, occ), !a, to);
            lemma_membership(a, a, to);
        },
    }
}

/// A move to one of the piece's destinations leaves the position well
/// formed.
pub proof fn lemma_successor_wf(p: GameState, from: u32, to: u32, promotion: Option<Piece>)
    requires
        p.wf(),
        from < 64,
        to < 64,
        bit_set(targets(p, from), to),
    ensures
        successor(p, from, to, promotion).wf(),
{
    let s = p.next_to_move;
    let own = p.side(s);
    let opp = p.side(s.spec_opposite());
    let a = own.all;
    let b = opp.all;
    let fb = square_bit(from);
    let tb = square_bit(to);
    let piece = moved_piece(p, from);
    let placed = match promotion {
        Some(chosen) => chosen,
        None => piece,
    };
    lemma_target_not_own(p, from, to);
    lemma_or_and_basics(a, b, 0);
    assert(a & b == 0);
    // the mover
    let lifted = own.spec_without(fb);
    own.lemma_without_wf(fb);
    lemma_membership(a, !fb, to);
    lemma_membership(a, b, to);
    assert(lifted.all & tb == 0);
    let moved = lifted.spec_with(placed, tb);
    lifted.lemma_with_wf(placed, tb);
    let rf = square_bit(castle_rook_from(to));
    let rt = square_bit(castle_rook_to(to));
    let v = captured_square(p, from, to);
    if is_castle(p, from, to) {
        let rto = castle_rook_to(to);
        let unrooked = moved.spec_without(rf);
        moved.lemma_without_wf(rf);
        lemma_membership(moved.all, !rf, rto);
        lemma_membership(a & !fb, tb, rto);
        lemma_membership(a, !fb, rto);
        lemma_membership(a, b, rto);
        lemma_square_bits(to, rto);
        assert(unrooked.all & rt == 0);
        unrooked.lemma_with_wf(Piece::Rook, rt);
        assert(rt & b == 0) by {
            lemma_membership(rt, b, rto);
            lemma_membership(b, rt, rto);
        }
        assert(tb & b == 0) by {
            lemma_membership(tb, b, to);
            lemma_membership(b, tb, to);
        }
        lemma_sides_stay_apart(a, b, fb, tb, rf, rt, v);
    } else {
        if is_en_passant(p, from, to) {
            assert(tb & b == 0) by {
                lemma_membership(tb, b, to);
                lemma_membership(b, tb, to);
            }
        }
        lemma_or_and_basics(b, 0, 0);
        lemma_sides_stay_apart(a, b, fb, tb, 0, 0, v);
    }
    // the other side
    opp.lemma_without_wf(v);
    let next = successor(p, from, to, promotion);
    assert(mover_after(p, from, to, promotion).wf());
    assert(other_after(p, from, to).wf());
    assert(next.white_state.all & next.black_state.all == 0) by {
        lemma_or_and_basics(next.white_state.all, next.black_state.all, 0);
    }
    if next.en_passant != 0 {
        if to == from + 16 {
            assert(next.en_passant == square_bit((from + 8) as u32));
        } else {
            assert(next.en_passant == square_bit((to + 8) as u32));
        }
    }
}

/// Every position of the sequence is well formed.
pub open spec fn all_wf(s: Seq<GameState>) -> bool {
    forall|i: int| 0 <= i < s.len() ==> (#[trigger] s[i]).wf()
}

/// A square without targets yields no successors.
pub proof fn lemma_no_targets(p: GameState, from: u32, limit: nat)
    requires
        targets(p, from) == 0,
        limit <= 64,
    ensures
        successors_from(p, from, limit) == Seq::<GameState>::empty(),
    decreases limit,
{
    if limit > 0 {
        lemma_no_targets(p, from, (limit - 1) as nat);
        lemma_set_clear_membership(0, (limit - 1) as u32, (limit - 1) as u32);
        assert(successors_from(p, from, limit) =~= Seq::<GameState>::empty());
    }
}

/// The successors by one origin and destination are well formed.
pub proof fn lemma_successors_from_to_wf(p: GameState, from: u32, to: u32)
    requires
        p.wf(),
        from < 64,
        to < 64,
    ensures
        all_wf(successors_from_to(p, from, to)),
{
    if bit_set(targets(p, from), to) {
        lemma_successor_wf(p, from, to, None);
        lemma_successor_wf(p, from, to, Some(Piece::Queen));
        lemma_successor_wf(p, from, to, Some(Piece::Rook));
        lemma_successor_wf(p, from, to, Some(Piece::Bishop));
        lemma_successor_wf(p, from, to, Some(Piece::Knight));
    }
}

/// The successors by one origin are well formed.
pub proof fn lemma_successors_from_wf(p: GameState, from: u32, limit: nat)
    requires
        p.wf(),
        from < 64,
        limit <= 64,
    ensures
        all_wf(successors_from(p, from, limit)),
    decreases limit,
{
    if limit > 0 {
        lemma_successors_from_wf(p, from, (limit - 1) as nat);
        lemma_successors_from_to_wf(p, from, (limit - 1) as u32);
    }
}

/// The successors by the origins below a limit are well formed.
pub proof fn lemma_successors_below_wf(p: GameState, limit: nat)
    requires
        p.wf(),
        limit <= 64,
    ensures
        all_wf(successors_below(p, limit)),
    decreases limit,
{
    if limit > 0 {
        lemma_successors_below_wf(p, (limit - 1) as nat);
        lemma_successors_from_wf(p, (limit - 1) as u32, 64);
    }
}

/// Every legal successor of a well-formed position is well formed: each
/// side's `all` is the union of its piece sets, no square holds two
/// pieces, and at most one square is marked for taking in passing.
pub proof fn lemma_legal_successors_wf(p: GameState)
    requires
        p.wf(),
    ensures
        all_wf(legal_successors(p)),
{
    lemma_successors_below_wf(p, 64);
}

} // verus!

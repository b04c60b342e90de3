//! Generation of the legal successors of a position.
use vstd::prelude::*;
use crate::attack_laws::{attacks_square, lemma_is_attacked};
use crate::bboard::{bit_set, BBoard};
use crate::bits::lemma_or_and_basics;
use crate::magic::{build_entries, magic_fits, magic_of, MagicEntry, Slider};
use crate::piece_moves::{
    king_attacks, king_scan, knight_attacks, knight_scan, pawn_attacks, pawn_scan, shifted_square,
};
use crate::rules::{
    all_wf, castle_targets, en_passant_set, is_attacked, keep_legal, king_hit, king_home,
    king_side_castle_target, legal_successors, lemma_legal_successors_wf, lemma_no_targets,
    pawn_targets, piece_attacks, queen_side_castle_target, successor, successors_below,
    successors_from, successors_from_to, targets, RANK_3, RANK_6,
};
use crate::state::{GameState, Piece, Side, SideState};

verus! {

/// The square on which a side's king starts.
pub fn king_home_of(side: Side) -> (r: u32)
    ensures
        r == king_home(side),
{
    match side {
        Side::White => 4,
        Side::Black => 60,
    }
}

/// The square on which the side to move may take a pawn in passing, as a
/// set; empty when there is none.
pub fn en_passant_squares(p: &GameState) -> (r: BBoard)
    ensures
        r == en_passant_set(*p),
{
    let occ = p.white_state.all | p.black_state.all;
    match p.next_to_move {
        Side::White => p.en_passant & RANK_6 & (p.black_state.boards[0] << 8u32) & !occ,
        Side::Black => p.en_passant & RANK_3 & (p.white_state.boards[0] >> 8u32) & !occ,
    }
}

/// Builds the position after a move from `from` to `to`. `castles` is the
/// set of squares the king may castle to in `p`.
pub fn make_successor(
    p: &GameState,
    from: u32,
    to: u32,
    promotion: Option<Piece>,
    castles: BBoard,
) -> (n: GameState)
    requires
        from < 64,
        to < 64,
        castles == castle_targets(*p),
    ensures
        n == successor(*p, from, to, promotion),
{
    let s = p.next_to_move;
    let them = s.opposite();
    let own = p.get_side_state(s);
    let opp = p.get_side_state(them);
    let fb = 1u64 << from;
    let tb = 1u64 << to;
    let found = own.piece_at(from);
    let piece = match found {
        Some(piece) => piece,
        None => Piece::Pawn,
    };
    let placed = match promotion {
        Some(chosen) => chosen,
        None => piece,
    };
    let found_pawn = match found {
        Some(Piece::Pawn) => true,
        _ => false,
    };
    let found_king = match found {
        Some(Piece::King) => true,
        _ => false,
    };
    let is_pawn = match piece {
        Piece::Pawn => true,
        _ => false,
    };
    let is_rook = match piece {
        Piece::Rook => true,
        _ => false,
    };
    let is_king = match piece {
        Piece::King => true,
        _ => false,
    };
    let home = king_home_of(s);
    let their_home = king_home_of(them);
    let castle = found_king && from == home && castles & tb != 0;
    let taken_in_passing = found_pawn && tb == en_passant_squares(p) && pawn_scan(s, from) & tb
        != 0;
    let moved = own.without(fb).with(placed, tb);
    let settled = if castle {
        let rook_from: u32 = if to % 8 == 6 {
            to + 1
        } else {
            to - to % 8
        };
        let rook_to: u32 = if to % 8 == 6 {
            to - 1
        } else {
            to - to % 8 + 3
        };
        moved.without(1u64 << rook_from).with(Piece::Rook, 1u64 << rook_to)
    } else {
        moved
    };
    let mover = SideState {
        king_side_castle: own.king_side_castle && !is_king && !(is_rook && from == home + 3),
        queen_side_castle: own.queen_side_castle && !is_king && !(is_rook && from == home - 4),
        boards: settled.boards,
        all: settled.all,
    };
    let victim = if taken_in_passing {
        match s {
            Side::White => tb >> 8u32,
            Side::Black => tb << 8u32,
        }
    } else {
        tb
    };
    let cleared = opp.without(victim);
    let rook_taken = opp.boards[1] & tb != 0;
    let other = SideState {
        king_side_castle: opp.king_side_castle && !(rook_taken && to == their_home + 3),
        queen_side_castle: opp.queen_side_castle && !(rook_taken && to == their_home - 4),
        boards: cleared.boards,
        all: cleared.all,
    };
    let marked = if is_pawn && to == from + 16 {
        1u64 << (from + 8)
    } else if is_pawn && from == to + 16 {
        1u64 << (to + 8)
    } else {
        0
    };
    match s {
        Side::White => GameState {
            next_to_move: Side::Black,
            en_passant: marked,
            white_state: mover,
            black_state: other,
        },
        Side::Black => GameState {
            next_to_move: Side::White,
            en_passant: marked,
            white_state: other,
            black_state: mover,
        },
    }
}

/// Whether each built-in multiplier serves its square.
pub open spec fn multipliers_fit() -> bool {
    forall|sq: u32|
        sq < 64 ==> #[trigger] magic_fits(Slider::Rook, sq, magic_of(Slider::Rook, sq))
            && magic_fits(Slider::Bishop, sq, magic_of(Slider::Bishop, sq))
}

/// The attack tables and the move generation that rests on them.
pub struct MoveGenerator {
    knight: Vec<u64>,
    king: Vec<u64>,
    white_pawn: Vec<u64>,
    black_pawn: Vec<u64>,
    rook: Vec<MagicEntry>,
    bishop: Vec<MagicEntry>,
}

impl MoveGenerator {
    /// Every table holds, for each square, what the attack functions say.
    #[verifier::type_invariant]
    pub closed spec fn wf(&self) -> bool {
        &&& self.knight.len() == 64
        &&& self.king.len() == 64
        &&& self.white_pawn.len() == 64
        &&& self.black_pawn.len() == 64
        &&& self.rook.len() == 64
        &&& self.bishop.len() == 64
        &&& forall|i: int| 0 <= i < 64 ==> #[trigger] self.knight[i] == knight_attacks(i as u32)
        &&& forall|i: int| 0 <= i < 64 ==> #[trigger] self.king[i] == king_attacks(i as u32)
        &&& forall|i: int|
            0 <= i < 64 ==> #[trigger] self.white_pawn[i] == pawn_attacks(Side::White, i as u32)
        &&& forall|i: int|
            0 <= i < 64 ==> #[trigger] self.black_pawn[i] == pawn_attacks(Side::Black, i as u32)
        &&& forall|i: int|
            0 <= i < 64 ==> (#[trigger] self.rook[i]).spec_kind() == Slider::Rook
                && self.rook[i].spec_square() == i
        &&& forall|i: int|
            0 <= i < 64 ==> (#[trigger] self.bishop[i]).spec_kind() == Slider::Bishop
                && self.bishop[i].spec_square() == i
    }

    /// Whether every slider lookup goes through a table.
    pub closed spec fn all_magic(&self) -> bool {
        &&& forall|i: int| 0 <= i < 64 ==> (#[trigger] self.rook[i]).has_table()
        &&& forall|i: int| 0 <= i < 64 ==> (#[trigger] self.bishop[i]).has_table()
    }

    /// Computes the attack tables. Every slider lookup goes through a
    /// table exactly when each of the built-in multipliers serves its
    /// square.
    pub fn new() -> (r: MoveGenerator)
        ensures
            r.all_magic() <==> multipliers_fit(),
    {
        let mut knight: Vec<u64> = Vec::new();
        let mut king: Vec<u64> = Vec::new();
        let mut white_pawn: Vec<u64> = Vec::new();
        let mut black_pawn: Vec<u64> = Vec::new();
        let mut sq: u32 = 0;
        while sq < 64
            invariant
                sq <= 64,
                knight.len() == sq,
                king.len() == sq,
                white_pawn.len() == sq,
                black_pawn.len() == sq,
                forall|i: int| 0 <= i < sq ==> #[trigger] knight[i] == knight_attacks(i as u32),
                forall|i: int| 0 <= i < sq ==> #[trigger] king[i] == king_attacks(i as u32),
                forall|i: int|
                    0 <= i < sq ==> #[trigger] white_pawn[i] == pawn_attacks(
                        Side::White,
                        i as u32,
                    ),
                forall|i: int|
                    0 <= i < sq ==> #[trigger] black_pawn[i] == pawn_attacks(
                        Side::Black,
                        i as u32,
                    ),
            decreases 64 - sq,
        {
            knight.push(knight_scan(sq));
            king.push(king_scan(sq));
            white_pawn.push(pawn_scan(Side::White, sq));
            black_pawn.push(pawn_scan(Side::Black, sq));
            sq = sq + 1;
        }
        let rook = build_entries(Slider::Rook);
        let bishop = build_entries(Slider::Bishop);
        let r = MoveGenerator { knight, king, white_pawn, black_pawn, rook, bishop };
        proof {
            if multipliers_fit() {
                assert forall|i: int| 0 <= i < 64 implies (#[trigger] r.rook[i]).has_table() by {
                    let sq = i as u32;
                    assert(magic_fits(Slider::Rook, sq, magic_of(Slider::Rook, sq)));
                }
                assert forall|i: int| 0 <= i < 64 implies (#[trigger] r.bishop[i]).has_table() by {
                    let sq = i as u32;
                    assert(magic_fits(Slider::Rook, sq, magic_of(Slider::Rook, sq)));
                }
                assert(r.all_magic());
            }
            if r.all_magic() {
                assert forall|sq: u32| sq < 64 implies #[trigger] magic_fits(
                    Slider::Rook,
                    sq,
                    magic_of(Slider::Rook, sq),
                ) && magic_fits(Slider::Bishop, sq, magic_of(Slider::Bishop, sq)) by {
                    assert(r.rook[sq as int].has_table());
                    assert(r.bishop[sq as int].has_table());
                }
            }
        }
        r
    }

    /// Whether every slider lookup goes through a table: true when each
    /// multiplier passed the check made while its table was filled.
    pub fn uses_magic(&self) -> (r: bool)
        ensures
            r == self.all_magic(),
    {
        proof {
            use_type_invariant(self);
        }
        let mut i: usize = 0;
        while i < 64
            invariant
                i <= 64,
                self.rook.len() == 64,
                self.bishop.len() == 64,
                forall|k: int| 0 <= k < i ==> (#[trigger] self.rook[k]).has_table(),
                forall|k: int| 0 <= k < i ==> (#[trigger] self.bishop[k]).has_table(),
            decreases 64 - i,
        {
            let rook_ok = self.rook[i].is_magic();
            let bishop_ok = self.bishop[i].is_magic();
            if !rook_ok || !bishop_ok {
                assert(!self.rook[i as int].has_table() || !self.bishop[i as int].has_table());
                return false;
            }
            i = i + 1;
        }
        true
    }

    /// The squares that a piece of the given kind and side attacks from
    /// `sq` when the squares of `occ` are occupied.
    pub fn attacks(&self, piece: Piece, side: Side, sq: u32, occ: BBoard) -> (r: BBoard)
        requires
            sq < 64,
        ensures
            r == piece_attacks(piece, side, sq, occ),
    {
        proof {
            use_type_invariant(self);
        }
        let i = sq as usize;
        match piece {
            Piece::Pawn => match side {
                Side::White => self.white_pawn[i],
                Side::Black => self.black_pawn[i],
            },
            Piece::Rook => self.rook[i].attacks(occ),
            Piece::Knight => self.knight[i],
            Piece::Bishop => self.bishop[i].attacks(occ),
            Piece::Queen => self.rook[i].attacks(occ) | self.bishop[i].attacks(occ),
            Piece::King => self.king[i],
        }
    }

    /// Whether a piece of side `by` attacks square `sq`: whether some piece
    /// of `by` stands on a square from which its attack set holds `sq`. The
    /// test looks from `sq` outwards.
    pub fn is_attacked(&self, state: &GameState, sq: u32, by: Side) -> (r: bool)
        requires
            sq < 64,
        ensures
            r == is_attacked(*state, sq, by),
            r == attacks_square(*state, by, sq),
    {
        proof {
            use_type_invariant(self);
            lemma_is_attacked(*state, sq, by);
        }
        let i = sq as usize;
        let a = state.get_side_state(by);
        let occ = state.white_state.all | state.black_state.all;
        let from_pawns = match by {
            Side::White => self.black_pawn[i],
            Side::Black => self.white_pawn[i],
        };
        if from_pawns & a.boards[0] != 0 {
            return true;
        }
        if self.knight[i] & a.boards[2] != 0 {
            return true;
        }
        if self.king[i] & a.boards[5] != 0 {
            return true;
        }
        if self.rook[i].attacks(occ) & (a.boards[1] | a.boards[4]) != 0 {
            return true;
        }
        self.bishop[i].attacks(occ) & (a.boards[3] | a.boards[4]) != 0
    }

    /// Whether a king of `side` stands on a square that the other side
    /// attacks.
    pub fn is_king_hit(&self, state: &GameState, side: Side) -> (r: bool)
        ensures
            r == king_hit(*state, side),
    {
        let kings = state.get_side_state(side).boards[5];
        let them = side.opposite();
        let mut sq: u32 = 0;
        while sq < 64
            invariant
                sq <= 64,
                kings == state.side(side).board(Piece::King),
                them == side.spec_opposite(),
                forall|k: u32|
                    k < sq ==> !(#[trigger] bit_set(kings, k) && is_attacked(*state, k, them)),
            decreases 64 - sq,
        {
            if kings & (1u64 << sq) != 0 && self.is_attacked(state, sq, them) {
                assert(bit_set(state.side(side).board(Piece::King), sq));
                return true;
            }
            sq = sq + 1;
        }
        false
    }

    /// The squares the king of the side to move may castle to.
    pub fn castle_targets(&self, state: &GameState) -> (r: BBoard)
        ensures
            r == castle_targets(*state),
    {
        let s = state.next_to_move;
        let them = s.opposite();
        let own = state.get_side_state(s);
        let home = king_home_of(s);
        let occ = state.white_state.all | state.black_state.all;
        let king_side = if own.king_side_castle && own.boards[5] & (1u64 << home) != 0
            && own.boards[1] & (1u64 << (home + 3)) != 0 && occ & ((1u64 << (home + 1)) | (1u64 << (
            home + 2))) == 0 && !self.is_attacked(state, home, them) && !self.is_attacked(
            state,
            home + 1,
            them,
        ) {
            1u64 << (home + 2)
        } else {
            0
        };
        let queen_side = if own.queen_side_castle && own.boards[5] & (1u64 << home) != 0
            && own.boards[1] & (1u64 << (home - 4)) != 0 && occ & ((1u64 << (home - 1)) | (1u64 << (
            home - 2)) | (1u64 << (home - 3))) == 0 && !self.is_attacked(state, home, them)
            && !self.is_attacked(state, home - 1, them) {
            1u64 << (home - 2)
        } else {
            0
        };
        assert(king_side == king_side_castle_target(*state));
        assert(queen_side == queen_side_castle_target(*state));
        king_side | queen_side
    }

    /// Where the pawn of the side to move on `from` may go.
    fn pawn_targets(&self, state: &GameState, from: u32) -> (r: BBoard)
        requires
            from < 64,
        ensures
            r == pawn_targets(*state, from),
    {
        proof {
            use_type_invariant(self);
        }
        let s = state.next_to_move;
        let occ = state.white_state.all | state.black_state.all;
        let dy: i32 = match s {
            Side::White => 1,
            Side::Black => -1,
        };
        let start: u32 = match s {
            Side::White => 1,
            Side::Black => 6,
        };
        let one = shifted_square(from, 0, dy);
        let two = shifted_square(from, 0, 2 * dy);
        let pushes = if one & occ != 0 {
            0
        } else if from / 8 == start && two & occ == 0 {
            one | two
        } else {
            one
        };
        let hits = match s {
            Side::White => self.white_pawn[from as usize] & (state.black_state.all
                | en_passant_squares(state)),
            Side::Black => self.black_pawn[from as usize] & (state.white_state.all
                | en_passant_squares(state)),
        };
        pushes | hits
    }

    /// The squares the piece on `from` may move to, given the squares the
    /// king may castle to.
    fn targets_with(&self, state: &GameState, from: u32, castles: BBoard) -> (r: BBoard)
        requires
            from < 64,
            castles == castle_targets(*state),
        ensures
            r == targets(*state, from),
    {
        proof {
            use_type_invariant(self);
        }
        let s = state.next_to_move;
        let own = state.get_side_state(s);
        let occ = state.white_state.all | state.black_state.all;
        match own.piece_at(from) {
            None => 0,
            Some(Piece::Pawn) => self.pawn_targets(state, from),
            Some(Piece::King) => {
                let near = self.king[from as usize] & !own.all;
                if from == king_home_of(s) {
                    near | castles
                } else {
                    proof {
                        lemma_or_and_basics(near, 0, 0);
                    }
                    near
                }
            },
            Some(piece) => self.attacks(piece, s, from, occ) & !own.all,
        }
    }

    /// Every square that the piece on `from` may move to, before asking
    /// whether the move leaves the mover's king attacked.
    pub fn targets(&self, state: &GameState, from: u32) -> (r: BBoard)
        requires
            from < 64,
        ensures
            r == targets(*state, from),
    {
        let castles = self.castle_targets(state);
        self.targets_with(state, from, castles)
    }

    /// Appends `next` unless the side that moved has its king attacked in
    /// it.
    fn push_if_legal(&self, state: &GameState, next: GameState, moves: &mut Vec<GameState>)
        ensures
            final(moves)@ == old(moves)@ + keep_legal(*state, next),
    {
        if !self.is_king_hit(&next, state.next_to_move) {
            moves.push(next);
            assert(moves@ =~= old(moves)@ + keep_legal(*state, next));
        } else {
            assert(moves@ =~= old(moves)@ + keep_legal(*state, next));
        }
    }

    /// Appends the legal successors by the move from `from` to `to`.
    fn moves_from_to(
        &self,
        state: &GameState,
        from: u32,
        to: u32,
        pawn: bool,
        castles: BBoard,
        moves: &mut Vec<GameState>,
    )
        requires
            from < 64,
            to < 64,
            castles == castle_targets(*state),
            bit_set(targets(*state, from), to),
            pawn == (state.side(state.next_to_move).first_piece_on(crate::bboard::square_bit(from))
                == Some(Piece::Pawn)),
        ensures
            final(moves)@ == old(moves)@ + successors_from_to(*state, from, to),
    {
        let last: u32 = match state.next_to_move {
            Side::White => 7,
            Side::Black => 0,
        };
        if pawn && to / 8 == last {
            let queen = make_successor(state, from, to, Some(Piece::Queen), castles);
            let rook = make_successor(state, from, to, Some(Piece::Rook), castles);
            let bishop = make_successor(state, from, to, Some(Piece::Bishop), castles);
            let knight = make_successor(state, from, to, Some(Piece::Knight), castles);
            self.push_if_legal(state, queen, moves);
            self.push_if_legal(state, rook, moves);
            self.push_if_legal(state, bishop, moves);
            self.push_if_legal(state, knight, moves);
            assert(moves@ =~= old(moves)@ + successors_from_to(*state, from, to));
        } else {
            let next = make_successor(state, from, to, None, castles);
            self.push_if_legal(state, next, moves);
        }
    }

    /// Appends the legal successors by the moves of the piece on `from`.
    fn moves_from(&self, state: &GameState, from: u32, castles: BBoard, moves: &mut Vec<GameState>)
        requires
            from < 64,
            castles == castle_targets(*state),
        ensures
            final(moves)@ == old(moves)@ + successors_from(*state, from, 64),
    {
        let reach = self.targets_with(state, from, castles);
        if reach == 0 {
            proof {
                lemma_no_targets(*state, from, 64);
                assert(moves@ =~= old(moves)@ + successors_from(*state, from, 64));
            }
            return ;
        }
        let pawn = match state.get_side_state(state.next_to_move).piece_at(from) {
            Some(Piece::Pawn) => true,
            _ => false,
        };
        let mut to: u32 = 0;
        assert(moves@ =~= old(moves)@ + successors_from(*state, from, 0));
        while to < 64
            invariant
                to <= 64,
                from < 64,
                castles == castle_targets(*state),
                reach == targets(*state, from),
                pawn == (state.side(state.next_to_move).first_piece_on(
                    crate::bboard::square_bit(from),
                ) == Some(Piece::Pawn)),
                moves@ == old(moves)@ + successors_from(*state, from, to as nat),
            decreases 64 - to,
        {
            let ghost before = moves@;
            if reach & (1u64 << to) != 0 {
                self.moves_from_to(state, from, to, pawn, castles, moves);
            }
            assert(moves@ =~= old(moves)@ + successors_from(*state, from, (to + 1) as nat)) by {
                assert(moves@ =~= before + successors_from_to(*state, from, to));
            }
            to = to + 1;
        }
    }

    /// Appends every legal successor of `state` to `moves`: for each piece
    /// of the side to move and each square it may go to, the position after
    /// the move, unless the mover's king is attacked in it. The order is
    /// fixed: by origin square, then destination square, then promotion
    /// piece.
    pub fn generate_moves(&self, state: &GameState, moves: &mut Vec<GameState>)
        ensures
            final(moves)@ == old(moves)@ + legal_successors(*state),
            state.wf() ==> all_wf(legal_successors(*state)),
    {
        let castles = self.castle_targets(state);
        let mut from: u32 = 0;
        assert(moves@ =~= old(moves)@ + successors_below(*state, 0));
        while from < 64
            invariant
                from <= 64,
                castles == castle_targets(*state),
                moves@ == old(moves)@ + successors_below(*state, from as nat),
            decreases 64 - from,
        {
            let ghost before = moves@;
            self.moves_from(state, from, castles, moves);
            assert(moves@ =~= old(moves)@ + successors_below(*state, (from + 1) as nat)) by {
                assert(moves@ =~= before + successors_from(*state, from, 64));
            }
            from = from + 1;
        }
        proof {
            if state.wf() {
                lemma_legal_successors_wf(*state);
            }
        }
    }
}

} // verus!

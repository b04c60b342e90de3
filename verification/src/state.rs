//! Pieces, sides, and the position they stand in.
use vstd::prelude::*;
use crate::bboard::{square_bit, BBoard};
use crate::bits::{
    lemma_add_union, lemma_clear_union, lemma_keep_disjoint, lemma_or_and_basics,
    lemma_trailing_zeros_of_square,
};

verus! {

/// What can go wrong when a position is read or changed.
#[derive(Copy, Clone, PartialEq, Eq, Structural, Debug)]
pub enum ChessError {
    /// The board field holds a character that is no piece, digit or `/`, or
    /// describes more than 64 squares.
    MalformedBoard,
    /// The side field does not start with `w` or `b`.
    UnknownSide,
    /// A square is marked occupied but no piece set holds it.
    InconsistentOccupancy,
}

/// The six kinds of piece.
#[derive(Copy, Clone, PartialEq, Eq, Structural, Debug)]
pub enum Piece {
    Pawn,
    Rook,
    Knight,
    Bishop,
    Queen,
    King,
}

/// The two players.
#[derive(Copy, Clone, PartialEq, Eq, Structural, Debug)]
pub enum Side {
    White,
    Black,
}

/// The order in which the pieces are listed by [`Piece::all_values`].
pub const PIECES: [Piece; 6] = [
    Piece::King,
    Piece::Pawn,
    Piece::Rook,
    Piece::Knight,
    Piece::Bishop,
    Piece::Queen,
];

impl Piece {
    /// Position of the piece's square set within a side's `boards`.
    pub open spec fn spec_idx(&self) -> usize {
        match self {
            Piece::Pawn => 0,
            Piece::Rook => 1,
            Piece::Knight => 2,
            Piece::Bishop => 3,
            Piece::Queen => 4,
            Piece::King => 5,
        }
    }

    /// Material value in centipawns.
    pub open spec fn spec_value(&self) -> i32 {
        match self {
            Piece::Pawn => 100,
            Piece::Rook => 500,
            Piece::Knight => 320,
            Piece::Bishop => 330,
            Piece::Queen => 900,
            Piece::King => 40000,
        }
    }

    /// The letter that stands for the piece: upper case for White, lower
    /// case for Black.
    pub open spec fn spec_to_char(&self, side: Side) -> char {
        match side {
            Side::White => match self {
                Piece::Pawn => 'P',
                Piece::Rook => 'R',
                Piece::Knight => 'N',
                Piece::Bishop => 'B',
                Piece::Queen => 'Q',
                Piece::King => 'K',
            },
            Side::Black => match self {
                Piece::Pawn => 'p',
                Piece::Rook => 'r',
                Piece::Knight => 'n',
                Piece::Bishop => 'b',
                Piece::Queen => 'q',
                Piece::King => 'k',
            },
        }
    }

    /// The piece's name: capitalised for White, lower case for Black.
    pub open spec fn name(&self, side: Side) -> Seq<char> {
        match side {
            Side::White => match self {
                Piece::Pawn => "Pawn"@,
                Piece::Rook => "Rook"@,
                Piece::Knight => "Knight"@,
                Piece::Bishop => "Bishop"@,
                Piece::Queen => "Queen"@,
                Piece::King => "King"@,
            },
            Side::Black => match self {
                Piece::Pawn => "pawn"@,
                Piece::Rook => "rook"@,
                Piece::Knight => "knight"@,
                Piece::Bishop => "bishop"@,
                Piece::Queen => "queen"@,
                Piece::King => "king"@,
            },
        }
    }

    /// The piece and side that a letter stands for, if any.
    pub open spec fn spec_from_byte(c: u8) -> Option<(Piece, Side)> {
        if c == 'P' as u8 {
            Some((Piece::Pawn, Side::White))
        } else if c == 'R' as u8 {
            Some((Piece::Rook, Side::White))
        } else if c == 'N' as u8 {
            Some((Piece::Knight, Side::White))
        } else if c == 'B' as u8 {
            Some((Piece::Bishop, Side::White))
        } else if c == 'Q' as u8 {
            Some((Piece::Queen, Side::White))
        } else if c == 'K' as u8 {
            Some((Piece::King, Side::White))
        } else if c == 'p' as u8 {
            Some((Piece::Pawn, Side::Black))
        } else if c == 'r' as u8 {
            Some((Piece::Rook, Side::Black))
        } else if c == 'n' as u8 {
            Some((Piece::Knight, Side::Black))
        } else if c == 'b' as u8 {
            Some((Piece::Bishop, Side::Black))
        } else if c == 'q' as u8 {
            Some((Piece::Queen, Side::Black))
        } else if c == 'k' as u8 {
            Some((Piece::King, Side::Black))
        } else {
            None
        }
    }

    /// All six pieces: king first, then pawn, rook, knight, bishop, queen.
    pub fn all_values() -> (r: &'static [Piece; 6])
        ensures
            r@ == seq![
                Piece::King,
                Piece::Pawn,
                Piece::Rook,
                Piece::Knight,
                Piece::Bishop,
                Piece::Queen,
            ],
    {
        let r = &PIECES;
        assert(r@ =~= seq![
            Piece::King,
            Piece::Pawn,
            Piece::Rook,
            Piece::Knight,
            Piece::Bishop,
            Piece::Queen,
        ]);
        r
    }

    /// Position of the piece's square set within a side's `boards`.
    #[verifier::when_used_as_spec(spec_idx)]
    pub fn idx(&self) -> (r: usize)
        ensures
            r == self.spec_idx(),
            r < 6,
    {
        match self {
            Piece::Pawn => 0,
            Piece::Rook => 1,
            Piece::Knight => 2,
            Piece::Bishop => 3,
            Piece::Queen => 4,
            Piece::King => 5,
        }
    }

    /// Material value in centipawns.
    #[verifier::when_used_as_spec(spec_value)]
    pub fn value(&self) -> (r: i32)
        ensures
            r == self.spec_value(),
    {
        match self {
            Piece::Pawn => 100,
            Piece::Rook => 500,
            Piece::Knight => 320,
            Piece::Bishop => 330,
            Piece::Queen => 900,
            Piece::King => 40000,
        }
    }

    /// The piece's name: capitalised for White, lower case for Black.
    pub fn to_string(&self, side: Side) -> (r: String)
        ensures
            r@ == self.name(side),
    {
        match side {
            Side::White => match self {
                Piece::Pawn => String::from_str("Pawn"),
                Piece::Rook => String::from_str("Rook"),
                Piece::Knight => String::from_str("Knight"),
                Piece::Bishop => String::from_str("Bishop"),
                Piece::Queen => String::from_str("Queen"),
                Piece::King => String::from_str("King"),
            },
            Side::Black => match self {
                Piece::Pawn => String::from_str("pawn"),
                Piece::Rook => String::from_str("rook"),
                Piece::Knight => String::from_str("knight"),
                Piece::Bishop => String::from_str("bishop"),
                Piece::Queen => String::from_str("queen"),
                Piece::King => String::from_str("king"),
            },
        }
    }

    /// The letter that stands for the piece: upper case for White, lower
    /// case for Black.
    #[verifier::when_used_as_spec(spec_to_char)]
    pub fn to_char(&self, side: Side) -> (r: char)
        ensures
            r == self.spec_to_char(side),
    {
        match side {
            Side::White => match self {
                Piece::Pawn => 'P',
                Piece::Rook => 'R',
                Piece::Knight => 'N',
                Piece::Bishop => 'B',
                Piece::Queen => 'Q',
                Piece::King => 'K',
            },
            Side::Black => match self {
                Piece::Pawn => 'p',
                Piece::Rook => 'r',
                Piece::Knight => 'n',
                Piece::Bishop => 'b',
                Piece::Queen => 'q',
                Piece::King => 'k',
            },
        }
    }

    /// Reads a piece letter. Any byte that is not one of `PRNBQKprnbqk` is
    /// refused as a malformed board.
    pub fn from_byte(c: &u8) -> (r: Result<(Piece, Side), ChessError>)
        ensures
            r == match Piece::spec_from_byte(*c) {
                Some(found) => Ok::<(Piece, Side), ChessError>(found),
                None => Err(ChessError::MalformedBoard),
            },
    {
        let c = *c;
        if c == 0x50u8 {
            Ok((Piece::Pawn, Side::White))
        } else if c == 0x52u8 {
            Ok((Piece::Rook, Side::White))
        } else if c == 0x4eu8 {
            Ok((Piece::Knight, Side::White))
        } else if c == 0x42u8 {
            Ok((Piece::Bishop, Side::White))
        } else if c == 0x51u8 {
            Ok((Piece::Queen, Side::White))
        } else if c == 0x4bu8 {
            Ok((Piece::King, Side::White))
        } else if c == 0x70u8 {
            Ok((Piece::Pawn, Side::Black))
        } else if c == 0x72u8 {
            Ok((Piece::Rook, Side::Black))
        } else if c == 0x6eu8 {
            Ok((Piece::Knight, Side::Black))
        } else if c == 0x62u8 {
            Ok((Piece::Bishop, Side::Black))
        } else if c == 0x71u8 {
            Ok((Piece::Queen, Side::Black))
        } else if c == 0x6bu8 {
            Ok((Piece::King, Side::Black))
        } else {
            Err(ChessError::MalformedBoard)
        }
    }
}

impl Side {
    /// `0` for White, `1` for Black.
    pub open spec fn spec_idx(&self) -> i32 {
        match self {
            Side::White => 0,
            Side::Black => 1,
        }
    }

    /// The other side.
    pub open spec fn spec_opposite(&self) -> Side {
        match self {
            Side::White => Side::Black,
            Side::Black => Side::White,
        }
    }

    /// The sign that orients a score: `+1` for White, `-1` for Black.
    pub open spec fn spec_value(&self) -> i32 {
        match self {
            Side::White => 1i32,
            Side::Black => -1i32,
        }
    }

    /// The letter that stands for the side: `w` or `b`.
    pub open spec fn spec_to_char(&self) -> char {
        match self {
            Side::White => 'w',
            Side::Black => 'b',
        }
    }

    /// The side that a letter stands for, if any.
    pub open spec fn spec_from_byte(c: u8) -> Option<Side> {
        if c == 'w' as u8 {
            Some(Side::White)
        } else if c == 'b' as u8 {
            Some(Side::Black)
        } else {
            None
        }
    }

    /// `0` for White, `1` for Black.
    #[verifier::when_used_as_spec(spec_idx)]
    pub fn idx(&self) -> (r: i32)
        ensures
            r == self.spec_idx(),
    {
        match self {
            Side::White => 0,
            Side::Black => 1,
        }
    }

    /// The sign that orients a score: `+1` for White, `-1` for Black.
    #[verifier::when_used_as_spec(spec_value)]
    pub fn value(&self) -> (r: i32)
        ensures
            r == self.spec_value(),
    {
        match self {
            Side::White => 1,
            Side::Black => -1,
        }
    }

    /// The other side.
    #[verifier::when_used_as_spec(spec_opposite)]
    pub fn opposite(&self) -> (r: Side)
        ensures
            r == self.spec_opposite(),
            r != *self,
    {
        match self {
            Side::White => Side::Black,
            Side::Black => Side::White,
        }
    }

    /// Reads the side letter: `w` or `b`; anything else is refused.
    pub fn from_byte(c: u8) -> (r: Result<Side, ChessError>)
        ensures
            r == match Side::spec_from_byte(c) {
                Some(side) => Ok::<Side, ChessError>(side),
                None => Err(ChessError::UnknownSide),
            },
    {
        if c == 0x77u8 {
            Ok(Side::White)
        } else if c == 0x62u8 {
            Ok(Side::Black)
        } else {
            Err(ChessError::UnknownSide)
        }
    }

    /// The letter that stands for the side: `w` or `b`.
    #[verifier::when_used_as_spec(spec_to_char)]
    pub fn to_char(&self) -> (r: char)
        ensures
            r == self.spec_to_char(),
    {
        match self {
            Side::White => 'w',
            Side::Black => 'b',
        }
    }
}

/// One player's pieces and castling rights.
#[derive(Copy, Clone, PartialEq, Eq, Debug)]
pub struct SideState {
    pub king_side_castle: bool,
    pub queen_side_castle: bool,
    /// One square set per piece, at the piece's `idx`.
    pub boards: [BBoard; 6],
    /// Every square this side stands on.
    pub all: BBoard,
}

impl SideState {
    /// The union of the six piece sets.
    pub open spec fn union(&self) -> u64 {
        self.boards[0] | self.boards[1] | self.boards[2] | self.boards[3] | self.boards[4]
            | self.boards[5]
    }

    /// No square is in two piece sets.
    pub open spec fn disjoint(&self) -> bool {
        forall|i: int, j: int| 0 <= i < j < 6 ==> self.boards[i] & self.boards[j] == 0
    }

    /// `all` is the union of the piece sets, and no two of them overlap.
    pub open spec fn wf(&self) -> bool {
        &&& self.all == self.union()
        &&& self.disjoint()
    }

    /// The set of the given piece.
    pub open spec fn board(&self, piece: Piece) -> u64 {
        self.boards[piece.spec_idx() as int]
    }

    /// The first piece, in the order pawn, rook, knight, bishop, queen,
    /// king, whose set meets `squares`.
    pub open spec fn first_piece_on(&self, squares: u64) -> Option<Piece> {
        if self.boards[0] & squares != 0 {
            Some(Piece::Pawn)
        } else if self.boards[1] & squares != 0 {
            Some(Piece::Rook)
        } else if self.boards[2] & squares != 0 {
            Some(Piece::Knight)
        } else if self.boards[3] & squares != 0 {
            Some(Piece::Bishop)
        } else if self.boards[4] & squares != 0 {
            Some(Piece::Queen)
        } else if self.boards[5] & squares != 0 {
            Some(Piece::King)
        } else {
            None
        }
    }

    /// This side with the squares of `bits` emptied, whatever stood there.
    pub open spec fn spec_without(&self, bits: u64) -> SideState {
        SideState {
            boards: [
                self.boards[0] & !bits,
                self.boards[1] & !bits,
                self.boards[2] & !bits,
                self.boards[3] & !bits,
                self.boards[4] & !bits,
                self.boards[5] & !bits,
            ],
            all: self.all & !bits,
            ..*self
        }
    }

    /// This side with `piece` put on the squares of `bits`.
    pub open spec fn spec_with(&self, piece: Piece, bits: u64) -> SideState {
        SideState {
            boards: [
                if piece == Piece::Pawn {
                    self.boards[0] | bits
                } else {
                    self.boards[0]
                },
                if piece == Piece::Rook {
                    self.boards[1] | bits
                } else {
                    self.boards[1]
                },
                if piece == Piece::Knight {
                    self.boards[2] | bits
                } else {
                    self.boards[2]
                },
                if piece == Piece::Bishop {
                    self.boards[3] | bits
                } else {
                    self.boards[3]
                },
                if piece == Piece::Queen {
                    self.boards[4] | bits
                } else {
                    self.boards[4]
                },
                if piece == Piece::King {
                    self.boards[5] | bits
                } else {
                    self.boards[5]
                },
            ],
            all: self.all | bits,
            ..*self
        }
    }

    /// Emptying squares keeps a side well formed.
    pub proof fn lemma_without_wf(self, bits: u64)
        requires
            self.wf(),
        ensures
            self.spec_without(bits).wf(),
    {
        let b = self.boards;
        let r = self.spec_without(bits);
        lemma_clear_union(b[0], b[1], b[2], b[3], b[4], b[5], bits);
        assert forall|i: int, j: int| 0 <= i < j < 6 implies r.boards[i] & r.boards[j] == 0 by {
            lemma_keep_disjoint(b[i], b[j], bits, 0);
        }
    }

    /// Putting a piece on squares that the side does not occupy keeps it
    /// well formed.
    pub proof fn lemma_with_wf(self, piece: Piece, bits: u64)
        requires
            self.wf(),
            self.all & bits == 0,
        ensures
            self.spec_with(piece, bits).wf(),
    {
        let b = self.boards;
        let r = self.spec_with(piece, bits);
        lemma_add_union(b[0], b[1], b[2], b[3], b[4], b[5], bits);
        assert forall|i: int, j: int| 0 <= i < j < 6 implies r.boards[i] & r.boards[j] == 0 by {
            lemma_or_and_basics(b[i], b[j], 0);
            lemma_keep_disjoint(b[i], b[j], 0, bits);
            lemma_keep_disjoint(b[j], b[i], 0, bits);
        }
    }

    /// Empties the squares of `bits`, whatever stood there.
    pub fn without(&self, bits: BBoard) -> (r: SideState)
        ensures
            r == self.spec_without(bits),
    {
        SideState {
            king_side_castle: self.king_side_castle,
            queen_side_castle: self.queen_side_castle,
            boards: [
                self.boards[0] & !bits,
                self.boards[1] & !bits,
                self.boards[2] & !bits,
                self.boards[3] & !bits,
                self.boards[4] & !bits,
                self.boards[5] & !bits,
            ],
            all: self.all & !bits,
        }
    }

    /// Puts `piece` on the squares of `bits`.
    pub fn with(&self, piece: Piece, bits: BBoard) -> (r: SideState)
        ensures
            r == self.spec_with(piece, bits),
    {
        let mut r = *self;
        r.add_bit(piece, bits);
        assert(r.boards =~= self.spec_with(piece, bits).boards);
        r
    }

    /// The piece that stands on square `sq`, if any: the first in the order
    /// pawn, rook, knight, bishop, queen, king whose set holds the square.
    pub fn piece_at(&self, sq: u32) -> (r: Option<Piece>)
        requires
            sq < 64,
        ensures
            r == self.first_piece_on(square_bit(sq)),
    {
        self.first_piece(1u64 << sq)
    }

    /// The first piece, in the order pawn, rook, knight, bishop, queen,
    /// king, that stands on one of the squares of `b`.
    pub fn first_piece(&self, b: BBoard) -> (r: Option<Piece>)
        ensures
            r == self.first_piece_on(b),
    {
        if self.boards[0] & b != 0 {
            Some(Piece::Pawn)
        } else if self.boards[1] & b != 0 {
            Some(Piece::Rook)
        } else if self.boards[2] & b != 0 {
            Some(Piece::Knight)
        } else if self.boards[3] & b != 0 {
            Some(Piece::Bishop)
        } else if self.boards[4] & b != 0 {
            Some(Piece::Queen)
        } else if self.boards[5] & b != 0 {
            Some(Piece::King)
        } else {
            None
        }
    }

    /// The side without pieces and without castling rights.
    pub open spec fn empty() -> SideState {
        SideState {
            king_side_castle: false,
            queen_side_castle: false,
            boards: [0u64, 0u64, 0u64, 0u64, 0u64, 0u64],
            all: 0u64,
        }
    }

    /// Checks that `all` is the union of the piece sets and that no two of
    /// them overlap.
    pub fn is_well_formed(&self) -> (r: bool)
        ensures
            r == self.wf(),
    {
        let union = self.boards[0] | self.boards[1] | self.boards[2] | self.boards[3]
            | self.boards[4] | self.boards[5];
        if self.all != union {
            return false;
        }
        let mut i: usize = 0;
        while i < 6
            invariant
                i <= 6,
                forall|a: int, b: int| 0 <= a < b < 6 && a < i ==> self.boards[a] & self.boards[b] == 0,
            decreases 6 - i,
        {
            let mut j: usize = i + 1;
            while j < 6
                invariant
                    i < 6,
                    i < j <= 6,
                    forall|a: int, b: int|
                        0 <= a < b < 6 && a < i ==> self.boards[a] & self.boards[b] == 0,
                    forall|b: int| i < b < j ==> self.boards[i as int] & self.boards[b] == 0,
                decreases 6 - j,
            {
                if self.boards[i] & self.boards[j] != 0 {
                    return false;
                }
                j = j + 1;
            }
            i = i + 1;
        }
        true
    }

    /// A side without pieces and without castling rights.
    pub fn new() -> (r: SideState)
        ensures
            r == SideState::empty(),
            r.wf(),
    {
        let r = SideState {
            king_side_castle: false,
            queen_side_castle: false,
            boards: [0u64, 0u64, 0u64, 0u64, 0u64, 0u64],
            all: 0u64,
        };
        proof {
            lemma_or_and_basics(0, 0, 0);
        }
        r
    }

    /// Recomputes `all` as the union of the six piece sets.
    pub fn update(&mut self)
        ensures
            final(self).all == old(self).union(),
            final(self).boards == old(self).boards,
            final(self).king_side_castle == old(self).king_side_castle,
            final(self).queen_side_castle == old(self).queen_side_castle,
    {
        self.all = self.boards[0] | self.boards[1] | self.boards[2] | self.boards[3]
            | self.boards[4] | self.boards[5];
    }

    /// The castling rights: king's side first, then queen's side.
    pub fn castle_state(&self) -> (r: (bool, bool))
        ensures
            r == (self.king_side_castle, self.queen_side_castle),
    {
        (self.king_side_castle, self.queen_side_castle)
    }

    /// Sets both castling rights: king's side first, then queen's side.
    pub fn set_castle_state(&mut self, state: (bool, bool))
        ensures
            *final(self) == (SideState {
                king_side_castle: state.0,
                queen_side_castle: state.1,
                ..*old(self)
            }),
    {
        self.king_side_castle = state.0;
        self.queen_side_castle = state.1;
    }

    /// Sets the right to castle on the king's side.
    pub fn set_king_side_castle(&mut self, value: bool)
        ensures
            *final(self) == (SideState { king_side_castle: value, ..*old(self) }),
    {
        self.king_side_castle = value;
    }

    /// Sets the right to castle on the queen's side.
    pub fn set_queen_side_castle(&mut self, value: bool)
        ensures
            *final(self) == (SideState { queen_side_castle: value, ..*old(self) }),
    {
        self.queen_side_castle = value;
    }

    /// Hands out the set of one piece for writing. `all` is not touched:
    /// call [`SideState::update`] after changing a set through it.
    pub fn get_mut_board(&mut self, piece: Piece) -> (r: &mut BBoard)
        ensures
            *r == old(self).board(piece),
            final(self).boards@ == old(self).boards@.update(piece.spec_idx() as int, *final(r)),
            final(self).all == old(self).all,
            final(self).king_side_castle == old(self).king_side_castle,
            final(self).queen_side_castle == old(self).queen_side_castle,
    {
        &mut self.boards[piece.idx()]
    }

    /// The set of one piece.
    pub fn get_board(&self, piece: Piece) -> (r: BBoard)
        ensures
            r == self.board(piece),
    {
        self.boards[piece.idx()]
    }

    /// Adds the squares of `to_add` to the set of `piece` and to `all`.
    pub fn add_bit(&mut self, piece: Piece, to_add: BBoard)
        ensures
            final(self).boards@ == old(self).boards@.update(
                piece.spec_idx() as int,
                old(self).board(piece) | to_add,
            ),
            final(self).all == old(self).all | to_add,
            final(self).king_side_castle == old(self).king_side_castle,
            final(self).queen_side_castle == old(self).queen_side_castle,
    {
        let i = piece.idx();
        self.boards[i] = self.boards[i] | to_add;
        self.all |= to_add;
    }

    /// Takes the squares of `to_remove` away from `all` and from the first
    /// piece set that meets them, and says which piece that was. Where
    /// `all` does not meet `to_remove` nothing changes and there is no
    /// piece. Where `all` meets it but no piece set does, the side is
    /// inconsistent: it is left as it was and the error says so.
    pub fn remove_bit(&mut self, to_remove: BBoard) -> (r: Result<Option<Piece>, ChessError>)
        ensures
            old(self).all & to_remove == 0 ==> r == Ok::<Option<Piece>, ChessError>(None)
                && *final(self) == *old(self),
            old(self).all & to_remove != 0 ==> match old(self).first_piece_on(to_remove) {
                Some(piece) => {
                    &&& r == Ok::<Option<Piece>, ChessError>(Some(piece))
                    &&& final(self).all == old(self).all & !to_remove
                    &&& final(self).boards@ == old(self).boards@.update(
                        piece.spec_idx() as int,
                        old(self).board(piece) & !to_remove,
                    )
                    &&& final(self).king_side_castle == old(self).king_side_castle
                    &&& final(self).queen_side_castle == old(self).queen_side_castle
                },
                None => r == Err::<Option<Piece>, ChessError>(ChessError::InconsistentOccupancy)
                    && *final(self) == *old(self),
            },
    {
        let inv = !to_remove;
        if self.all & to_remove == 0 {
            return Ok(None);
        }
        let found = if self.boards[0] & to_remove != 0 {
            Piece::Pawn
        } else if self.boards[1] & to_remove != 0 {
            Piece::Rook
        } else if self.boards[2] & to_remove != 0 {
            Piece::Knight
        } else if self.boards[3] & to_remove != 0 {
            Piece::Bishop
        } else if self.boards[4] & to_remove != 0 {
            Piece::Queen
        } else if self.boards[5] & to_remove != 0 {
            Piece::King
        } else {
            return Err(ChessError::InconsistentOccupancy);
        };
        let i = found.idx();
        self.all &= inv;
        self.boards[i] = self.boards[i] & inv;
        Ok(Some(found))
    }
}

/// A position: who moves next, where a pawn may be taken in passing, and
/// both sides' pieces.
#[derive(Copy, Clone, PartialEq, Eq, Debug)]
pub struct GameState {
    pub next_to_move: Side,
    /// The square a pawn has just skipped, or the empty set.
    pub en_passant: BBoard,
    pub white_state: SideState,
    pub black_state: SideState,
}

impl GameState {
    /// The state of one side.
    pub open spec fn side(&self, side: Side) -> SideState {
        match side {
            Side::White => self.white_state,
            Side::Black => self.black_state,
        }
    }

    /// Every occupied square.
    pub open spec fn occupancy(&self) -> u64 {
        self.white_state.all | self.black_state.all
    }

    /// Both sides are well formed, no square holds a piece of each side,
    /// and at most one square is marked for taking in passing.
    pub open spec fn wf(&self) -> bool {
        &&& self.white_state.wf()
        &&& self.black_state.wf()
        &&& self.white_state.all & self.black_state.all == 0
        &&& (self.en_passant == 0 || exists|sq: u32| sq < 64 && self.en_passant == square_bit(sq))
    }

    /// The position with no pieces, White to move.
    pub open spec fn empty() -> GameState {
        GameState {
            next_to_move: Side::White,
            en_passant: 0,
            white_state: SideState::empty(),
            black_state: SideState::empty(),
        }
    }

    /// The position at the start of a game.
    pub open spec fn initial() -> GameState {
        GameState {
            next_to_move: Side::White,
            en_passant: 0,
            white_state: SideState {
                king_side_castle: true,
                queen_side_castle: true,
                boards: [
                    0x0000_0000_0000_ff00u64,
                    0x0000_0000_0000_0081u64,
                    0x0000_0000_0000_0042u64,
                    0x0000_0000_0000_0024u64,
                    0x0000_0000_0000_0008u64,
                    0x0000_0000_0000_0010u64,
                ],
                all: 0x0000_0000_0000_ffffu64,
            },
            black_state: SideState {
                king_side_castle: true,
                queen_side_castle: true,
                boards: [
                    0x00ff_0000_0000_0000u64,
                    0x8100_0000_0000_0000u64,
                    0x4200_0000_0000_0000u64,
                    0x2400_0000_0000_0000u64,
                    0x0800_0000_0000_0000u64,
                    0x1000_0000_0000_0000u64,
                ],
                all: 0xffff_0000_0000_0000u64,
            },
        }
    }

    /// The position at the start of a game: every piece on its home
    /// square, White to move, all castling rights held.
    pub fn new_game() -> (r: GameState)
        ensures
            r == GameState::initial(),
            r.wf(),
    {
        let r = GameState {
            next_to_move: Side::White,
            en_passant: 0,
            white_state: SideState {
                king_side_castle: true,
                queen_side_castle: true,
                boards: [
                    0x0000_0000_0000_ff00u64,
                    0x0000_0000_0000_0081u64,
                    0x0000_0000_0000_0042u64,
                    0x0000_0000_0000_0024u64,
                    0x0000_0000_0000_0008u64,
                    0x0000_0000_0000_0010u64,
                ],
                all: 0x0000_0000_0000_ffffu64,
            },
            black_state: SideState {
                king_side_castle: true,
                queen_side_castle: true,
                boards: [
                    0x00ff_0000_0000_0000u64,
                    0x8100_0000_0000_0000u64,
                    0x4200_0000_0000_0000u64,
                    0x2400_0000_0000_0000u64,
                    0x0800_0000_0000_0000u64,
                    0x1000_0000_0000_0000u64,
                ],
                all: 0xffff_0000_0000_0000u64,
            },
        };
        proof {
            lemma_home_squares();
        }
        r
    }

    /// Checks that the position is well formed: each side's `all` is the
    /// union of its piece sets, no square holds two pieces, and at most one
    /// square is marked for taking in passing.
    pub fn is_well_formed(&self) -> (r: bool)
        ensures
            r == self.wf(),
    {
        broadcast use vstd::std_specs::bits::axiom_u64_trailing_zeros;

        if !self.white_state.is_well_formed() || !self.black_state.is_well_formed() {
            return false;
        }
        if self.white_state.all & self.black_state.all != 0 {
            return false;
        }
        if self.en_passant == 0 {
            return true;
        }
        let low = self.en_passant.trailing_zeros();
        let single = self.en_passant == 1u64 << low;
        proof {
            if single {
                assert(low < 64 && self.en_passant == square_bit(low));
            } else {
                assert forall|sq: u32| sq < 64 implies self.en_passant != square_bit(sq) by {
                    lemma_trailing_zeros_of_square(sq);
                }
            }
        }
        single
    }

    /// The position with no pieces, White to move.
    pub fn new_empty() -> (r: GameState)
        ensures
            r == GameState::empty(),
            r.wf(),
    {
        proof {
            lemma_or_and_basics(0, 0, 0);
        }
        GameState {
            next_to_move: Side::White,
            en_passant: 0,
            white_state: SideState::new(),
            black_state: SideState::new(),
        }
    }

    /// Hands out one side for writing.
    pub fn get_mut_side_state(&mut self, side: Side) -> (r: &mut SideState)
        ensures
            *r == old(self).side(side),
            *final(self) == match side {
                Side::White => GameState { white_state: *final(r), ..*old(self) },
                Side::Black => GameState { black_state: *final(r), ..*old(self) },
            },
    {
        match side {
            Side::White => &mut self.white_state,
            Side::Black => &mut self.black_state,
        }
    }

    /// Hands out both sides at once: first the given side, then the other.
    pub fn get_mut_sides_state(&mut self, side: Side) -> (r: (&mut SideState, &mut SideState))
        ensures
            *r.0 == old(self).side(side),
            *r.1 == old(self).side(side.spec_opposite()),
            *final(self) == match side {
                Side::White => GameState {
                    white_state: *final(r.0),
                    black_state: *final(r.1),
                    ..*old(self)
                },
                Side::Black => GameState {
                    black_state: *final(r.0),
                    white_state: *final(r.1),
                    ..*old(self)
                },
            },
    {
        match side {
            Side::White => (&mut self.white_state, &mut self.black_state),
            Side::Black => (&mut self.black_state, &mut self.white_state),
        }
    }

    /// The state of one side.
    pub fn get_side_state(&self, side: Side) -> (r: &SideState)
        ensures
            *r == self.side(side),
    {
        match side {
            Side::White => &self.white_state,
            Side::Black => &self.black_state,
        }
    }

    /// Hands out the set of one piece of one side for writing. The side's
    /// `all` is not touched.
    pub fn get_mut_board(&mut self, coord: &(Piece, Side)) -> (r: &mut BBoard)
        ensures
            *r == old(self).side(coord.1).board(coord.0),
            final(self).side(coord.1).boards@ == old(self).side(coord.1).boards@.update(
                coord.0.spec_idx() as int,
                *final(r),
            ),
            final(self).side(coord.1).all == old(self).side(coord.1).all,
            final(self).side(coord.1).king_side_castle == old(self).side(coord.1).king_side_castle,
            final(self).side(coord.1).queen_side_castle == old(self).side(
                coord.1,
            ).queen_side_castle,
            final(self).side(coord.1.spec_opposite()) == old(self).side(coord.1.spec_opposite()),
            final(self).next_to_move == old(self).next_to_move,
            final(self).en_passant == old(self).en_passant,
    {
        match coord.1 {
            Side::White => self.white_state.get_mut_board(coord.0),
            Side::Black => self.black_state.get_mut_board(coord.0),
        }
    }

    /// The set of one piece of one side.
    pub fn get_board(&self, coord: &(Piece, Side)) -> (r: BBoard)
        ensures
            r == self.side(coord.1).board(coord.0),
    {
        match coord.1 {
            Side::White => self.white_state.get_board(coord.0),
            Side::Black => self.black_state.get_board(coord.0),
        }
    }

    /// The castling rights of one side: king's side first, then queen's
    /// side.
    pub fn castle_state(&self, side: Side) -> (r: (bool, bool))
        ensures
            r == (self.side(side).king_side_castle, self.side(side).queen_side_castle),
    {
        let side_state = self.get_side_state(side);
        (side_state.king_side_castle, side_state.queen_side_castle)
    }

    /// Sets the castling rights of one side.
    pub fn set_castle_state(&mut self, side: Side, state: (bool, bool))
        ensures
            final(self).side(side) == (SideState {
                king_side_castle: state.0,
                queen_side_castle: state.1,
                ..old(self).side(side)
            }),
            final(self).side(side.spec_opposite()) == old(self).side(side.spec_opposite()),
            final(self).next_to_move == old(self).next_to_move,
            final(self).en_passant == old(self).en_passant,
    {
        match side {
            Side::White => self.white_state.set_castle_state(state),
            Side::Black => self.black_state.set_castle_state(state),
        }
    }
}

/// The home squares of the pieces overlap nowhere; each side's fill two
/// ranks.
proof fn lemma_home_squares()
    by (bit_vector)
    ensures
        0xff00u64 | 0x81u64 | 0x42u64 | 0x24u64 | 0x08u64 | 0x10u64 == 0xffffu64,
        0x00ff_0000_0000_0000u64 | 0x8100_0000_0000_0000u64 | 0x4200_0000_0000_0000u64
            | 0x2400_0000_0000_0000u64 | 0x0800_0000_0000_0000u64 | 0x1000_0000_0000_0000u64
            == 0xffff_0000_0000_0000u64,
        0xffffu64 & 0xffff_0000_0000_0000u64 == 0,
        0xff00u64 & 0x81u64 == 0,
        0xff00u64 & 0x42u64 == 0,
        0xff00u64 & 0x24u64 == 0,
        0xff00u64 & 0x08u64 == 0,
        0xff00u64 & 0x10u64 == 0,
        0x81u64 & 0x42u64 == 0,
        0x81u64 & 0x24u64 == 0,
        0x81u64 & 0x08u64 == 0,
        0x81u64 & 0x10u64 == 0,
        0x42u64 & 0x24u64 == 0,
        0x42u64 & 0x08u64 == 0,
        0x42u64 & 0x10u64 == 0,
        0x24u64 & 0x08u64 == 0,
        0x24u64 & 0x10u64 == 0,
        0x08u64 & 0x10u64 == 0,
        0x00ff_0000_0000_0000u64 & 0x8100_0000_0000_0000u64 == 0,
        0x00ff_0000_0000_0000u64 & 0x4200_0000_0000_0000u64 == 0,
        0x00ff_0000_0000_0000u64 & 0x2400_0000_0000_0000u64 == 0,
        0x00ff_0000_0000_0000u64 & 0x0800_0000_0000_0000u64 == 0,
        0x00ff_0000_0000_0000u64 & 0x1000_0000_0000_0000u64 == 0,
        0x8100_0000_0000_0000u64 & 0x4200_0000_0000_0000u64 == 0,
        0x8100_0000_0000_0000u64 & 0x2400_0000_0000_0000u64 == 0,
        0x8100_0000_0000_0000u64 & 0x0800_0000_0000_0000u64 == 0,
        0x8100_0000_0000_0000u64 & 0x1000_0000_0000_0000u64 == 0,
        0x4200_0000_0000_0000u64 & 0x2400_0000_0000_0000u64 == 0,
        0x4200_0000_0000_0000u64 & 0x0800_0000_0000_0000u64 == 0,
        0x4200_0000_0000_0000u64 & 0x1000_0000_0000_0000u64 == 0,
        0x2400_0000_0000_0000u64 & 0x0800_0000_0000_0000u64 == 0,
        0x2400_0000_0000_0000u64 & 0x1000_0000_0000_0000u64 == 0,
        0x0800_0000_0000_0000u64 & 0x1000_0000_0000_0000u64 == 0,
{
}

} // verus!

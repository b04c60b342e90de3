//! Reading and writing a position as text: the board rank by rank from the
//! eighth down, then the side to move, the castling rights and the square
//! for taking in passing.
use vstd::prelude::*;
use crate::bboard::{bb_to_coord, bit_set, coord_text, digit_char, digit_letter, square_bit};
use crate::bits::{lemma_keep_disjoint, lemma_membership, lemma_or_and_basics, lemma_square_bits};
use crate::state::{ChessError, GameState, Piece, Side, SideState};

verus! {

/// The board square that the `k`-th square of the text stands for: the
/// text runs from a8 to h8, then a7 to h7, down to h1.
pub open spec fn logical_square(k: int) -> u32 {
    ((7 - k / 8) * 8 + k % 8) as u32
}

/// The character shown for a square: the letter of the piece on it, or
/// `.` when it is empty. Where several sets claim the square, the queen
/// goes before bishop, knight, rook, pawn and king, and Black before
/// White.
#[verifier::opaque]
pub open spec fn square_glyph(p: GameState, sq: u32) -> char {
    if bit_set(p.black_state.board(Piece::Queen), sq) {
        'q'
    } else if bit_set(p.white_state.board(Piece::Queen), sq) {
        'Q'
    } else if bit_set(p.black_state.board(Piece::Bishop), sq) {
        'b'
    } else if bit_set(p.white_state.board(Piece::Bishop), sq) {
        'B'
    } else if bit_set(p.black_state.board(Piece::Knight), sq) {
        'n'
    } else if bit_set(p.white_state.board(Piece::Knight), sq) {
        'N'
    } else if bit_set(p.black_state.board(Piece::Rook), sq) {
        'r'
    } else if bit_set(p.white_state.board(Piece::Rook), sq) {
        'R'
    } else if bit_set(p.black_state.board(Piece::Pawn), sq) {
        'p'
    } else if bit_set(p.white_state.board(Piece::Pawn), sq) {
        'P'
    } else if bit_set(p.black_state.board(Piece::King), sq) {
        'k'
    } else if bit_set(p.white_state.board(Piece::King), sq) {
        'K'
    } else {
        '.'
    }
}

/// The digit for a run of empty squares; nothing for an empty run.
pub open spec fn run_text(count: int) -> Seq<char> {
    if count > 0 {
        seq![digit_char(count)]
    } else {
        Seq::empty()
    }
}

/// The board text for the first `k` squares, and the length of the run of
/// empty squares that is not written yet. A run is written before the next
/// piece and at the end of a rank; ranks but the last end with `/`.
pub open spec fn board_prefix(p: GameState, k: nat) -> (Seq<char>, int)
    decreases k,
{
    if k == 0 {
        (Seq::empty(), 0)
    } else {
        let before = board_prefix(p, (k - 1) as nat);
        let glyph = square_glyph(p, logical_square(k - 1));
        let here = if glyph == '.' {
            (before.0, before.1 + 1)
        } else {
            (before.0 + run_text(before.1) + seq![glyph], 0)
        };
        if (k - 1) % 8 == 7 {
            (
                here.0 + run_text(here.1) + if k < 64 {
                    seq!['/']
                } else {
                    Seq::empty()
                },
                0,
            )
        } else {
            here
        }
    }
}

/// The board field of a position.
pub open spec fn board_text(p: GameState) -> Seq<char> {
    board_prefix(p, 64).0
}

/// The castling field: `K`, `Q`, `k`, `q` for the rights that are held,
/// in this order.
pub open spec fn castle_text(p: GameState) -> Seq<char> {
    (if p.white_state.king_side_castle {
        seq!['K']
    } else {
        Seq::empty()
    }) + (if p.white_state.queen_side_castle {
        seq!['Q']
    } else {
        Seq::empty()
    }) + (if p.black_state.king_side_castle {
        seq!['k']
    } else {
        Seq::empty()
    }) + (if p.black_state.queen_side_castle {
        seq!['q']
    } else {
        Seq::empty()
    })
}

/// The whole text of a position: board, side, castling rights and the
/// square for taking in passing, with one space between them.
pub open spec fn fen_text(p: GameState) -> Seq<char> {
    board_text(p) + seq![' ', p.next_to_move.spec_to_char(), ' '] + castle_text(p) + seq![' ']
        + coord_text(p.en_passant)
}

/// The board as rows of characters: the first `k` squares of the text,
/// one character each, `.` for an empty square, and a line end after
/// every eighth.
pub open spec fn rows_prefix(p: GameState, k: nat) -> Seq<char>
    decreases k,
{
    if k == 0 {
        Seq::empty()
    } else if (k - 1) % 8 == 7 {
        rows_prefix(p, (k - 1) as nat).push(square_glyph(p, logical_square(k - 1))).push('\n')
    } else {
        rows_prefix(p, (k - 1) as nat).push(square_glyph(p, logical_square(k - 1)))
    }
}

/// White space as the trimming of a string understands it.
pub open spec fn is_space(c: char) -> bool {
    let n = c as u32;
    ||| 9 <= n <= 13
    ||| n == 0x20
    ||| n == 0x85
    ||| n == 0xa0
    ||| n == 0x1680
    ||| 0x2000 <= n <= 0x200a
    ||| n == 0x2028
    ||| n == 0x2029
    ||| n == 0x202f
    ||| n == 0x205f
    ||| n == 0x3000
}

/// The first position at or after `from` that holds no white space.
pub open spec fn skip_spaces(s: Seq<char>, from: int) -> int
    decreases s.len() - from,
{
    if 0 <= from < s.len() && is_space(s[from]) {
        skip_spaces(s, from + 1)
    } else {
        from
    }
}

/// The end of the text once trailing white space is dropped; never below
/// `floor`.
pub open spec fn drop_spaces(s: Seq<char>, floor: int, end: int) -> int
    decreases end - floor,
{
    if floor < end <= s.len() && is_space(s[end - 1]) {
        drop_spaces(s, floor, end - 1)
    } else {
        end
    }
}

/// A text without the white space at its two ends.
pub open spec fn trimmed(s: Seq<char>) -> Seq<char> {
    let start = skip_spaces(s, 0);
    s.subrange(start, drop_spaces(s, start, s.len() as int))
}

/// The position of the first blank at or after `from`, or the length of
/// the text when there is none.
pub open spec fn field_end(s: Seq<char>, from: int) -> int
    decreases s.len() - from,
{
    if 0 <= from < s.len() && s[from] != ' ' {
        field_end(s, from + 1)
    } else {
        from
    }
}

/// The `k`-th of the fields that single blanks separate, counted from
/// `from` on; none when the text has fewer fields.
pub open spec fn nth_field(s: Seq<char>, from: int, k: nat) -> Option<Seq<char>>
    decreases k,
{
    let end = field_end(s, from);
    if k == 0 {
        Some(s.subrange(from, end))
    } else if end < s.len() {
        nth_field(s, end + 1, (k - 1) as nat)
    } else {
        None
    }
}

/// The piece and side that a letter of the board field stands for.
pub open spec fn glyph_piece(c: char) -> Option<(Piece, Side)> {
    if (c as u32) < 128 {
        Piece::spec_from_byte(c as u8)
    } else {
        None
    }
}

/// The position with `piece` of `side` added on `sq`.
pub open spec fn put(p: GameState, piece: Piece, side: Side, sq: u32) -> GameState {
    match side {
        Side::White => GameState {
            white_state: p.white_state.spec_with(piece, square_bit(sq)),
            ..p
        },
        Side::Black => GameState {
            black_state: p.black_state.spec_with(piece, square_bit(sq)),
            ..p
        },
    }
}

/// One step of reading the board field: the number of squares passed and
/// the pieces placed so far, after one more character. `/` changes
/// nothing, a digit from 1 to 8 passes that many squares, a piece letter
/// places the piece on the next square. Any other character fails, and so
/// does any character once 64 squares are passed.
pub open spec fn board_step(scan: Option<(int, GameState)>, c: char) -> Option<(int, GameState)> {
    match scan {
        None => None,
        Some((idx, p)) => {
            if idx > 63 {
                None
            } else if c == '/' {
                Some((idx, p))
            } else if '1' <= c <= '8' {
                Some((idx + (c as int - '0' as int), p))
            } else {
                match glyph_piece(c) {
                    Some((piece, side)) => Some((idx + 1, put(p, piece, side, logical_square(idx)))),
                    None => None,
                }
            }
        },
    }
}

/// Reading the first `n` characters of a board field.
pub open spec fn board_scan(field: Seq<char>, n: nat) -> Option<(int, GameState)>
    decreases n,
{
    if n == 0 {
        Some((0, GameState::empty()))
    } else {
        board_step(board_scan(field, (n - 1) as nat), field[n - 1])
    }
}

/// The side that a side field names: by its first character.
pub open spec fn side_of(field: Seq<char>) -> Option<Side> {
    if field.len() > 0 && field[0] == 'w' {
        Some(Side::White)
    } else if field.len() > 0 && field[0] == 'b' {
        Some(Side::Black)
    } else {
        None
    }
}

/// The square that a field for taking in passing names: a file letter
/// from `a` to `h` and a rank digit from `1` to `8`. Anything else names
/// no square.
pub open spec fn passing_square(field: Seq<char>) -> u64 {
    if field.len() == 2 && 'a' <= field[0] <= 'h' && '1' <= field[1] <= '8' {
        square_bit(((field[1] as int - '1' as int) * 8 + (field[0] as int - 'a' as int)) as u32)
    } else {
        0
    }
}

/// A side with `all` set to the union of its piece sets and the given
/// castling rights.
pub open spec fn finished_side(side: SideState, king_side: bool, queen_side: bool) -> SideState {
    SideState {
        king_side_castle: king_side,
        queen_side_castle: queen_side,
        boards: side.boards,
        all: side.union(),
    }
}

/// What a text describes. The text is trimmed and split at single blanks.
/// The first field is the board. The second, if there, names the side to
/// move (White without it); the third the castling rights (none without
/// it; letters other than `KQkq` mean nothing); the fourth the square for
/// taking in passing. Further fields are not read.
pub open spec fn decode(s: Seq<char>) -> Result<GameState, ChessError> {
    let t = trimmed(s);
    let board = nth_field(t, 0, 0).unwrap();
    let side = nth_field(t, 0, 1);
    let castles = nth_field(t, 0, 2);
    let passing = nth_field(t, 0, 3);
    match board_scan(board, board.len()) {
        None => Err(ChessError::MalformedBoard),
        Some((_, placed)) => {
            if side is Some && side_of(side.unwrap()) is None {
                Err(ChessError::UnknownSide)
            } else {
                Ok(
                    GameState {
                        next_to_move: match side {
                            Some(field) => side_of(field).unwrap(),
                            None => Side::White,
                        },
                        en_passant: match passing {
                            Some(field) => passing_square(field),
                            None => 0,
                        },
                        white_state: finished_side(
                            placed.white_state,
                            castles is Some && castles.unwrap().contains('K'),
                            castles is Some && castles.unwrap().contains('Q'),
                        ),
                        black_state: finished_side(
                            placed.black_state,
                            castles is Some && castles.unwrap().contains('k'),
                            castles is Some && castles.unwrap().contains('q'),
                        ),
                    },
                )
            }
        },
    }
}

/// The characters of a string.
pub fn to_chars(s: &str) -> (v: Vec<char>)
    ensures
        v@ == s@,
{
    let mut v: Vec<char> = Vec::new();
    for c in it: s.chars()
        invariant
            v@ == it.seq().take(it.index() as int),
            it.seq() == s@,
    {
        v.push(c);
    }
    v
}

/// The code point of a character.
pub fn char_code(c: char) -> (n: u32)
    ensures
        n == c as u32,
        n as int == c as int,
{
    c as u32
}

/// Whether a character is white space.
pub fn is_space_char(c: char) -> (r: bool)
    ensures
        r == is_space(c),
{
    let n = c as u32;
    (9 <= n && n <= 13) || n == 0x20 || n == 0x85 || n == 0xa0 || n == 0x1680 || (0x2000 <= n && n
        <= 0x200a) || n == 0x2028 || n == 0x2029 || n == 0x202f || n == 0x205f || n == 0x3000
}

/// The characters of a text without the white space at its two ends.
pub fn trim_chars(chars: &Vec<char>) -> (r: Vec<char>)
    ensures
        r@ == trimmed(chars@),
{
    let n = chars.len();
    let mut start: usize = 0;
    while start < n && is_space_char(chars[start])
        invariant
            start <= n,
            n == chars.len(),
            skip_spaces(chars@, 0) == skip_spaces(chars@, start as int),
        decreases n - start,
    {
        start = start + 1;
    }
    let mut end: usize = n;
    while end > start && is_space_char(chars[end - 1])
        invariant
            start <= end <= n,
            n == chars.len(),
            drop_spaces(chars@, start as int, n as int) == drop_spaces(
                chars@,
                start as int,
                end as int,
            ),
        decreases end,
    {
        end = end - 1;
    }
    let mut r: Vec<char> = Vec::new();
    let mut i: usize = start;
    while i < end
        invariant
            start <= i <= end <= chars.len(),
            r@ == chars@.subrange(start as int, i as int),
        decreases end - i,
    {
        r.push(chars[i]);
        assert(r@ =~= chars@.subrange(start as int, i + 1));
        i = i + 1;
    }
    r
}

/// Finds the end of the field that starts at `from`.
pub fn find_field_end(chars: &Vec<char>, from: usize) -> (r: usize)
    requires
        from <= chars.len(),
    ensures
        r == field_end(chars@, from as int),
        from <= r <= chars.len(),
{
    let mut i: usize = from;
    while i < chars.len() && chars[i] != ' '
        invariant
            from <= i <= chars.len(),
            field_end(chars@, from as int) == field_end(chars@, i as int),
        decreases chars.len() - i,
    {
        i = i + 1;
    }
    i
}

/// Places a piece of a side on a square.
pub fn put_piece(p: &GameState, piece: Piece, side: Side, sq: u32) -> (r: GameState)
    requires
        sq < 64,
    ensures
        r == put(*p, piece, side, sq),
{
    match side {
        Side::White => GameState {
            next_to_move: p.next_to_move,
            en_passant: p.en_passant,
            white_state: p.white_state.with(piece, 1u64 << sq),
            black_state: p.black_state,
        },
        Side::Black => GameState {
            next_to_move: p.next_to_move,
            en_passant: p.en_passant,
            white_state: p.white_state,
            black_state: p.black_state.with(piece, 1u64 << sq),
        },
    }
}

/// Reads a board field: the characters of `chars` from `start` up to
/// `end`.
pub fn scan_board(chars: &Vec<char>, start: usize, end: usize) -> (r: Result<GameState, ChessError>)
    requires
        start <= end <= chars.len(),
    ensures
        r == match board_scan(chars@.subrange(start as int, end as int), (end - start) as nat) {
            Some((_, placed)) => Ok::<GameState, ChessError>(placed),
            None => Err(ChessError::MalformedBoard),
        },
{
    let ghost field = chars@.subrange(start as int, end as int);
    let mut state = GameState::new_empty();
    let mut idx: u32 = 0;
    let mut i: usize = start;
    while i < end
        invariant
            start <= i <= end <= chars.len(),
            field == chars@.subrange(start as int, end as int),
            idx <= 72,
            board_scan(field, (i - start) as nat) == Some((idx as int, state)),
        decreases end - i,
    {
        let c = chars[i];
        let n = char_code(c);
        assert(c == field[i - start]);
        if idx > 63 {
            proof {
                lemma_scan_stays_failed(field, (i - start + 1) as nat, (end - start) as nat);
            }
            return Err(ChessError::MalformedBoard);
        }
        if n == 0x2f {
        } else if 0x31 <= n && n <= 0x38 {
            idx = idx + (n - 0x30);
        } else {
            let found = if n < 128 {
                Piece::from_byte(&(n as u8))
            } else {
                Err(ChessError::MalformedBoard)
            };
            match found {
                Ok((piece, side)) => {
                    let x = idx % 8;
                    let y = 7 - idx / 8;
                    state = put_piece(&state, piece, side, y * 8 + x);
                    idx = idx + 1;
                },
                Err(e) => {
                    proof {
                        lemma_scan_stays_failed(field, (i - start + 1) as nat, (end - start) as nat);
                    }
                    return Err(ChessError::MalformedBoard);
                },
            }
        }
        i = i + 1;
    }
    Ok(state)
}

/// Once the reading of a board field has failed, it stays failed.
pub proof fn lemma_scan_stays_failed(field: Seq<char>, n: nat, m: nat)
    requires
        n <= m,
        board_scan(field, n) is None,
    ensures
        board_scan(field, m) is None,
    decreases m,
{
    if n < m {
        lemma_scan_stays_failed(field, n, (m - 1) as nat);
    }
}

/// Whether the characters from `start` up to `end` hold `c`.
pub fn field_contains(chars: &Vec<char>, start: usize, end: usize, c: char) -> (r: bool)
    requires
        start <= end <= chars.len(),
    ensures
        r == chars@.subrange(start as int, end as int).contains(c),
{
    let ghost field = chars@.subrange(start as int, end as int);
    let mut i: usize = start;
    while i < end
        invariant
            start <= i <= end <= chars.len(),
            field == chars@.subrange(start as int, end as int),
            forall|k: int| 0 <= k < i - start ==> field[k] != c,
        decreases end - i,
    {
        if chars[i] == c {
            assert(field[i - start] == c);
            return true;
        }
        i = i + 1;
    }
    false
}

/// Reads the square for taking in passing from the characters from
/// `start` up to `end`.
pub fn scan_passing(chars: &Vec<char>, start: usize, end: usize) -> (r: u64)
    requires
        start <= end <= chars.len(),
    ensures
        r == passing_square(chars@.subrange(start as int, end as int)),
{
    let ghost field = chars@.subrange(start as int, end as int);
    if end - start != 2 {
        return 0;
    }
    let file = char_code(chars[start]);
    let rank = char_code(chars[start + 1]);
    assert(field[0] == chars@[start as int] && field[1] == chars@[start + 1]);
    if 0x61 <= file && file <= 0x68 && 0x31 <= rank && rank <= 0x38 {
        1u64 << ((rank - 0x31) * 8 + (file - 0x61))
    } else {
        0
    }
}

impl GameState {
    /// The character shown for a square.
    pub fn glyph_at(&self, sq: u32) -> (c: char)
        requires
            sq < 64,
        ensures
            c == square_glyph(*self, sq),
    {
        proof {
            reveal(square_glyph);
        }
        let b = 1u64 << sq;
        let w = &self.white_state.boards;
        let k = &self.black_state.boards;
        if k[4] & b != 0 {
            'q'
        } else if w[4] & b != 0 {
            'Q'
        } else if k[3] & b != 0 {
            'b'
        } else if w[3] & b != 0 {
            'B'
        } else if k[2] & b != 0 {
            'n'
        } else if w[2] & b != 0 {
            'N'
        } else if k[1] & b != 0 {
            'r'
        } else if w[1] & b != 0 {
            'R'
        } else if k[0] & b != 0 {
            'p'
        } else if w[0] & b != 0 {
            'P'
        } else if k[5] & b != 0 {
            'k'
        } else if w[5] & b != 0 {
            'K'
        } else {
            '.'
        }
    }

    /// Draws the board: eight lines of eight characters, the eighth rank
    /// first, a piece's letter or `.` for each square.
    pub fn board_rows(&self) -> (r: String)
        ensures
            r@ == rows_prefix(*self, 64),
    {
        let mut result = String::new();
        let mut k: u32 = 0;
        while k < 64
            invariant
                k <= 64,
                result@ == rows_prefix(*self, k as nat),
            decreases 64 - k,
        {
            let x = k % 8;
            let y = 7 - k / 8;
            result.push(self.glyph_at(y * 8 + x));
            if x == 7 {
                result.push('\n');
            }
            k = k + 1;
        }
        result
    }

    /// Writes the position as text. The text of a well-formed position
    /// reads back as that position.
    pub fn to_fen(&self) -> (r: String)
        ensures
            r@ == fen_text(*self),
            self.wf() ==> decode(r@) == Ok::<GameState, ChessError>(*self),
    {
        proof {
            if self.wf() {
                crate::fen_laws::lemma_decode_fen_text(*self);
            }
        }
        let mut result = String::new();
        let mut count: u32 = 0;
        let mut k: u32 = 0;
        while k < 64
            invariant
                k <= 64,
                0 <= count <= k % 8,
                board_prefix(*self, k as nat) == (result@, count as int),
            decreases 64 - k,
        {
            let x = k % 8;
            let y = 7 - k / 8;
            let glyph = self.glyph_at(y * 8 + x);
            let ghost before = result@;
            if glyph == '.' {
                count = count + 1;
            } else {
                if count > 0 {
                    result.push(digit_letter(count));
                    count = 0;
                }
                result.push(glyph);
            }
            if x == 7 {
                if count > 0 {
                    result.push(digit_letter(count));
                }
                count = 0;
                if k < 63 {
                    result.push('/');
                }
            }
            assert(board_prefix(*self, (k + 1) as nat).0 =~= result@);
            k = k + 1;
        }
        let ghost board = result@;
        result.push(' ');
        result.push(self.next_to_move.to_char());
        result.push(' ');
        let castle = self.castle_string();
        result.append(castle.as_str());
        result.push(' ');
        let passing = self.en_passant_string();
        result.append(passing.as_str());
        assert(result@ =~= fen_text(*self));
        result
    }

    /// The castling field of the position's text.
    pub fn castle_string(&self) -> (r: String)
        ensures
            r@ == castle_text(*self),
    {
        let mut castle = String::new();
        let wc = self.castle_state(Side::White);
        let bc = self.castle_state(Side::Black);
        if wc.0 {
            castle.push('K');
        }
        if wc.1 {
            castle.push('Q');
        }
        if bc.0 {
            castle.push('k');
        }
        if bc.1 {
            castle.push('q');
        }
        assert(castle@ =~= castle_text(*self));
        castle
    }

    /// The field for taking in passing of the position's text.
    pub fn en_passant_string(&self) -> (r: String)
        ensures
            r@ == coord_text(self.en_passant),
    {
        bb_to_coord(self.en_passant)
    }

    /// Reads a position from text. A board field with a character that is
    /// no piece letter, digit from 1 to 8 or `/`, or with characters left
    /// after 64 squares, is refused as malformed; a side field that does
    /// not start with `w` or `b` is refused as an unknown side.
    pub fn from_fen(fen: &str) -> (r: Result<GameState, ChessError>)
        ensures
            r == decode(fen@),
            r matches Ok(p) ==> p.wf(),
    {
        proof {
            lemma_decode_wf(fen@);
        }
        let all = to_chars(fen);
        let chars = trim_chars(&all);
        let n = chars.len();
        let ghost t = chars@;
        let board_end = find_field_end(&chars, 0);
        let placed = match scan_board(&chars, 0, board_end) {
            Ok(placed) => placed,
            Err(e) => {
                return Err(ChessError::MalformedBoard);
            },
        };
        let mut side = Side::White;
        let mut rights = (false, false, false, false);
        let mut passing: u64 = 0;
        if board_end < n {
            let side_start = board_end + 1;
            let side_end = find_field_end(&chars, side_start);
            assert(nth_field(t, 0, 1) == Some(t.subrange(side_start as int, side_end as int))) by {
                reveal_with_fuel(nth_field, 2);
            }
            if side_end == side_start {
                return Err(ChessError::UnknownSide);
            }
            let first = char_code(chars[side_start]);
            assert(t.subrange(side_start as int, side_end as int)[0] == chars@[side_start as int]);
            if first == 0x77 {
                side = Side::White;
            } else if first == 0x62 {
                side = Side::Black;
            } else {
                return Err(ChessError::UnknownSide);
            }
            if side_end < n {
                let castle_start = side_end + 1;
                let castle_end = find_field_end(&chars, castle_start);
                assert(nth_field(t, 0, 2) == Some(
                    t.subrange(castle_start as int, castle_end as int),
                )) by {
                    reveal_with_fuel(nth_field, 3);
                }
                rights = (
                    field_contains(&chars, castle_start, castle_end, 'K'),
                    field_contains(&chars, castle_start, castle_end, 'Q'),
                    field_contains(&chars, castle_start, castle_end, 'k'),
                    field_contains(&chars, castle_start, castle_end, 'q'),
                );
                if castle_end < n {
                    let passing_start = castle_end + 1;
                    let passing_end = find_field_end(&chars, passing_start);
                    assert(nth_field(t, 0, 3) == Some(
                        t.subrange(passing_start as int, passing_end as int),
                    )) by {
                        reveal_with_fuel(nth_field, 4);
                    }
                    passing = scan_passing(&chars, passing_start, passing_end);
                } else {
                    assert(nth_field(t, 0, 3) is None) by {
                        reveal_with_fuel(nth_field, 4);
                    }
                }
            } else {
                assert(nth_field(t, 0, 2) is None && nth_field(t, 0, 3) is None) by {
                    reveal_with_fuel(nth_field, 4);
                }
            }
        } else {
            assert(nth_field(t, 0, 1) is None && nth_field(t, 0, 2) is None && nth_field(t, 0, 3)
                is None) by {
                reveal_with_fuel(nth_field, 4);
            }
        }
        let mut white = placed.white_state;
        let mut black = placed.black_state;
        white.set_castle_state((rights.0, rights.1));
        black.set_castle_state((rights.2, rights.3));
        black.update();
        white.update();
        let r = GameState {
            next_to_move: side,
            en_passant: passing,
            white_state: white,
            black_state: black,
        };
        assert(white == finished_side(placed.white_state, rights.0, rights.1));
        assert(black == finished_side(placed.black_state, rights.2, rights.3));
        Ok(r)
    }
}

/// The state of a board field read half way is sound: both sides are well
/// formed, they share no square, and no square from the `idx`-th on is
/// occupied.
pub open spec fn scan_sound(idx: int, p: GameState) -> bool {
    &&& 0 <= idx
    &&& p.white_state.wf()
    &&& p.black_state.wf()
    &&& p.white_state.all & p.black_state.all == 0
    &&& forall|k: int|
        idx <= k < 64 ==> !bit_set(p.white_state.all, #[trigger] logical_square(k)) && !bit_set(
            p.black_state.all,
            logical_square(k),
        )
}

/// Reading a board field keeps the state sound.
pub proof fn lemma_board_scan_sound(field: Seq<char>, n: nat)
    ensures
        board_scan(field, n) matches Some((idx, p)) ==> scan_sound(idx, p),
    decreases n,
{
    if n == 0 {
        lemma_or_and_basics(0, 0, 0);
        assert forall|k: int| 0 <= k < 64 implies !bit_set(0, #[trigger] logical_square(k)) by {
            lemma_or_and_basics(square_bit(logical_square(k)), 0, 0);
        }
    } else {
        lemma_board_scan_sound(field, (n - 1) as nat);
        let c = field[n - 1];
        match board_scan(field, (n - 1) as nat) {
            None => {},
            Some((idx, p)) => {
                if idx <= 63 && c != '/' && !('1' <= c <= '8') {
                    match glyph_piece(c) {
                        None => {},
                        Some((piece, side)) => {
                            let sq = logical_square(idx);
                            let t = square_bit(sq);
                            let w = p.white_state.all;
                            let b = p.black_state.all;
                            let next = put(p, piece, side, sq);
                            lemma_membership(w, w, sq);
                            lemma_membership(b, b, sq);
                            lemma_or_and_basics(w, b, t);
                            lemma_or_and_basics(b, t, 0);
                            lemma_or_and_basics(w, t, 0);
                            assert(w & t == 0 && b & t == 0);
                            match side {
                                Side::White => {
                                    p.white_state.lemma_with_wf(piece, t);
                                    lemma_keep_disjoint(w, b, 0, t);
                                },
                                Side::Black => {
                                    p.black_state.lemma_with_wf(piece, t);
                                    lemma_keep_disjoint(b, w, 0, t);
                                },
                            }
                            assert forall|k: int| idx + 1 <= k < 64 implies !bit_set(
                                next.white_state.all,
                                #[trigger] logical_square(k),
                            ) && !bit_set(next.black_state.all, logical_square(k)) by {
                                let q = logical_square(k);
                                lemma_membership(w, t, q);
                                lemma_membership(b, t, q);
                                lemma_square_bits(sq, q);
                            }
                        },
                    }
                }
            },
        }
    }
}

/// Every position that a text describes is well formed.
pub proof fn lemma_decode_wf(s: Seq<char>)
    ensures
        decode(s) matches Ok(p) ==> p.wf(),
{
    let t = trimmed(s);
    let board = nth_field(t, 0, 0).unwrap();
    lemma_board_scan_sound(board, board.len());
    match decode(s) {
        Ok(p) => {
            let passing = nth_field(t, 0, 3);
            if passing is Some && p.en_passant != 0 {
                let field = passing.unwrap();
                let sq = ((field[1] as int - '1' as int) * 8 + (field[0] as int - 'a' as int)) as u32;
                assert(p.en_passant == square_bit(sq));
            }
        },
        Err(_) => {},
    }
}

} // verus!

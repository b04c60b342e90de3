//! Writing a position and reading the text again gives the position back.
use vstd::prelude::*;
use crate::bboard::{bit_set, coord_text, digit_char, file_char, square_bit};
use crate::bits::{
    lemma_membership, lemma_or_and_basics, lemma_set_clear_membership, lemma_sets_equal,
    lemma_square_bits, lemma_trailing_zeros_of_square, lemma_union_of_six,
};
use crate::fen::{
    board_prefix, board_scan, board_step, board_text, castle_text, decode, drop_spaces,
    fen_text, field_end, finished_side, glyph_piece, is_space, logical_square, nth_field,
    passing_square, put, run_text, side_of, skip_spaces, square_glyph, trimmed,
};
use crate::state::{ChessError, GameState, Piece, Side, SideState};

verus! {

/// Whether the piece of the side stands on the square.
pub open spec fn holds(p: GameState, piece: Piece, side: Side, sq: u32) -> bool {
    bit_set(p.side(side).board(piece), sq)
}

/// A character that may stand in a board field.
pub open spec fn board_char(c: char) -> bool {
    c == '/' || '1' <= c <= '8' || glyph_piece(c) is Some
}

/// The pieces of `p` on the first `k` squares of the text, placed one by
/// one on an empty board.
pub open spec fn restricted(p: GameState, k: nat) -> GameState
    decreases k,
{
    if k == 0 {
        GameState::empty()
    } else {
        let before = restricted(p, (k - 1) as nat);
        match glyph_piece(square_glyph(p, logical_square(k - 1))) {
            Some((piece, side)) => put(before, piece, side, logical_square(k - 1)),
            None => before,
        }
    }
}

/// A set holds every square of its side, and a side's squares are not
/// the other side's.
proof fn lemma_one_side(p: GameState, piece: Piece, side: Side, sq: u32)
    requires
        p.wf(),
        sq < 64,
        holds(p, piece, side, sq),
    ensures
        bit_set(p.side(side).all, sq),
        !bit_set(p.side(side.spec_opposite()).all, sq),
{
    let own = p.side(side);
    let b = own.boards;
    let t = square_bit(sq);
    lemma_membership(own.board(piece), own.board(piece), sq);
    lemma_union_of_six(b[0], b[1], b[2], b[3], b[4], b[5], t);
    lemma_membership(own.all, own.all, sq);
    lemma_square_bits(sq, sq);
    lemma_membership(p.white_state.all, p.black_state.all, sq);
    lemma_set_clear_membership(0, sq, sq);
}

/// On a well-formed board at most one piece stands on a square.
pub proof fn lemma_at_most_one(p: GameState, x1: Piece, s1: Side, x2: Piece, s2: Side, sq: u32)
    requires
        p.wf(),
        sq < 64,
        holds(p, x1, s1, sq),
        holds(p, x2, s2, sq),
    ensures
        x1 == x2,
        s1 == s2,
{
    lemma_one_side(p, x1, s1, sq);
    lemma_one_side(p, x2, s2, sq);
    assert(s1 == s2);
    let own = p.side(s1);
    let i = x1.spec_idx() as int;
    let j = x2.spec_idx() as int;
    lemma_membership(own.boards[i], own.boards[j], sq);
    lemma_membership(own.boards[j], own.boards[i], sq);
    lemma_set_clear_membership(0, sq, sq);
    if i < j {
        assert(own.boards[i] & own.boards[j] == 0);
    } else if j < i {
        assert(own.boards[j] & own.boards[i] == 0);
    }
}

/// The character shown for a square names the piece that stands on it.
pub proof fn lemma_glyph_names_piece(p: GameState, sq: u32)
    requires
        sq < 64,
    ensures
        square_glyph(p, sq) != '/',
        square_glyph(p, sq) != ' ',
        !('1' <= square_glyph(p, sq) <= '8'),
        !is_space(square_glyph(p, sq)),
        square_glyph(p, sq) == '.' ==> glyph_piece(square_glyph(p, sq)) is None && forall|
            x: Piece,
            s: Side,
        | !holds(p, x, s, sq),
        square_glyph(p, sq) != '.' ==> glyph_piece(square_glyph(p, sq)) is Some && holds(
            p,
            glyph_piece(square_glyph(p, sq)).unwrap().0,
            glyph_piece(square_glyph(p, sq)).unwrap().1,
            sq,
        ),
{
    reveal(square_glyph);
    let g = square_glyph(p, sq);
    if g == '.' {
        assert forall|x: Piece, s: Side| !holds(p, x, s, sq) by {
            match s {
                Side::White => {
                    match x {
                        Piece::Pawn => {},
                        Piece::Rook => {},
                        Piece::Knight => {},
                        Piece::Bishop => {},
                        Piece::Queen => {},
                        Piece::King => {},
                    }
                },
                Side::Black => {
                    match x {
                        Piece::Pawn => {},
                        Piece::Rook => {},
                        Piece::Knight => {},
                        Piece::Bishop => {},
                        Piece::Queen => {},
                        Piece::King => {},
                    }
                },
            }
        }
    }
}

/// A piece of `p` stands on the restricted board exactly when its square
/// is among the first `k` of the text.
pub proof fn lemma_restricted_holds(p: GameState, k: nat, x: Piece, s: Side, sq: u32)
    requires
        p.wf(),
        k <= 64,
        sq < 64,
    ensures
        holds(restricted(p, k), x, s, sq) <==> holds(p, x, s, sq) && logical_square(sq as int)
            < k,
    decreases k,
{
    if k == 0 {
        lemma_set_clear_membership(0, sq, sq);
    } else {
        let j = (k - 1) as nat;
        let at = logical_square(j as int);
        let before = restricted(p, j);
        lemma_restricted_holds(p, j, x, s, sq);
        lemma_glyph_names_piece(p, at);
        lemma_square_bits(at, sq);
        match glyph_piece(square_glyph(p, at)) {
            Some((piece, side)) => {
                lemma_set_clear_membership(before.side(s).board(x), at, sq);
                if holds(p, x, s, at) {
                    lemma_at_most_one(p, x, s, piece, side, at);
                }
            },
            None => {},
        }
    }
}

/// With every square of the text placed, the restricted board has the
/// sets of `p`.
pub proof fn lemma_restricted_all(p: GameState, side: Side)
    requires
        p.wf(),
    ensures
        restricted(p, 64).side(side).boards == p.side(side).boards,
{
    let r = restricted(p, 64).side(side);
    let o = p.side(side);
    assert forall|i: int| 0 <= i < 6 implies r.boards[i] == o.boards[i] by {
        let x = if i == 0 {
            Piece::Pawn
        } else if i == 1 {
            Piece::Rook
        } else if i == 2 {
            Piece::Knight
        } else if i == 3 {
            Piece::Bishop
        } else if i == 4 {
            Piece::Queen
        } else {
            Piece::King
        };
        assert forall|sq: u32| sq < 64 implies ((r.boards[i] & (1u64 << sq) != 0) <==> (
        o.boards[i] & (1u64 << sq) != 0)) by {
            lemma_restricted_holds(p, 64, x, side, sq);
        }
        lemma_sets_equal(r.boards[i], o.boards[i]);
    }
    assert(r.boards =~= o.boards);
}

/// Reading the first `n` characters looks at nothing beyond them.
pub proof fn lemma_scan_prefix(f1: Seq<char>, f2: Seq<char>, n: nat)
    requires
        n <= f1.len(),
        n <= f2.len(),
        forall|i: int| 0 <= i < n ==> f1[i] == f2[i],
    ensures
        board_scan(f1, n) == board_scan(f2, n),
    decreases n,
{
    if n > 0 {
        lemma_scan_prefix(f1, f2, (n - 1) as nat);
    }
}

/// Reading a text with one more character is one more step.
pub proof fn lemma_scan_push(text: Seq<char>, c: char)
    ensures
        board_scan(text.push(c), text.len() + 1) == board_step(
            board_scan(text, text.len()),
            c,
        ),
{
    lemma_scan_prefix(text, text.push(c), text.len());
}

/// Reading on over the digit of a run of empty squares passes the run.
proof fn lemma_scan_run(text: Seq<char>, count: int, idx: int, st: GameState)
    requires
        board_scan(text, text.len()) == Some((idx, st)),
        0 <= count <= 8,
        count > 0 ==> idx <= 63,
        all_board_chars(text),
    ensures
        board_scan(text + run_text(count), (text + run_text(count)).len()) == Some(
            (idx + count, st),
        ),
        all_board_chars(text + run_text(count)),
{
    if count > 0 {
        lemma_scan_push(text, digit_char(count));
        assert(text + run_text(count) =~= text.push(digit_char(count)));
    } else {
        assert(text + run_text(count) =~= text);
    }
}

/// Every character of the text may stand in a board field.
pub open spec fn all_board_chars(text: Seq<char>) -> bool {
    forall|i: int| 0 <= i < text.len() ==> board_char(#[trigger] text[i])
}

/// A character of a board field is no blank and no white space.
pub proof fn lemma_board_char_not_space(c: char)
    requires
        board_char(c),
    ensures
        c != ' ',
        !is_space(c),
{
}

/// A text of board characters stays one when a board character is added.
proof fn lemma_push_board_char(text: Seq<char>, c: char)
    requires
        all_board_chars(text),
        board_char(c),
    ensures
        all_board_chars(text.push(c)),
{
}

/// Reading on over a piece letter places the piece on the next square.
proof fn lemma_scan_glyph(text: Seq<char>, idx: int, st: GameState, glyph: char)
    requires
        board_scan(text, text.len()) == Some((idx, st)),
        idx <= 63,
        glyph != '/',
        !('1' <= glyph <= '8'),
        glyph_piece(glyph) is Some,
        all_board_chars(text),
    ensures
        board_scan(text.push(glyph), text.len() + 1) == Some(
            (
                idx + 1,
                put(
                    st,
                    glyph_piece(glyph).unwrap().0,
                    glyph_piece(glyph).unwrap().1,
                    logical_square(idx),
                ),
            ),
        ),
        all_board_chars(text.push(glyph)),
{
    lemma_scan_push(text, glyph);
    lemma_push_board_char(text, glyph);
}

/// The text and the unwritten run after one more square.
pub open spec fn after_square(before: (Seq<char>, int), glyph: char) -> (Seq<char>, int) {
    if glyph == '.' {
        (before.0, before.1 + 1)
    } else {
        (before.0 + run_text(before.1) + seq![glyph], 0)
    }
}

/// The text after the end of a rank is written.
pub open spec fn after_rank(here: (Seq<char>, int), k: int) -> Seq<char> {
    here.0 + run_text(here.1) + if k < 64 {
        seq!['/']
    } else {
        Seq::empty()
    }
}

/// Reading on over what one square adds to the text.
proof fn lemma_scan_square(
    text: Seq<char>,
    pending: int,
    j: int,
    st: GameState,
    glyph: char,
)
    requires
        0 <= j < 64,
        board_scan(text, text.len()) == Some((j - pending, st)),
        0 <= pending <= j % 8,
        all_board_chars(text),
        glyph != '/',
        !('1' <= glyph <= '8'),
        glyph == '.' ==> glyph_piece(glyph) is None,
        glyph != '.' ==> glyph_piece(glyph) is Some,
    ensures
        board_scan(after_square((text, pending), glyph).0, after_square((text, pending), glyph).0.len())
            == Some(
            (
                j + 1 - after_square((text, pending), glyph).1,
                match glyph_piece(glyph) {
                    Some((piece, side)) => put(st, piece, side, logical_square(j)),
                    None => st,
                },
            ),
        ),
        0 <= after_square((text, pending), glyph).1 <= j % 8 + 1,
        all_board_chars(after_square((text, pending), glyph).0),
        after_square((text, pending), glyph).0.len() >= text.len(),
{
    if glyph != '.' {
        lemma_scan_run(text, pending, j - pending, st);
        let t1 = text + run_text(pending);
        lemma_scan_glyph(t1, j, st, glyph);
        assert(after_square((text, pending), glyph).0 =~= t1.push(glyph));
    }
}

/// Reading on over what the end of a rank adds to the text.
proof fn lemma_scan_rank_end(text: Seq<char>, pending: int, k: int, st: GameState)
    requires
        1 <= k <= 64,
        board_scan(text, text.len()) == Some((k - pending, st)),
        0 <= pending <= 8,
        all_board_chars(text),
    ensures
        board_scan(after_rank((text, pending), k), after_rank((text, pending), k).len()) == Some(
            (k, st),
        ),
        all_board_chars(after_rank((text, pending), k)),
        after_rank((text, pending), k).len() >= text.len(),
        k < 64 ==> after_rank((text, pending), k).len() > 0,
{
    lemma_scan_run(text, pending, k - pending, st);
    let t2 = text + run_text(pending);
    if k < 64 {
        lemma_scan_push(t2, '/');
        lemma_push_board_char(t2, '/');
        assert(after_rank((text, pending), k) =~= t2.push('/'));
    } else {
        assert(after_rank((text, pending), k) =~= t2);
    }
}

/// Reading the board text of the first `k` squares passes those squares,
/// less the run that is not written yet, and places their pieces.
pub proof fn lemma_scan_of_prefix(p: GameState, k: nat)
    requires
        p.wf(),
        k <= 64,
    ensures
        board_scan(board_prefix(p, k).0, board_prefix(p, k).0.len()) == Some(
            (k - board_prefix(p, k).1, restricted(p, k)),
        ),
        0 <= board_prefix(p, k).1 <= k % 8,
        all_board_chars(board_prefix(p, k).0),
        k >= 8 ==> board_prefix(p, k).0.len() > 0,
    decreases k,
{
    if k > 0 {
        let j = (k - 1) as nat;
        lemma_scan_of_prefix(p, j);
        let before = board_prefix(p, j);
        let glyph = square_glyph(p, logical_square(j as int));
        lemma_glyph_names_piece(p, logical_square(j as int));
        lemma_scan_square(before.0, before.1, j as int, restricted(p, j), glyph);
        let here = after_square(before, glyph);
        if j % 8 == 7 {
            lemma_scan_rank_end(here.0, here.1, k as int, restricted(p, k));
            assert(board_prefix(p, k) == (after_rank(here, k as int), 0int));
        } else {
            assert(board_prefix(p, k) == here);
        }
    }
}

/// A field runs up to the first blank.
pub proof fn lemma_field_end(t: Seq<char>, start: int, end: int)
    requires
        0 <= start <= end <= t.len(),
        forall|i: int| start <= i < end ==> t[i] != ' ',
        end == t.len() || t[end] == ' ',
    ensures
        field_end(t, start) == end,
    decreases end - start,
{
    if start < end {
        lemma_field_end(t, start + 1, end);
    }
}

/// The castling field tells each right.
pub proof fn lemma_castle_text(p: GameState)
    ensures
        castle_text(p).contains('K') <==> p.white_state.king_side_castle,
        castle_text(p).contains('Q') <==> p.white_state.queen_side_castle,
        castle_text(p).contains('k') <==> p.black_state.king_side_castle,
        castle_text(p).contains('q') <==> p.black_state.queen_side_castle,
        castle_text(p).len() <= 4,
        forall|i: int| 0 <= i < castle_text(p).len() ==> castle_text(p)[i] != ' ',
{
    let c = castle_text(p);
    let a: Seq<char> = if p.white_state.king_side_castle {
        seq!['K']
    } else {
        Seq::empty()
    };
    let b: Seq<char> = if p.white_state.queen_side_castle {
        seq!['Q']
    } else {
        Seq::empty()
    };
    let d: Seq<char> = if p.black_state.king_side_castle {
        seq!['k']
    } else {
        Seq::empty()
    };
    let e: Seq<char> = if p.black_state.queen_side_castle {
        seq!['q']
    } else {
        Seq::empty()
    };
    assert(c == a + b + d + e);
    if p.white_state.king_side_castle {
        assert(c[0] == 'K');
    }
    if p.white_state.queen_side_castle {
        assert(c[a.len() as int] == 'Q');
    }
    if p.black_state.king_side_castle {
        assert(c[(a.len() + b.len()) as int] == 'k');
    }
    if p.black_state.queen_side_castle {
        assert(c[(a.len() + b.len() + d.len()) as int] == 'q');
    }
}

/// The name of at most one square is read back as that square.
pub proof fn lemma_passing_square(b: u64)
    requires
        b == 0 || exists|sq: u32| sq < 64 && b == square_bit(sq),
    ensures
        passing_square(coord_text(b)) == b,
        1 <= coord_text(b).len() <= 2,
        forall|i: int| 0 <= i < coord_text(b).len() ==> coord_text(b)[i] != ' ' && !is_space(
            coord_text(b)[i],
        ),
{
    if b != 0 {
        let sq = choose|sq: u32| sq < 64 && b == square_bit(sq);
        lemma_trailing_zeros_of_square(sq);
        let x = (sq % 8) as int;
        let y = (sq / 8) as int;
        assert(coord_text(b) =~= seq![file_char(x), digit_char(y + 1)]);
        assert(file_char(x) as int - 'a' as int == x);
        assert(digit_char(y + 1) as int - '1' as int == y);
    }
}

/// The fields of a text put together from a board, a side letter, a
/// castling field and a field for taking in passing.
pub proof fn lemma_fields_of_text(board: Seq<char>, side: char, castle: Seq<char>, passing: Seq<char>)
    requires
        board.len() > 0,
        forall|i: int| 0 <= i < board.len() ==> board[i] != ' ' && !is_space(board[i]),
        side != ' ',
        forall|i: int| 0 <= i < castle.len() ==> castle[i] != ' ',
        passing.len() > 0,
        forall|i: int| 0 <= i < passing.len() ==> passing[i] != ' ' && !is_space(passing[i]),
    ensures
        trimmed(board + seq![' ', side, ' '] + castle + seq![' '] + passing) == board + seq![
            ' ',
            side,
            ' ',
        ] + castle + seq![' '] + passing,
        nth_field(board + seq![' ', side, ' '] + castle + seq![' '] + passing, 0, 0) == Some(
            board,
        ),
        nth_field(board + seq![' ', side, ' '] + castle + seq![' '] + passing, 0, 1) == Some(
            seq![side],
        ),
        nth_field(board + seq![' ', side, ' '] + castle + seq![' '] + passing, 0, 2) == Some(
            castle,
        ),
        nth_field(board + seq![' ', side, ' '] + castle + seq![' '] + passing, 0, 3) == Some(
            passing,
        ),
{
    let t = board + seq![' ', side, ' '] + castle + seq![' '] + passing;
    let n0 = board.len() as int;
    let n1 = n0 + 3;
    let n2 = n1 + castle.len();
    let n3 = n2 + 1;
    let n = t.len() as int;
    assert(n == n3 + passing.len());
    assert forall|i: int| 0 <= i < n0 implies t[i] == board[i] by {}
    assert(t[n0] == ' ' && t[n0 + 1] == side && t[n0 + 2] == ' ');
    assert forall|i: int| n1 <= i < n2 implies t[i] == castle[i - n1] by {}
    assert(t[n2] == ' ');
    assert forall|i: int| n3 <= i < n implies t[i] == passing[i - n3] by {}
    assert(!is_space(t[0]));
    assert(!is_space(t[n - 1]));
    assert(skip_spaces(t, 0) == 0);
    assert(drop_spaces(t, 0, n) == n);
    assert(trimmed(t) =~= t);
    lemma_field_end(t, 0, n0);
    lemma_field_end(t, n0 + 1, n0 + 2);
    lemma_field_end(t, n1, n2);
    lemma_field_end(t, n3, n);
    reveal_with_fuel(nth_field, 4);
    assert(t.subrange(0, n0) =~= board);
    assert(t.subrange(n0 + 1, n0 + 2) =~= seq![side]);
    assert(t.subrange(n1, n2) =~= castle);
    assert(t.subrange(n3, n) =~= passing);
}

/// Reading the board text of a well-formed position places its pieces.
pub proof fn lemma_scan_board_text(p: GameState)
    requires
        p.wf(),
    ensures
        board_text(p).len() > 0,
        forall|i: int|
            0 <= i < board_text(p).len() ==> board_text(p)[i] != ' ' && !is_space(board_text(p)[i]),
        board_scan(board_text(p), board_text(p).len()) matches Some((_, placed))
            && placed.white_state.boards == p.white_state.boards && placed.black_state.boards
            == p.black_state.boards,
{
    lemma_scan_of_prefix(p, 64);
    lemma_restricted_all(p, Side::White);
    lemma_restricted_all(p, Side::Black);
    assert forall|i: int| 0 <= i < board_text(p).len() implies board_text(p)[i] != ' '
        && !is_space(board_text(p)[i]) by {
        lemma_board_char_not_space(board_text(p)[i]);
    }
}

/// Reading the text of a well-formed position gives the position back.
pub proof fn lemma_decode_fen_text(p: GameState)
    requires
        p.wf(),
    ensures
        decode(fen_text(p)) == Ok::<GameState, ChessError>(p),
{
    let board = board_text(p);
    let castle = castle_text(p);
    let passing = coord_text(p.en_passant);
    let letter = p.next_to_move.spec_to_char();
    lemma_scan_board_text(p);
    lemma_castle_text(p);
    lemma_passing_square(p.en_passant);
    lemma_fields_of_text(board, letter, castle, passing);
    assert(side_of(seq![letter]) == Some(p.next_to_move));
    let placed = board_scan(board, board.len()).unwrap().1;
    assert(finished_side(
        placed.white_state,
        p.white_state.king_side_castle,
        p.white_state.queen_side_castle,
    ) == p.white_state);
    assert(finished_side(
        placed.black_state,
        p.black_state.king_side_castle,
        p.black_state.queen_side_castle,
    ) == p.black_state);
}

} // verus!

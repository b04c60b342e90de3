//! Square sets: a 64-bit word in which bit `file + 8 * rank` stands for one
//! square of the board.
use vstd::prelude::*;

verus! {

/// A set of squares, one bit per square; bit `x + 8 * y` is file `x`, rank `y`.
pub type BBoard = u64;

/// The set that holds exactly the square with index `sq`.
pub open spec fn square_bit(sq: u32) -> u64
    recommends
        sq < 64,
{
    1u64 << sq
}

/// Whether `(x, y)` names a square of the board.
pub open spec fn on_board(x: int, y: int) -> bool {
    0 <= x < 8 && 0 <= y < 8
}

/// The set that holds the square at file `x`, rank `y`; empty when the
/// coordinates are off the board.
pub open spec fn coord_bit(x: int, y: int) -> u64 {
    if on_board(x, y) {
        square_bit((x + 8 * y) as u32)
    } else {
        0
    }
}

/// Whether square `sq` is a member of `b`.
pub open spec fn bit_set(b: u64, sq: u32) -> bool
    recommends
        sq < 64,
{
    b & square_bit(sq) != 0
}

/// The single-square set for file `x`, rank `y`, or the empty set when the
/// coordinates are off the board.
pub fn bb_coord(x: u32, y: u32) -> (r: BBoard)
    ensures
        r == coord_bit(x as int, y as int),
{
    if x > 7 || y > 7 {
        0
    } else {
        1u64 << (x + y * 8)
    }
}

/// The single-square set for square index `sq`.
pub fn bb_square(sq: u32) -> (r: BBoard)
    requires
        sq < 64,
    ensures
        r == square_bit(sq),
{
    1u64 << sq
}

/// Tests membership of square `sq`.
pub fn bb_has(b: BBoard, sq: u32) -> (r: bool)
    requires
        sq < 64,
    ensures
        r == bit_set(b, sq),
{
    b & (1u64 << sq) != 0
}

/// The letter of file `x`.
pub open spec fn file_char(x: int) -> char {
    if x == 0 {
        'a'
    } else if x == 1 {
        'b'
    } else if x == 2 {
        'c'
    } else if x == 3 {
        'd'
    } else if x == 4 {
        'e'
    } else if x == 5 {
        'f'
    } else if x == 6 {
        'g'
    } else {
        'h'
    }
}

/// The decimal digit for `n`, meant for `0 <= n <= 9`.
pub open spec fn digit_char(n: int) -> char {
    if n == 0 {
        '0'
    } else if n == 1 {
        '1'
    } else if n == 2 {
        '2'
    } else if n == 3 {
        '3'
    } else if n == 4 {
        '4'
    } else if n == 5 {
        '5'
    } else if n == 6 {
        '6'
    } else if n == 7 {
        '7'
    } else if n == 8 {
        '8'
    } else {
        '9'
    }
}

/// Algebraic name of a square set: the name of its lowest square (file
/// letter, then rank digit), or `-` for the empty set.
pub open spec fn coord_text(b: u64) -> Seq<char> {
    if b == 0 {
        seq!['-']
    } else {
        let sq = vstd::std_specs::bits::u64_trailing_zeros(b) as int;
        seq![file_char(sq % 8), digit_char(sq / 8 + 1)]
    }
}

/// The letter of file `x`, `a` to `h`.
pub fn file_letter(x: u32) -> (c: char)
    requires
        x < 8,
    ensures
        c == file_char(x as int),
{
    if x == 0 {
        'a'
    } else if x == 1 {
        'b'
    } else if x == 2 {
        'c'
    } else if x == 3 {
        'd'
    } else if x == 4 {
        'e'
    } else if x == 5 {
        'f'
    } else if x == 6 {
        'g'
    } else {
        'h'
    }
}

/// The decimal digit for `n`.
pub fn digit_letter(n: u32) -> (c: char)
    requires
        n <= 9,
    ensures
        c == digit_char(n as int),
{
    if n == 0 {
        '0'
    } else if n == 1 {
        '1'
    } else if n == 2 {
        '2'
    } else if n == 3 {
        '3'
    } else if n == 4 {
        '4'
    } else if n == 5 {
        '5'
    } else if n == 6 {
        '6'
    } else if n == 7 {
        '7'
    } else if n == 8 {
        '8'
    } else {
        '9'
    }
}

/// `String::push` of the standard library: the string afterwards is the
/// string before with the character added at its end.
pub assume_specification[ String::push ](s: &mut String, c: char)
    ensures
        final(s)@ == old(s)@.push(c),
;

/// Writes a square set in algebraic notation: the lowest square's name, or
/// `-` when the set is empty.
pub fn bb_to_coord(b: BBoard) -> (s: String)
    ensures
        s@ == coord_text(b),
{
    broadcast use vstd::std_specs::bits::axiom_u64_trailing_zeros;

    let mut s = String::new();
    if b == 0 {
        s.push('-');
    } else {
        let sq: u32 = b.trailing_zeros();
        s.push(file_letter(sq % 8));
        s.push(digit_letter(sq / 8 + 1));
    }
    assert(s@ =~= coord_text(b));
    s
}

/// How many of the squares below `n` are in `b`.
pub open spec fn count_below(b: u64, n: nat) -> nat
    decreases n,
{
    if n == 0 {
        0
    } else {
        count_below(b, (n - 1) as nat) + if bit_set(b, (n - 1) as u32) {
            1nat
        } else {
            0nat
        }
    }
}

/// The number of squares in `b`.
pub open spec fn bit_count(b: u64) -> nat {
    count_below(b, 64)
}

/// Counts the squares of a set.
pub fn pop_count(b: BBoard) -> (n: u32)
    ensures
        n == bit_count(b),
        n <= 64,
{
    let mut n: u32 = 0;
    let mut i: u32 = 0;
    while i < 64
        invariant
            i <= 64,
            n == count_below(b, i as nat),
            n <= i,
        decreases 64 - i,
    {
        if b & (1u64 << i) != 0 {
            n = n + 1;
        }
        i = i + 1;
    }
    n
}

} // verus!

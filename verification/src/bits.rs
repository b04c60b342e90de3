//! Facts about 64-bit square sets that the default solver cannot see by
//! itself. Each lemma is discharged by the bit-vector solver.
use vstd::prelude::*;
use vstd::std_specs::bits::{axiom_u64_trailing_zeros, u64_trailing_zeros};

verus! {

/// Basic algebra of `|` and `&` on square sets.
pub proof fn lemma_or_and_basics(a: u64, b: u64, c: u64)
    by (bit_vector)
    ensures
        a | 0 == a,
        0 | a == a,
        a & 0 == 0,
        0 & a == 0,
        a | a == a,
        a | b == b | a,
        a & b == b & a,
        (a | b) | c == a | (b | c),
        (a | b) & c == (a & c) | (b & c),
        a & !0u64 == a,
        (a | b == 0) <==> (a == 0 && b == 0),
{
}

/// A single square's bit is never zero, and two squares share a bit only
/// when they are the same square.
pub proof fn lemma_square_bits(s: u32, t: u32)
    by (bit_vector)
    requires
        s < 64,
        t < 64,
    ensures
        1u64 << s != 0,
        ((1u64 << s) & (1u64 << t) != 0) <==> s == t,
        (1u64 << s) == (1u64 << t) <==> s == t,
{
}

/// Membership of square `t` after adding or removing square `s`.
pub proof fn lemma_set_clear_membership(b: u64, s: u32, t: u32)
    by (bit_vector)
    requires
        s < 64,
        t < 64,
    ensures
        ((b | (1u64 << s)) & (1u64 << t) != 0) <==> (b & (1u64 << t) != 0 || s == t),
        ((b & !(1u64 << s)) & (1u64 << t) != 0) <==> (b & (1u64 << t) != 0 && s != t),
        0u64 & (1u64 << t) == 0,
{
}

/// What a set that contains `b | r` knows of `b` and of `r`.
pub proof fn lemma_superset_of_union(m: u64, b: u64, r: u64, occ: u64)
    by (bit_vector)
    requires
        m & (b | r) == (b | r),
    ensures
        m & b == b,
        m & r == r,
        (occ & m) & b == occ & b,
{
}

/// A union of four sets contains each of them.
pub proof fn lemma_union_of_four(a: u64, b: u64, c: u64, d: u64)
    by (bit_vector)
    ensures
        (a | b | c | d) & a == a,
        (a | b | c | d) & b == b,
        (a | b | c | d) & c == c,
        (a | b | c | d) & d == d,
{
}

/// Cutting a set down to a mask gives a subset of the mask, and a subset
/// of a mask is left alone by the cut.
pub proof fn lemma_masked_subset(occ: u64, m: u64)
    by (bit_vector)
    ensures
        (occ & m) & !m == 0,
        (occ & m) & m == occ & m,
        occ & !m == 0 ==> occ & m == occ && occ <= m,
{
}

/// The step from one subset `s` of a mask `m` to the next larger one: it
/// does not overflow, stays inside the mask, grows, and passes over no
/// subset `t` that lies above `s`.
pub proof fn lemma_next_subset(m: u64, s: u64, t: u64)
    by (bit_vector)
    requires
        s & !m == 0,
        s != m,
    ensures
        (s | !m) < 0xffff_ffff_ffff_ffffu64,
        ((((s | !m) + 1) as u64) & m) & !m == 0,
        ((((s | !m) + 1) as u64) & m) > s,
        t & !m == 0 && t > s ==> t >= ((((s | !m) + 1) as u64) & m),
{
}

/// The upper `bits` bits of a word, moved down, stay below `2^bits`.
pub proof fn lemma_top_bits_bound(v: u64, bits: u32)
    by (bit_vector)
    requires
        1 <= bits <= 12,
    ensures
        (v >> ((64 - bits) as u32)) < (1u64 << bits),
        (1u64 << bits) <= 4096,
        (1u64 << bits) >= 2,
{
}

/// Emptying squares `v` in each of six sets empties them in the union.
pub proof fn lemma_clear_union(b0: u64, b1: u64, b2: u64, b3: u64, b4: u64, b5: u64, v: u64)
    by (bit_vector)
    ensures
        ((b0 & !v) | (b1 & !v) | (b2 & !v) | (b3 & !v) | (b4 & !v) | (b5 & !v)) == (b0 | b1 | b2
            | b3 | b4 | b5) & !v,
{
}

/// Adding squares `t` to any one of six sets adds them to the union, and
/// squares outside the union are outside each set.
pub proof fn lemma_add_union(b0: u64, b1: u64, b2: u64, b3: u64, b4: u64, b5: u64, t: u64)
    by (bit_vector)
    ensures
        ((b0 | t) | b1 | b2 | b3 | b4 | b5) == (b0 | b1 | b2 | b3 | b4 | b5) | t,
        (b0 | (b1 | t) | b2 | b3 | b4 | b5) == (b0 | b1 | b2 | b3 | b4 | b5) | t,
        (b0 | b1 | (b2 | t) | b3 | b4 | b5) == (b0 | b1 | b2 | b3 | b4 | b5) | t,
        (b0 | b1 | b2 | (b3 | t) | b4 | b5) == (b0 | b1 | b2 | b3 | b4 | b5) | t,
        (b0 | b1 | b2 | b3 | (b4 | t) | b5) == (b0 | b1 | b2 | b3 | b4 | b5) | t,
        (b0 | b1 | b2 | b3 | b4 | (b5 | t)) == (b0 | b1 | b2 | b3 | b4 | b5) | t,
        (b0 | b1 | b2 | b3 | b4 | b5) & t == 0 ==> b0 & t == 0 && b1 & t == 0 && b2 & t == 0 && b3
            & t == 0 && b4 & t == 0 && b5 & t == 0,
{
}

/// Two sets without a common square stay so when squares are emptied in
/// both, or when squares that are in neither are added to one.
pub proof fn lemma_keep_disjoint(a: u64, b: u64, v: u64, t: u64)
    by (bit_vector)
    requires
        a & b == 0,
    ensures
        (a & !v) & (b & !v) == 0,
        (a & !v) & b == 0,
        b & t == 0 ==> (a | t) & b == 0 && b & (a | t) == 0,
{
}

/// Membership of one square in an intersection, a union and a complement.
pub proof fn lemma_membership(x: u64, y: u64, sq: u32)
    by (bit_vector)
    requires
        sq < 64,
    ensures
        ((x & y) & (1u64 << sq) != 0) <==> (x & (1u64 << sq) != 0 && y & (1u64 << sq) != 0),
        ((x | y) & (1u64 << sq) != 0) <==> (x & (1u64 << sq) != 0 || y & (1u64 << sq) != 0),
        ((!x) & (1u64 << sq) != 0) <==> !(x & (1u64 << sq) != 0),
        (x & (1u64 << sq) != 0) <==> (x & (1u64 << sq) == (1u64 << sq)),
        (1u64 << sq) & x == x & (1u64 << sq),
{
}

/// After a move the two sides still share no square: the mover's squares
/// `a` lose `f` and gain `t` (and, when castling, lose `rf` and gain
/// `rt`), the other side's squares `b` lose `v`.
pub proof fn lemma_sides_stay_apart(a: u64, b: u64, f: u64, t: u64, rf: u64, rt: u64, v: u64)
    by (bit_vector)
    requires
        a & b == 0,
        v == t || t & b == 0,
        rt & b == 0,
    ensures
        ((a & !f) | t) & (b & !v) == 0,
        ((((a & !f) | t) & !rf) | rt) & (b & !v) == 0,
{
}

/// The only bit of a single-square set is at the square's index.
pub proof fn lemma_bit_position(sq: u32, t: u64)
    by (bit_vector)
    requires
        sq < 64,
        t < 64,
        ((1u64 << sq) >> t) & 1u64 == 1u64,
    ensures
        t == sq,
{
}

/// A single-square set has as many trailing zeros as the square's index.
pub proof fn lemma_trailing_zeros_of_square(sq: u32)
    requires
        sq < 64,
    ensures
        u64_trailing_zeros(1u64 << sq) == sq,
{
    let b = 1u64 << sq;
    lemma_square_bits(sq, sq);
    axiom_u64_trailing_zeros(b);
    lemma_bit_position(sq, u64_trailing_zeros(b) as u64);
}

/// What leaves and what arrives when a set `a` that holds `f` and not `t`
/// gives up `f` and takes `t`.
pub proof fn lemma_move_difference(a: u64, f: u64, t: u64)
    by (bit_vector)
    requires
        a & f == f,
        a & t == 0,
    ensures
        a & !((a & !f) | t) == f,
        ((a & !f) | t) & !a == t,
        t != 0 ==> ((a & !f) | t) != a,
        ((a & !f) | t) & t == t,
{
}

/// Emptying squares that a set does not hold changes nothing.
pub proof fn lemma_clear_absent(x: u64, f: u64, t: u64)
    by (bit_vector)
    requires
        x & f == 0,
    ensures
        x & !f == x,
        x & t == 0 ==> (x & !f) & t == 0 && (x | f) & t == f & t,
{
}

/// Each of six sets lies in their union, and so does every part of one.
pub proof fn lemma_union_of_six(b0: u64, b1: u64, b2: u64, b3: u64, b4: u64, b5: u64, f: u64)
    by (bit_vector)
    ensures
        b0 & f == f || b1 & f == f || b2 & f == f || b3 & f == f || b4 & f == f || b5 & f == f ==> (
        b0 | b1 | b2 | b3 | b4 | b5) & f == f,
{
}

/// Where two sets differ, some square is in one and not in the other.
pub proof fn lemma_differing_square(a: u64, b: u64, t: u64)
    by (bit_vector)
    requires
        t < 64,
        ((a ^ b) >> t) & 1u64 == 1u64,
    ensures
        (a & (1u64 << t) != 0) != (b & (1u64 << t) != 0),
        (1u64 << t) == (1u64 << (t as u32)),
{
}

/// Two sets with no square in one and not in the other are equal.
pub proof fn lemma_no_difference(a: u64, b: u64)
    by (bit_vector)
    ensures
        a ^ b == 0 ==> a == b,
{
}

/// Two sets with the same squares are the same set.
pub proof fn lemma_sets_equal(a: u64, b: u64)
    requires
        forall|sq: u32| sq < 64 ==> ((a & (1u64 << sq) != 0) <==> (b & (1u64 << sq) != 0)),
    ensures
        a == b,
{
    let x = a ^ b;
    lemma_no_difference(a, b);
    if x != 0 {
        axiom_u64_trailing_zeros(x);
        let t = u64_trailing_zeros(x);
        lemma_differing_square(a, b, t as u64);
        assert((a & (1u64 << t) != 0) != (b & (1u64 << t) != 0));
    }
}

/// A square is in a union of eight sets when it is in one of them.
pub proof fn lemma_membership_of_eight(
    a: u64,
    b: u64,
    c: u64,
    d: u64,
    e: u64,
    f: u64,
    g: u64,
    h: u64,
    sq: u32,
)
    by (bit_vector)
    requires
        sq < 64,
    ensures
        ((a | b | c | d | e | f | g | h) & (1u64 << sq) != 0) <==> (a & (1u64 << sq) != 0 || b & (
        1u64 << sq) != 0 || c & (1u64 << sq) != 0 || d & (1u64 << sq) != 0 || e & (1u64 << sq)
            != 0 || f & (1u64 << sq) != 0 || g & (1u64 << sq) != 0 || h & (1u64 << sq) != 0),
{
}

/// A set bit, seen by shifting, is a member square.
pub proof fn lemma_shifted_bit(z: u64, t: u64)
    by (bit_vector)
    requires
        t < 64,
        (z >> t) & 1u64 == 1u64,
    ensures
        z & (1u64 << t) != 0,
        (1u64 << t) == (1u64 << (t as u32)),
{
}

/// Two sets meet exactly when some square is in both.
pub proof fn lemma_sets_meet(x: u64, y: u64)
    ensures
        x & y != 0 <==> exists|sq: u32|
            sq < 64 && #[trigger] (x & (1u64 << sq)) != 0 && y & (1u64 << sq) != 0,
{
    let z = x & y;
    if z != 0 {
        axiom_u64_trailing_zeros(z);
        let t = u64_trailing_zeros(z);
        lemma_shifted_bit(z, t as u64);
        lemma_membership(x, y, t);
        assert((x & (1u64 << t)) != 0 && y & (1u64 << t) != 0);
    } else {
        assert forall|sq: u32| sq < 64 implies !(#[trigger] (x & (1u64 << sq)) != 0 && y & (1u64
            << sq) != 0) by {
            lemma_membership(x, y, sq);
            lemma_set_clear_membership(0, sq, sq);
        }
    }
}

} // verus!

//! Where each kind of piece attacks: the leapers by fixed offsets, the
//! sliders by walking their rays until something stands in the way.
use vstd::prelude::*;
use crate::bboard::{coord_bit, on_board, BBoard};
use crate::bits::{lemma_or_and_basics, lemma_superset_of_union, lemma_union_of_four};
use crate::state::Side;

verus! {

/// File of a square, `0` for the a-file.
pub open spec fn file_of(sq: u32) -> int {
    (sq % 8) as int
}

/// Rank of a square, `0` for the first rank.
pub open spec fn rank_of(sq: u32) -> int {
    (sq / 8) as int
}

/// The square `dx` files and `dy` ranks away from `sq`, as a set; empty
/// when that leaves the board.
pub open spec fn offset_bit(sq: u32, dx: int, dy: int) -> u64 {
    coord_bit(file_of(sq) + dx, rank_of(sq) + dy)
}

/// The squares a knight on `sq` attacks.
pub open spec fn knight_attacks(sq: u32) -> u64 {
    offset_bit(sq, 1, 2) | offset_bit(sq, 2, 1) | offset_bit(sq, 2, -1) | offset_bit(sq, 1, -2)
        | offset_bit(sq, -1, -2) | offset_bit(sq, -2, -1) | offset_bit(sq, -2, 1) | offset_bit(
        sq,
        -1,
        2,
    )
}

/// The squares a king on `sq` attacks.
pub open spec fn king_attacks(sq: u32) -> u64 {
    offset_bit(sq, 1, 0) | offset_bit(sq, 1, 1) | offset_bit(sq, 0, 1) | offset_bit(sq, -1, 1)
        | offset_bit(sq, -1, 0) | offset_bit(sq, -1, -1) | offset_bit(sq, 0, -1) | offset_bit(
        sq,
        1,
        -1,
    )
}

/// The direction in which a side's pawns walk: up the ranks for White,
/// down for Black.
pub open spec fn pawn_direction(side: Side) -> int {
    match side {
        Side::White => 1,
        Side::Black => -1,
    }
}

/// The two squares a pawn of `side` on `sq` attacks.
pub open spec fn pawn_attacks(side: Side, sq: u32) -> u64 {
    offset_bit(sq, -1, pawn_direction(side)) | offset_bit(sq, 1, pawn_direction(side))
}

/// The squares seen from `(x, y)` along direction `(dx, dy)` within
/// `steps` steps: every square up to and including the first one that is
/// in `occ`, or up to the edge of the board.
pub open spec fn ray(x: int, y: int, dx: int, dy: int, occ: u64, steps: nat) -> u64
    decreases steps,
{
    if steps == 0 || !on_board(x + dx, y + dy) {
        0
    } else if occ & coord_bit(x + dx, y + dy) != 0 {
        coord_bit(x + dx, y + dy)
    } else {
        coord_bit(x + dx, y + dy) | ray(x + dx, y + dy, dx, dy, occ, (steps - 1) as nat)
    }
}

/// The squares along direction `(dx, dy)` from `(x, y)` whose occupancy
/// can shorten the ray: all but the last one before the edge.
pub open spec fn ray_inner(x: int, y: int, dx: int, dy: int, steps: nat) -> u64
    decreases steps,
{
    if steps == 0 || !on_board(x + dx, y + dy) || !on_board(x + 2 * dx, y + 2 * dy) {
        0
    } else {
        coord_bit(x + dx, y + dy) | ray_inner(x + dx, y + dy, dx, dy, (steps - 1) as nat)
    }
}

/// The squares a rook on `sq` attacks when `occ` is occupied.
pub open spec fn rook_attacks(sq: u32, occ: u64) -> u64 {
    ray(file_of(sq), rank_of(sq), 1, 0, occ, 7) | ray(file_of(sq), rank_of(sq), -1, 0, occ, 7)
        | ray(file_of(sq), rank_of(sq), 0, 1, occ, 7) | ray(
        file_of(sq),
        rank_of(sq),
        0,
        -1,
        occ,
        7,
    )
}

/// The squares a bishop on `sq` attacks when `occ` is occupied.
pub open spec fn bishop_attacks(sq: u32, occ: u64) -> u64 {
    ray(file_of(sq), rank_of(sq), 1, 1, occ, 7) | ray(file_of(sq), rank_of(sq), -1, 1, occ, 7)
        | ray(file_of(sq), rank_of(sq), 1, -1, occ, 7) | ray(
        file_of(sq),
        rank_of(sq),
        -1,
        -1,
        occ,
        7,
    )
}

/// The squares a queen on `sq` attacks: a rook's and a bishop's together.
pub open spec fn queen_attacks(sq: u32, occ: u64) -> u64 {
    rook_attacks(sq, occ) | bishop_attacks(sq, occ)
}

/// The squares whose occupancy decides a rook's attacks from `sq`.
pub open spec fn rook_mask(sq: u32) -> u64 {
    ray_inner(file_of(sq), rank_of(sq), 1, 0, 7) | ray_inner(file_of(sq), rank_of(sq), -1, 0, 7)
        | ray_inner(file_of(sq), rank_of(sq), 0, 1, 7) | ray_inner(
        file_of(sq),
        rank_of(sq),
        0,
        -1,
        7,
    )
}

/// The squares whose occupancy decides a bishop's attacks from `sq`.
pub open spec fn bishop_mask(sq: u32) -> u64 {
    ray_inner(file_of(sq), rank_of(sq), 1, 1, 7) | ray_inner(file_of(sq), rank_of(sq), -1, 1, 7)
        | ray_inner(file_of(sq), rank_of(sq), 1, -1, 7) | ray_inner(
        file_of(sq),
        rank_of(sq),
        -1,
        -1,
        7,
    )
}

/// A ray sees the same squares when the occupancy is cut down to any set
/// that contains the ray's inner squares.
pub proof fn lemma_ray_masked(x: int, y: int, dx: int, dy: int, occ: u64, m: u64, steps: nat)
    requires
        m & ray_inner(x, y, dx, dy, steps) == ray_inner(x, y, dx, dy, steps),
    ensures
        ray(x, y, dx, dy, occ, steps) == ray(x, y, dx, dy, occ & m, steps),
    decreases steps,
{
    if steps == 0 || !on_board(x + dx, y + dy) {
    } else {
        let b = coord_bit(x + dx, y + dy);
        let rest = (steps - 1) as nat;
        lemma_or_and_basics(b, 0, 0);
        if rest == 0 || !on_board(x + 2 * dx, y + 2 * dy) {
            assert(ray(x + dx, y + dy, dx, dy, occ, rest) == 0);
            assert(ray(x + dx, y + dy, dx, dy, occ & m, rest) == 0);
        } else {
            let inner = ray_inner(x + dx, y + dy, dx, dy, rest);
            lemma_superset_of_union(m, b, inner, occ);
            lemma_ray_masked(x + dx, y + dy, dx, dy, occ, m, rest);
        }
    }
}

/// A rook's attacks depend on the occupancy of its mask alone.
pub proof fn lemma_rook_attacks_masked(sq: u32, occ: u64)
    ensures
        rook_attacks(sq, occ) == rook_attacks(sq, occ & rook_mask(sq)),
{
    let x = file_of(sq);
    let y = rank_of(sq);
    let m = rook_mask(sq);
    lemma_union_of_four(
        ray_inner(x, y, 1, 0, 7),
        ray_inner(x, y, -1, 0, 7),
        ray_inner(x, y, 0, 1, 7),
        ray_inner(x, y, 0, -1, 7),
    );
    lemma_ray_masked(x, y, 1, 0, occ, m, 7);
    lemma_ray_masked(x, y, -1, 0, occ, m, 7);
    lemma_ray_masked(x, y, 0, 1, occ, m, 7);
    lemma_ray_masked(x, y, 0, -1, occ, m, 7);
}

/// A bishop's attacks depend on the occupancy of its mask alone.
pub proof fn lemma_bishop_attacks_masked(sq: u32, occ: u64)
    ensures
        bishop_attacks(sq, occ) == bishop_attacks(sq, occ & bishop_mask(sq)),
{
    let x = file_of(sq);
    let y = rank_of(sq);
    let m = bishop_mask(sq);
    lemma_union_of_four(
        ray_inner(x, y, 1, 1, 7),
        ray_inner(x, y, -1, 1, 7),
        ray_inner(x, y, 1, -1, 7),
        ray_inner(x, y, -1, -1, 7),
    );
    lemma_ray_masked(x, y, 1, 1, occ, m, 7);
    lemma_ray_masked(x, y, -1, 1, occ, m, 7);
    lemma_ray_masked(x, y, 1, -1, occ, m, 7);
    lemma_ray_masked(x, y, -1, -1, occ, m, 7);
}

/// The square `dx` files and `dy` ranks away from `sq`, or the empty set
/// when that leaves the board.
pub fn shifted_square(sq: u32, dx: i32, dy: i32) -> (r: BBoard)
    requires
        sq < 64,
        -8 <= dx <= 8,
        -8 <= dy <= 8,
    ensures
        r == offset_bit(sq, dx as int, dy as int),
{
    let x: i32 = (sq % 8) as i32 + dx;
    let y: i32 = (sq / 8) as i32 + dy;
    if x < 0 || x > 7 || y < 0 || y > 7 {
        0
    } else {
        1u64 << ((x + 8 * y) as u32)
    }
}

/// Computes a knight's attacks from `sq`.
pub fn knight_scan(sq: u32) -> (r: BBoard)
    requires
        sq < 64,
    ensures
        r == knight_attacks(sq),
{
    shifted_square(sq, 1, 2) | shifted_square(sq, 2, 1) | shifted_square(sq, 2, -1)
        | shifted_square(sq, 1, -2) | shifted_square(sq, -1, -2) | shifted_square(sq, -2, -1)
        | shifted_square(sq, -2, 1) | shifted_square(sq, -1, 2)
}

/// Computes a king's attacks from `sq`.
pub fn king_scan(sq: u32) -> (r: BBoard)
    requires
        sq < 64,
    ensures
        r == king_attacks(sq),
{
    shifted_square(sq, 1, 0) | shifted_square(sq, 1, 1) | shifted_square(sq, 0, 1)
        | shifted_square(sq, -1, 1) | shifted_square(sq, -1, 0) | shifted_square(sq, -1, -1)
        | shifted_square(sq, 0, -1) | shifted_square(sq, 1, -1)
}

/// Computes the attacks of a pawn of `side` from `sq`.
pub fn pawn_scan(side: Side, sq: u32) -> (r: BBoard)
    requires
        sq < 64,
    ensures
        r == pawn_attacks(side, sq),
{
    let dy: i32 = match side {
        Side::White => 1,
        Side::Black => -1,
    };
    shifted_square(sq, -1, dy) | shifted_square(sq, 1, dy)
}

/// Walks one ray from `sq` and collects what it sees.
pub fn scan_ray(sq: u32, dx: i32, dy: i32, occ: BBoard) -> (r: BBoard)
    requires
        sq < 64,
        -1 <= dx <= 1,
        -1 <= dy <= 1,
    ensures
        r == ray(file_of(sq), rank_of(sq), dx as int, dy as int, occ, 7),
{
    let mut x: i32 = (sq % 8) as i32;
    let mut y: i32 = (sq / 8) as i32;
    let mut seen: u64 = 0;
    let mut steps: u32 = 7;
    proof {
        lemma_or_and_basics(ray(x as int, y as int, dx as int, dy as int, occ, 7), 0, 0);
    }
    while steps > 0
        invariant
            -1 <= dx <= 1,
            -1 <= dy <= 1,
            on_board(x as int, y as int),
            steps <= 7,
            ray(file_of(sq), rank_of(sq), dx as int, dy as int, occ, 7) == seen | ray(
                x as int,
                y as int,
                dx as int,
                dy as int,
                occ,
                steps as nat,
            ),
        decreases steps,
    {
        let nx = x + dx;
        let ny = y + dy;
        if nx < 0 || nx > 7 || ny < 0 || ny > 7 {
            proof {
                lemma_or_and_basics(seen, 0, 0);
            }
            return seen;
        }
        let b = 1u64 << ((nx + 8 * ny) as u32);
        assert(b == coord_bit(nx as int, ny as int));
        if occ & b != 0 {
            return seen | b;
        }
        proof {
            lemma_or_and_basics(
                seen,
                b,
                ray(nx as int, ny as int, dx as int, dy as int, occ, (steps - 1) as nat),
            );
        }
        seen = seen | b;
        x = nx;
        y = ny;
        steps = steps - 1;
    }
    proof {
        lemma_or_and_basics(seen, 0, 0);
    }
    seen
}

/// Walks one ray from `sq` over an empty board and collects every square
/// but the last.
pub fn scan_ray_inner(sq: u32, dx: i32, dy: i32) -> (r: BBoard)
    requires
        sq < 64,
        -1 <= dx <= 1,
        -1 <= dy <= 1,
    ensures
        r == ray_inner(file_of(sq), rank_of(sq), dx as int, dy as int, 7),
{
    let mut x: i32 = (sq % 8) as i32;
    let mut y: i32 = (sq / 8) as i32;
    let mut seen: u64 = 0;
    let mut steps: u32 = 7;
    proof {
        lemma_or_and_basics(ray_inner(x as int, y as int, dx as int, dy as int, 7), 0, 0);
    }
    while steps > 0
        invariant
            -1 <= dx <= 1,
            -1 <= dy <= 1,
            on_board(x as int, y as int),
            steps <= 7,
            ray_inner(file_of(sq), rank_of(sq), dx as int, dy as int, 7) == seen | ray_inner(
                x as int,
                y as int,
                dx as int,
                dy as int,
                steps as nat,
            ),
        decreases steps,
    {
        let nx = x + dx;
        let ny = y + dy;
        let fx = nx + dx;
        let fy = ny + dy;
        if nx < 0 || nx > 7 || ny < 0 || ny > 7 || fx < 0 || fx > 7 || fy < 0 || fy > 7 {
            proof {
                lemma_or_and_basics(seen, 0, 0);
            }
            return seen;
        }
        let b = 1u64 << ((nx + 8 * ny) as u32);
        assert(b == coord_bit(nx as int, ny as int));
        proof {
            lemma_or_and_basics(
                seen,
                b,
                ray_inner(nx as int, ny as int, dx as int, dy as int, (steps - 1) as nat),
            );
        }
        seen = seen | b;
        x = nx;
        y = ny;
        steps = steps - 1;
    }
    proof {
        lemma_or_and_basics(seen, 0, 0);
    }
    seen
}

/// A rook's attacks from `sq`, found by walking its four rays.
pub fn rook_scan(sq: u32, occ: BBoard) -> (r: BBoard)
    requires
        sq < 64,
    ensures
        r == rook_attacks(sq, occ),
{
    scan_ray(sq, 1, 0, occ) | scan_ray(sq, -1, 0, occ) | scan_ray(sq, 0, 1, occ) | scan_ray(
        sq,
        0,
        -1,
        occ,
    )
}

/// A bishop's attacks from `sq`, found by walking its four rays.
pub fn bishop_scan(sq: u32, occ: BBoard) -> (r: BBoard)
    requires
        sq < 64,
    ensures
        r == bishop_attacks(sq, occ),
{
    scan_ray(sq, 1, 1, occ) | scan_ray(sq, -1, 1, occ) | scan_ray(sq, 1, -1, occ) | scan_ray(
        sq,
        -1,
        -1,
        occ,
    )
}

/// The squares whose occupancy matters to a rook on `sq`.
pub fn rook_mask_scan(sq: u32) -> (r: BBoard)
    requires
        sq < 64,
    ensures
        r == rook_mask(sq),
{
    scan_ray_inner(sq, 1, 0) | scan_ray_inner(sq, -1, 0) | scan_ray_inner(sq, 0, 1)
        | scan_ray_inner(sq, 0, -1)
}

/// The squares whose occupancy matters to a bishop on `sq`.
pub fn bishop_mask_scan(sq: u32) -> (r: BBoard)
    requires
        sq < 64,
    ensures
        r == bishop_mask(sq),
{
    scan_ray_inner(sq, 1, 1) | scan_ray_inner(sq, -1, 1) | scan_ray_inner(sq, 1, -1)
        | scan_ray_inner(sq, -1, -1)
}

} // verus!

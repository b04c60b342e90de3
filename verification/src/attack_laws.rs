//! Attacks seen from both ends: a square is attacked, as the test from the
//! square outwards finds it, exactly when some piece of the attacker
//! stands where its own attack set holds the square.
use vstd::prelude::*;
use crate::bboard::{bit_set, coord_bit, on_board, square_bit};
use crate::bits::{
    lemma_membership, lemma_membership_of_eight, lemma_or_and_basics, lemma_set_clear_membership,
    lemma_sets_meet, lemma_square_bits,
};
use crate::piece_moves::{
    bishop_attacks, file_of, king_attacks, knight_attacks, offset_bit, pawn_attacks,
    pawn_direction, queen_attacks, rank_of, ray, rook_attacks,
};
use crate::rules::{is_attacked, piece_attacks};
use crate::state::{GameState, Piece, Side};

verus! {

/// Whether some piece of side `by` stands on a square from which it
/// attacks `sq`.
pub open spec fn attacks_square(p: GameState, by: Side, sq: u32) -> bool {
    exists|piece: Piece, from: u32|
        from < 64 && #[trigger] bit_set(p.side(by).board(piece), from) && bit_set(
            piece_attacks(piece, by, from, p.occupancy()),
            sq,
        )
}

/// Whether `(tx, ty)` lies `m` steps from `(x, y)` in direction
/// `(dx, dy)`, on the board, with every square between the two empty.
pub open spec fn reach(x: int, y: int, dx: int, dy: int, occ: u64, m: nat, tx: int, ty: int)
    -> bool
    decreases m,
{
    if m == 0 {
        x == tx && y == ty
    } else {
        on_board(x + dx, y + dy) && (m == 1 || occ & coord_bit(x + dx, y + dy) == 0) && reach(
            x + dx,
            y + dy,
            dx,
            dy,
            occ,
            (m - 1) as nat,
            tx,
            ty,
        )
    }
}

/// The square with the given coordinates is the square with their index.
proof fn lemma_coords(t: u32)
    requires
        t < 64,
    ensures
        on_board(file_of(t), rank_of(t)),
        coord_bit(file_of(t), rank_of(t)) == square_bit(t),
{
}

/// Membership of a square in the set of one neighbour by offset.
proof fn lemma_offset_member(sq: u32, dx: int, dy: int, t: u32)
    requires
        sq < 64,
        t < 64,
        -8 <= dx <= 8,
        -8 <= dy <= 8,
    ensures
        bit_set(offset_bit(sq, dx, dy), t) <==> file_of(t) == file_of(sq) + dx && rank_of(t)
            == rank_of(sq) + dy,
{
    let x = file_of(sq) + dx;
    let y = rank_of(sq) + dy;
    if on_board(x, y) {
        lemma_square_bits((x + 8 * y) as u32, t);
    } else {
        lemma_set_clear_membership(0, t, t);
    }
}

/// A square seen along a ray lies some steps away with nothing between.
proof fn lemma_ray_to_reach(x: int, y: int, dx: int, dy: int, occ: u64, n: nat, t: u32) -> (m:
    nat)
    requires
        t < 64,
        bit_set(ray(x, y, dx, dy, occ, n), t),
    ensures
        1 <= m <= n,
        reach(x, y, dx, dy, occ, m, file_of(t), rank_of(t)),
    decreases n,
{
    lemma_set_clear_membership(0, t, t);
    let nx = x + dx;
    let ny = y + dy;
    let b = coord_bit(nx, ny);
    assert(n > 0 && on_board(nx, ny));
    lemma_square_bits((nx + 8 * ny) as u32, t);
    if occ & b != 0 {
        assert(reach(nx, ny, dx, dy, occ, 0, file_of(t), rank_of(t)));
        1
    } else {
        let rest = ray(nx, ny, dx, dy, occ, (n - 1) as nat);
        lemma_membership(b, rest, t);
        if bit_set(b, t) {
            assert(reach(nx, ny, dx, dy, occ, 0, file_of(t), rank_of(t)));
            1
        } else {
            let further = lemma_ray_to_reach(nx, ny, dx, dy, occ, (n - 1) as nat, t);
            further + 1
        }
    }
}

/// A square some steps away with nothing between is seen along the ray.
proof fn lemma_reach_to_ray(x: int, y: int, dx: int, dy: int, occ: u64, n: nat, m: nat, t: u32)
    requires
        t < 64,
        1 <= m <= n,
        reach(x, y, dx, dy, occ, m, file_of(t), rank_of(t)),
    ensures
        bit_set(ray(x, y, dx, dy, occ, n), t),
    decreases m,
{
    let nx = x + dx;
    let ny = y + dy;
    let b = coord_bit(nx, ny);
    let rest = ray(nx, ny, dx, dy, occ, (n - 1) as nat);
    lemma_square_bits(t, t);
    lemma_membership(b, rest, t);
    if m == 1 {
        assert(reach(nx, ny, dx, dy, occ, 0, file_of(t), rank_of(t)));
        assert(b == square_bit(t));
    } else {
        lemma_reach_to_ray(nx, ny, dx, dy, occ, (n - 1) as nat, (m - 1) as nat, t);
    }
}

/// A clear path grows by one step at its far end when the old end is
/// empty.
proof fn lemma_reach_extend(
    ax: int,
    ay: int,
    dx: int,
    dy: int,
    occ: u64,
    k: nat,
    bx: int,
    by: int,
)
    requires
        reach(ax, ay, dx, dy, occ, k, bx, by),
        on_board(bx + dx, by + dy),
        k == 0 || occ & coord_bit(bx, by) == 0,
    ensures
        reach(ax, ay, dx, dy, occ, k + 1, bx + dx, by + dy),
    decreases k,
{
    if k > 0 {
        lemma_reach_extend(ax + dx, ay + dy, dx, dy, occ, (k - 1) as nat, bx, by);
        if k == 1 {
            assert(reach(ax + dx, ay + dy, dx, dy, occ, 0, bx, by));
        }
    } else {
        assert(reach(ax + dx, ay + dy, dx, dy, occ, 0, bx + dx, by + dy));
    }
}

/// A clear path is clear in both directions.
proof fn lemma_reach_reverse(x: int, y: int, dx: int, dy: int, occ: u64, m: nat, tx: int, ty: int)
    requires
        on_board(x, y),
        reach(x, y, dx, dy, occ, m, tx, ty),
    ensures
        reach(tx, ty, -dx, -dy, occ, m, x, y),
    decreases m,
{
    if m > 0 {
        lemma_reach_reverse(x + dx, y + dy, dx, dy, occ, (m - 1) as nat, tx, ty);
        lemma_reach_extend(tx, ty, -dx, -dy, occ, (m - 1) as nat, x + dx, y + dy);
    }
}

/// What one square sees along a ray sees it back along the opposite ray.
proof fn lemma_ray_back(a: u32, t: u32, dx: int, dy: int, occ: u64)
    requires
        a < 64,
        t < 64,
        bit_set(ray(file_of(a), rank_of(a), dx, dy, occ, 7), t),
    ensures
        bit_set(ray(file_of(t), rank_of(t), -dx, -dy, occ, 7), a),
{
    let m = lemma_ray_to_reach(file_of(a), rank_of(a), dx, dy, occ, 7, t);
    lemma_reach_reverse(file_of(a), rank_of(a), dx, dy, occ, m, file_of(t), rank_of(t));
    lemma_reach_to_ray(file_of(t), rank_of(t), -dx, -dy, occ, 7, m, a);
}

/// A rook on `a` attacks `t` exactly when a rook on `t` attacks `a`.
pub proof fn lemma_rook_symmetric(a: u32, t: u32, occ: u64)
    requires
        a < 64,
        t < 64,
    ensures
        bit_set(rook_attacks(a, occ), t) <==> bit_set(rook_attacks(t, occ), a),
{
    lemma_rook_back(a, t, occ);
    lemma_rook_back(t, a, occ);
}

/// What a rook on `a` attacks, a rook there attacks back.
proof fn lemma_rook_back(a: u32, t: u32, occ: u64)
    requires
        a < 64,
        t < 64,
    ensures
        bit_set(rook_attacks(a, occ), t) ==> bit_set(rook_attacks(t, occ), a),
{
    let (x, y) = (file_of(a), rank_of(a));
    let (u, v) = (file_of(t), rank_of(t));
    let e = ray(x, y, 1, 0, occ, 7);
    let w = ray(x, y, -1, 0, occ, 7);
    let n = ray(x, y, 0, 1, occ, 7);
    let s = ray(x, y, 0, -1, occ, 7);
    lemma_membership(e | w | n, s, t);
    lemma_membership(e | w, n, t);
    lemma_membership(e, w, t);
    let e2 = ray(u, v, 1, 0, occ, 7);
    let w2 = ray(u, v, -1, 0, occ, 7);
    let n2 = ray(u, v, 0, 1, occ, 7);
    let s2 = ray(u, v, 0, -1, occ, 7);
    lemma_membership(e2 | w2 | n2, s2, a);
    lemma_membership(e2 | w2, n2, a);
    lemma_membership(e2, w2, a);
    if bit_set(e, t) {
        lemma_ray_back(a, t, 1, 0, occ);
    }
    if bit_set(w, t) {
        lemma_ray_back(a, t, -1, 0, occ);
    }
    if bit_set(n, t) {
        lemma_ray_back(a, t, 0, 1, occ);
    }
    if bit_set(s, t) {
        lemma_ray_back(a, t, 0, -1, occ);
    }
}

/// A bishop on `a` attacks `t` exactly when a bishop on `t` attacks `a`.
pub proof fn lemma_bishop_symmetric(a: u32, t: u32, occ: u64)
    requires
        a < 64,
        t < 64,
    ensures
        bit_set(bishop_attacks(a, occ), t) <==> bit_set(bishop_attacks(t, occ), a),
{
    lemma_bishop_back(a, t, occ);
    lemma_bishop_back(t, a, occ);
}

/// What a bishop on `a` attacks, a bishop there attacks back.
proof fn lemma_bishop_back(a: u32, t: u32, occ: u64)
    requires
        a < 64,
        t < 64,
    ensures
        bit_set(bishop_attacks(a, occ), t) ==> bit_set(bishop_attacks(t, occ), a),
{
    let (x, y) = (file_of(a), rank_of(a));
    let (u, v) = (file_of(t), rank_of(t));
    let ne = ray(x, y, 1, 1, occ, 7);
    let nw = ray(x, y, -1, 1, occ, 7);
    let se = ray(x, y, 1, -1, occ, 7);
    let sw = ray(x, y, -1, -1, occ, 7);
    lemma_membership(ne | nw | se, sw, t);
    lemma_membership(ne | nw, se, t);
    lemma_membership(ne, nw, t);
    let ne2 = ray(u, v, 1, 1, occ, 7);
    let nw2 = ray(u, v, -1, 1, occ, 7);
    let se2 = ray(u, v, 1, -1, occ, 7);
    let sw2 = ray(u, v, -1, -1, occ, 7);
    lemma_membership(ne2 | nw2 | se2, sw2, a);
    lemma_membership(ne2 | nw2, se2, a);
    lemma_membership(ne2, nw2, a);
    if bit_set(ne, t) {
        lemma_ray_back(a, t, 1, 1, occ);
    }
    if bit_set(nw, t) {
        lemma_ray_back(a, t, -1, 1, occ);
    }
    if bit_set(se, t) {
        lemma_ray_back(a, t, 1, -1, occ);
    }
    if bit_set(sw, t) {
        lemma_ray_back(a, t, -1, -1, occ);
    }
}

/// A knight on `a` attacks `t` exactly when the two squares are a
/// knight's move apart.
proof fn lemma_knight_member(a: u32, t: u32)
    requires
        a < 64,
        t < 64,
    ensures
        bit_set(knight_attacks(a), t) <==> {
            let dx = file_of(t) - file_of(a);
            let dy = rank_of(t) - rank_of(a);
            (dx == 1 || dx == -1) && (dy == 2 || dy == -2) || (dx == 2 || dx == -2) && (dy == 1
                || dy == -1)
        },
{
    lemma_membership_of_eight(
        offset_bit(a, 1, 2),
        offset_bit(a, 2, 1),
        offset_bit(a, 2, -1),
        offset_bit(a, 1, -2),
        offset_bit(a, -1, -2),
        offset_bit(a, -2, -1),
        offset_bit(a, -2, 1),
        offset_bit(a, -1, 2),
        t,
    );
    lemma_offset_member(a, 1, 2, t);
    lemma_offset_member(a, 2, 1, t);
    lemma_offset_member(a, 2, -1, t);
    lemma_offset_member(a, 1, -2, t);
    lemma_offset_member(a, -1, -2, t);
    lemma_offset_member(a, -2, -1, t);
    lemma_offset_member(a, -2, 1, t);
    lemma_offset_member(a, -1, 2, t);
}

/// A king on `a` attacks `t` exactly when the two squares touch.
proof fn lemma_king_member(a: u32, t: u32)
    requires
        a < 64,
        t < 64,
    ensures
        bit_set(king_attacks(a), t) <==> {
            let dx = file_of(t) - file_of(a);
            let dy = rank_of(t) - rank_of(a);
            -1 <= dx <= 1 && -1 <= dy <= 1 && !(dx == 0 && dy == 0)
        },
{
    lemma_membership_of_eight(
        offset_bit(a, 1, 0),
        offset_bit(a, 1, 1),
        offset_bit(a, 0, 1),
        offset_bit(a, -1, 1),
        offset_bit(a, -1, 0),
        offset_bit(a, -1, -1),
        offset_bit(a, 0, -1),
        offset_bit(a, 1, -1),
        t,
    );
    lemma_offset_member(a, 1, 0, t);
    lemma_offset_member(a, 1, 1, t);
    lemma_offset_member(a, 0, 1, t);
    lemma_offset_member(a, -1, 1, t);
    lemma_offset_member(a, -1, 0, t);
    lemma_offset_member(a, -1, -1, t);
    lemma_offset_member(a, 0, -1, t);
    lemma_offset_member(a, 1, -1, t);
}

/// A pawn of `side` on `a` attacks `t` exactly when `t` lies one rank
/// ahead on a neighbouring file.
proof fn lemma_pawn_member(side: Side, a: u32, t: u32)
    requires
        a < 64,
        t < 64,
    ensures
        bit_set(pawn_attacks(side, a), t) <==> {
            let dx = file_of(t) - file_of(a);
            let dy = rank_of(t) - rank_of(a);
            (dx == 1 || dx == -1) && dy == pawn_direction(side)
        },
{
    lemma_membership(
        offset_bit(a, -1, pawn_direction(side)),
        offset_bit(a, 1, pawn_direction(side)),
        t,
    );
    lemma_offset_member(a, -1, pawn_direction(side), t);
    lemma_offset_member(a, 1, pawn_direction(side), t);
}

/// Whether a piece of the kind, standing on `a`, would attack `t`, told
/// from `t`: for each kind the attack set from `t` of the piece that
/// looks back.
pub proof fn lemma_piece_attack_back(piece: Piece, by: Side, a: u32, t: u32, occ: u64)
    requires
        a < 64,
        t < 64,
    ensures
        bit_set(piece_attacks(piece, by, a, occ), t) <==> match piece {
            Piece::Pawn => bit_set(pawn_attacks(by.spec_opposite(), t), a),
            Piece::Rook => bit_set(rook_attacks(t, occ), a),
            Piece::Knight => bit_set(knight_attacks(t), a),
            Piece::Bishop => bit_set(bishop_attacks(t, occ), a),
            Piece::Queen => bit_set(rook_attacks(t, occ), a) || bit_set(bishop_attacks(t, occ), a),
            Piece::King => bit_set(king_attacks(t), a),
        },
{
    match piece {
        Piece::Pawn => {
            lemma_pawn_member(by, a, t);
            lemma_pawn_member(by.spec_opposite(), t, a);
        },
        Piece::Rook => {
            lemma_rook_symmetric(a, t, occ);
        },
        Piece::Knight => {
            lemma_knight_member(a, t);
            lemma_knight_member(t, a);
        },
        Piece::Bishop => {
            lemma_bishop_symmetric(a, t, occ);
        },
        Piece::Queen => {
            lemma_rook_symmetric(a, t, occ);
            lemma_bishop_symmetric(a, t, occ);
            lemma_membership(rook_attacks(a, occ), bishop_attacks(a, occ), t);
        },
        Piece::King => {
            lemma_king_member(a, t);
            lemma_king_member(t, a);
        },
    }
}

/// The test from the square outwards finds an attack exactly when some
/// piece of the attacker stands where its own attack set holds the
/// square.
pub proof fn lemma_is_attacked(p: GameState, sq: u32, by: Side)
    requires
        sq < 64,
    ensures
        is_attacked(p, sq, by) <==> attacks_square(p, by, sq),
{
    let a = p.side(by);
    let occ = p.occupancy();
    let pawns = a.board(Piece::Pawn);
    let rooks = a.board(Piece::Rook);
    let knights = a.board(Piece::Knight);
    let bishops = a.board(Piece::Bishop);
    let queens = a.board(Piece::Queen);
    let kings = a.board(Piece::King);
    let from_pawn = pawn_attacks(by.spec_opposite(), sq);
    let from_knight = knight_attacks(sq);
    let from_king = king_attacks(sq);
    let from_rook = rook_attacks(sq, occ);
    let from_bishop = bishop_attacks(sq, occ);
    lemma_sets_meet(from_pawn, pawns);
    lemma_sets_meet(from_knight, knights);
    lemma_sets_meet(from_king, kings);
    lemma_sets_meet(from_rook, rooks | queens);
    lemma_sets_meet(from_bishop, bishops | queens);
    if is_attacked(p, sq, by) {
        let (piece, from) = if from_pawn & pawns != 0 {
            let from = choose|from: u32|
                from < 64 && #[trigger] (from_pawn & (1u64 << from)) != 0 && pawns & (1u64 << from)
                    != 0;
            (Piece::Pawn, from)
        } else if from_knight & knights != 0 {
            let from = choose|from: u32|
                from < 64 && #[trigger] (from_knight & (1u64 << from)) != 0 && knights & (1u64
                    << from) != 0;
            (Piece::Knight, from)
        } else if from_king & kings != 0 {
            let from = choose|from: u32|
                from < 64 && #[trigger] (from_king & (1u64 << from)) != 0 && kings & (1u64 << from)
                    != 0;
            (Piece::King, from)
        } else if from_rook & (rooks | queens) != 0 {
            let from = choose|from: u32|
                from < 64 && #[trigger] (from_rook & (1u64 << from)) != 0 && (rooks | queens) & (
                1u64 << from) != 0;
            lemma_membership(rooks, queens, from);
            if bit_set(rooks, from) {
                (Piece::Rook, from)
            } else {
                (Piece::Queen, from)
            }
        } else {
            let from = choose|from: u32|
                from < 64 && #[trigger] (from_bishop & (1u64 << from)) != 0 && (bishops | queens)
                    & (1u64 << from) != 0;
            lemma_membership(bishops, queens, from);
            if bit_set(bishops, from) {
                (Piece::Bishop, from)
            } else {
                (Piece::Queen, from)
            }
        };
        lemma_piece_attack_back(piece, by, from, sq, occ);
        assert(bit_set(p.side(by).board(piece), from) && bit_set(
            piece_attacks(piece, by, from, occ),
            sq,
        ));
    }
    if attacks_square(p, by, sq) {
        let (piece, from) = choose|piece: Piece, from: u32|
            from < 64 && #[trigger] bit_set(p.side(by).board(piece), from) && bit_set(
                piece_attacks(piece, by, from, p.occupancy()),
                sq,
            );
        lemma_piece_attack_back(piece, by, from, sq, occ);
        lemma_membership(rooks, queens, from);
        lemma_membership(bishops, queens, from);
        match piece {
            Piece::Pawn => {
                assert((from_pawn & (1u64 << from)) != 0 && pawns & (1u64 << from) != 0);
            },
            Piece::Rook => {
                assert((from_rook & (1u64 << from)) != 0 && (rooks | queens) & (1u64 << from) != 0);
            },
            Piece::Knight => {
                assert((from_knight & (1u64 << from)) != 0 && knights & (1u64 << from) != 0);
            },
            Piece::Bishop => {
                assert((from_bishop & (1u64 << from)) != 0 && (bishops | queens) & (1u64 << from)
                    != 0);
            },
            Piece::Queen => {
                if bit_set(from_rook, from) {
                    assert((from_rook & (1u64 << from)) != 0 && (rooks | queens) & (1u64 << from)
                        != 0);
                } else {
                    assert((from_bishop & (1u64 << from)) != 0 && (bishops | queens) & (1u64
                        << from) != 0);
                }
            },
            Piece::King => {
                assert((from_king & (1u64 << from)) != 0 && kings & (1u64 << from) != 0);
            },
        }
    }
}

} // verus!

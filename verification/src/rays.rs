//! Attack sets computed square by square, without any table.
use vstd::prelude::*;
use crate::bb::{get, holds, insert, lemma_holds_empty, squares, union};
use crate::consts::{col_of, row_of, PieceColor};
use crate::geometry::{
    bishop_inner, bishop_reach, inner_at, inner_in, is_dir, is_step, king_step, knight_step,
    pawn_attack, rook_inner, rook_reach, scaled, slide_at, slides_in, step_on_board, stepped,
};

verus! {

/// The one square that lies `dr` rows and `dc` columns from `sq`, as a set:
/// empty where that square is off the board.
pub fn step_bit(sq: usize, dr: i32, dc: i32) -> (bb: u64)
    requires
        sq < 64,
        -2 <= dr <= 2,
        -2 <= dc <= 2,
    ensures
        forall|t: int| #[trigger] holds(bb, t) == is_step(sq as int, t, dr as int, dc as int),
{
    let r: i32 = (sq / 8) as i32 + dr;
    let c: i32 = (sq % 8) as i32 + dc;
    proof {
        lemma_holds_empty();
    }
    if 0 <= r && r < 8 && 0 <= c && c < 8 {
        insert(0, (r * 8 + c) as usize)
    } else {
        0
    }
}

/// The squares that a knight on `sq` attacks.
pub fn knight_mask(sq: usize) -> (bb: u64)
    requires
        sq < 64,
    ensures
        forall|t: int| #[trigger] holds(bb, t) == knight_step(sq as int, t),
{
    let a: u64 = union(step_bit(sq, -2, -1), step_bit(sq, -2, 1));
    let b: u64 = union(step_bit(sq, -1, -2), step_bit(sq, -1, 2));
    let c: u64 = union(step_bit(sq, 1, -2), step_bit(sq, 1, 2));
    let d: u64 = union(step_bit(sq, 2, -1), step_bit(sq, 2, 1));
    union(union(a, b), union(c, d))
}

/// The squares that a king on `sq` attacks.
pub fn king_mask(sq: usize) -> (bb: u64)
    requires
        sq < 64,
    ensures
        forall|t: int| #[trigger] holds(bb, t) == king_step(sq as int, t),
{
    let a: u64 = union(step_bit(sq, -1, -1), step_bit(sq, -1, 0));
    let b: u64 = union(step_bit(sq, -1, 1), step_bit(sq, 0, -1));
    let c: u64 = union(step_bit(sq, 0, 1), step_bit(sq, 1, -1));
    let d: u64 = union(step_bit(sq, 1, 0), step_bit(sq, 1, 1));
    union(union(a, b), union(c, d))
}

/// The squares that a pawn of `color` on `sq` attacks.
pub fn pawn_mask(color: PieceColor, sq: usize) -> (bb: u64)
    requires
        sq < 64,
    ensures
        forall|t: int| #[trigger] holds(bb, t) == pawn_attack(color, sq as int, t),
{
    let dr: i32 = match color {
        PieceColor::Light => -1,
        _ => 1,
    };
    union(step_bit(sq, dr, -1), step_bit(sq, dr, 1))
}

/// The squares that a piece sliding from `sq` in direction (`dr`, `dc`)
/// reaches on a board occupied at `occ`: every square up to and including the
/// first occupied one.
pub fn ray(sq: usize, dr: i32, dc: i32, occ: u64) -> (bb: u64)
    requires
        sq < 64,
        is_dir(dr as int, dc as int),
    ensures
        forall|t: int| #[trigger]
            holds(bb, t) == slides_in(sq as int, t, squares(occ), dr as int, dc as int),
{
    let ghost from = sq as int;
    let ghost o = squares(occ);
    let ghost dri = dr as int;
    let ghost dci = dc as int;
    let mut bb: u64 = 0;
    let mut k: i32 = 1;
    let mut r: i32 = (sq / 8) as i32 + dr;
    let mut c: i32 = (sq % 8) as i32 + dc;
    let mut clear: bool = true;
    proof {
        lemma_holds_empty();
    }
    while k < 8
        invariant
            1 <= k <= 8,
            sq < 64,
            from == sq as int,
            o == squares(occ),
            dri == dr as int,
            dci == dc as int,
            is_dir(dri, dci),
            r == row_of(from) + scaled(dri, k as int),
            c == col_of(from) + scaled(dci, k as int),
            clear == (step_on_board(from, dri, dci, k - 1) && forall|j: int|
                1 <= j < k ==> !o.contains(#[trigger] stepped(from, dri, dci, j))),
            forall|t: int| #[trigger]
                holds(bb, t) == (exists|j: int|
                    1 <= j < k && #[trigger] slide_at(from, t, o, dri, dci, j)),
        decreases 8 - k,
    {
        let ghost before = bb;
        let here: bool = 0 <= r && r < 8 && 0 <= c && c < 8;
        let mut next_clear: bool = false;
        if clear && here {
            let t: usize = (r * 8 + c) as usize;
            bb = insert(bb, t);
            next_clear = !get(occ, t);
            assert(t as int == stepped(from, dri, dci, k as int));
        }
        proof {
            let kk = k as int;
            assert(here == step_on_board(from, dri, dci, kk));
            assert(step_on_board(from, dri, dci, kk) ==> step_on_board(from, dri, dci, kk - 1));
            assert forall|t: int| #[trigger]
                holds(bb, t) == (exists|j: int|
                    1 <= j < kk + 1 && #[trigger] slide_at(from, t, o, dri, dci, j)) by {
                let now = slide_at(from, t, o, dri, dci, kk);
                assert(now == (clear && here && t == stepped(from, dri, dci, kk)));
                if holds(bb, t) {
                    if holds(before, t) {
                        let j = choose|j: int|
                            1 <= j < kk && #[trigger] slide_at(from, t, o, dri, dci, j);
                        assert(slide_at(from, t, o, dri, dci, j));
                    } else {
                        assert(now);
                    }
                }
                if exists|j: int| 1 <= j < kk + 1 && #[trigger] slide_at(from, t, o, dri, dci, j) {
                    let j = choose|j: int|
                        1 <= j < kk + 1 && #[trigger] slide_at(from, t, o, dri, dci, j);
                    if j < kk {
                        assert(holds(before, t));
                    } else {
                        assert(now);
                    }
                }
            }
            if next_clear {
                assert forall|j: int| 1 <= j < kk + 1 implies !o.contains(
                    #[trigger] stepped(from, dri, dci, j),
                ) by {}
            } else if clear && here {
                assert(o.contains(stepped(from, dri, dci, kk)));
            }
        }
        clear = next_clear;
        k = k + 1;
        r = r + dr;
        c = c + dc;
    }
    bb
}

/// The squares in direction (`dr`, `dc`) from `sq` that have another square
/// of the board behind them.
pub fn inner_ray(sq: usize, dr: i32, dc: i32) -> (bb: u64)
    requires
        sq < 64,
        is_dir(dr as int, dc as int),
    ensures
        forall|t: int| #[trigger] holds(bb, t) == inner_in(sq as int, t, dr as int, dc as int),
{
    let ghost from = sq as int;
    let ghost dri = dr as int;
    let ghost dci = dc as int;
    let mut bb: u64 = 0;
    let mut k: i32 = 1;
    let mut r: i32 = (sq / 8) as i32 + dr;
    let mut c: i32 = (sq % 8) as i32 + dc;
    proof {
        lemma_holds_empty();
    }
    while k < 8
        invariant
            1 <= k <= 8,
            sq < 64,
            from == sq as int,
            dri == dr as int,
            dci == dc as int,
            is_dir(dri, dci),
            r == row_of(from) + scaled(dri, k as int),
            c == col_of(from) + scaled(dci, k as int),
            forall|t: int| #[trigger]
                holds(bb, t) == (exists|j: int|
                    1 <= j < k && #[trigger] inner_at(from, t, dri, dci, j)),
        decreases 8 - k,
    {
        let ghost before = bb;
        let r2: i32 = r + dr;
        let c2: i32 = c + dc;
        let behind: bool = 0 <= r2 && r2 < 8 && 0 <= c2 && c2 < 8;
        if behind {
            assert(step_on_board(from, dri, dci, k as int));
            bb = insert(bb, (r * 8 + c) as usize);
        }
        proof {
            let kk = k as int;
            assert(behind == step_on_board(from, dri, dci, kk + 1));
            assert forall|t: int| #[trigger]
                holds(bb, t) == (exists|j: int|
                    1 <= j < kk + 1 && #[trigger] inner_at(from, t, dri, dci, j)) by {
                let now = inner_at(from, t, dri, dci, kk);
                assert(now == (behind && t == stepped(from, dri, dci, kk)));
                if holds(bb, t) {
                    if holds(before, t) {
                        let j = choose|j: int|
                            1 <= j < kk && #[trigger] inner_at(from, t, dri, dci, j);
                        assert(inner_at(from, t, dri, dci, j));
                    } else {
                        assert(now);
                    }
                }
                if exists|j: int| 1 <= j < kk + 1 && #[trigger] inner_at(from, t, dri, dci, j) {
                    let j = choose|j: int|
                        1 <= j < kk + 1 && #[trigger] inner_at(from, t, dri, dci, j);
                    if j < kk {
                        assert(holds(before, t));
                    } else {
                        assert(now);
                    }
                }
            }
        }
        k = k + 1;
        r = r2;
        c = c2;
    }
    bb
}

/// The squares that a bishop on `sq` attacks on a board occupied at `occ`.
pub fn bishop_rays(sq: usize, occ: u64) -> (bb: u64)
    requires
        sq < 64,
    ensures
        forall|t: int| #[trigger] holds(bb, t) == bishop_reach(sq as int, t, squares(occ)),
{
    let a: u64 = union(ray(sq, -1, -1, occ), ray(sq, -1, 1, occ));
    let b: u64 = union(ray(sq, 1, -1, occ), ray(sq, 1, 1, occ));
    union(a, b)
}

/// The squares that a rook on `sq` attacks on a board occupied at `occ`.
pub fn rook_rays(sq: usize, occ: u64) -> (bb: u64)
    requires
        sq < 64,
    ensures
        forall|t: int| #[trigger] holds(bb, t) == rook_reach(sq as int, t, squares(occ)),
{
    let a: u64 = union(ray(sq, -1, 0, occ), ray(sq, 1, 0, occ));
    let b: u64 = union(ray(sq, 0, -1, occ), ray(sq, 0, 1, occ));
    union(a, b)
}

/// The squares whose occupancy decides what a bishop on `sq` attacks.
pub fn bishop_relevant(sq: usize) -> (bb: u64)
    requires
        sq < 64,
    ensures
        forall|t: int| #[trigger] holds(bb, t) == bishop_inner(sq as int, t),
{
    let a: u64 = union(inner_ray(sq, -1, -1), inner_ray(sq, -1, 1));
    let b: u64 = union(inner_ray(sq, 1, -1), inner_ray(sq, 1, 1));
    union(a, b)
}

/// The squares whose occupancy decides what a rook on `sq` attacks.
pub fn rook_relevant(sq: usize) -> (bb: u64)
    requires
        sq < 64,
    ensures
        forall|t: int| #[trigger] holds(bb, t) == rook_inner(sq as int, t),
{
    let a: u64 = union(inner_ray(sq, -1, 0), inner_ray(sq, 1, 0));
    let b: u64 = union(inner_ray(sq, 0, -1), inner_ray(sq, 0, 1));
    union(a, b)
}

} // verus!

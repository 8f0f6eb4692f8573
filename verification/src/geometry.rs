//! How the pieces move over an otherwise unspecified board: single steps for
//! pawns, knights and kings, and slides along a line for bishops, rooks and
//! queens.
use vstd::prelude::*;
use crate::consts::{col_of, on_board, row_of, square_at, PieceColor, PieceType};

verus! {

/// `k` times a direction component, which is -1, 0 or 1.
pub open spec fn scaled(d: int, k: int) -> int {
    if d > 0 {
        k
    } else if d < 0 {
        -k
    } else {
        0
    }
}

/// A direction along which a piece slides: each component is -1, 0 or 1,
/// and not both are 0.
pub open spec fn is_dir(dr: int, dc: int) -> bool {
    -1 <= dr <= 1 && -1 <= dc <= 1 && (dr != 0 || dc != 0)
}

/// `k` steps in direction (`dr`, `dc`) from `from` stay on the board.
pub open spec fn step_on_board(from: int, dr: int, dc: int, k: int) -> bool {
    on_board(row_of(from) + scaled(dr, k), col_of(from) + scaled(dc, k))
}

/// The square `k` steps in direction (`dr`, `dc`) from `from`.
pub open spec fn stepped(from: int, dr: int, dc: int, k: int) -> int {
    square_at(row_of(from) + scaled(dr, k), col_of(from) + scaled(dc, k))
}

/// `to` is the square that lies `dr` rows and `dc` columns from `from`.
pub open spec fn is_step(from: int, to: int, dr: int, dc: int) -> bool {
    &&& 0 <= from < 64
    &&& 0 <= to < 64
    &&& row_of(to) == row_of(from) + dr
    &&& col_of(to) == col_of(from) + dc
}

/// A knight on `from` attacks `to`.
pub open spec fn knight_step(from: int, to: int) -> bool {
    ||| is_step(from, to, -2, -1)
    ||| is_step(from, to, -2, 1)
    ||| is_step(from, to, -1, -2)
    ||| is_step(from, to, -1, 2)
    ||| is_step(from, to, 1, -2)
    ||| is_step(from, to, 1, 2)
    ||| is_step(from, to, 2, -1)
    ||| is_step(from, to, 2, 1)
}

/// A king on `from` attacks `to`.
pub open spec fn king_step(from: int, to: int) -> bool {
    ||| is_step(from, to, -1, -1)
    ||| is_step(from, to, -1, 0)
    ||| is_step(from, to, -1, 1)
    ||| is_step(from, to, 0, -1)
    ||| is_step(from, to, 0, 1)
    ||| is_step(from, to, 1, -1)
    ||| is_step(from, to, 1, 0)
    ||| is_step(from, to, 1, 1)
}

/// The row direction in which the pawns of a side advance: light pawns move
/// to lower rows, dark pawns to higher rows.
pub open spec fn forward(color: PieceColor) -> int {
    if color == PieceColor::Light {
        -1
    } else {
        1
    }
}

/// A pawn of `color` on `from` attacks `to`.
pub open spec fn pawn_attack(color: PieceColor, from: int, to: int) -> bool {
    is_step(from, to, forward(color), -1) || is_step(from, to, forward(color), 1)
}

/// `to` lies `k` steps from `from` in direction (`dr`, `dc`), and none of the
/// squares passed on the way is in `occ`.
pub open spec fn slide_at(from: int, to: int, occ: Set<int>, dr: int, dc: int, k: int) -> bool {
    &&& step_on_board(from, dr, dc, k)
    &&& to == stepped(from, dr, dc, k)
    &&& forall|j: int| 1 <= j < k ==> !occ.contains(#[trigger] stepped(from, dr, dc, j))
}

/// A piece sliding from `from` in direction (`dr`, `dc`) over a board whose
/// occupied squares are `occ` reaches `to`, which may itself be occupied.
pub open spec fn slides_in(from: int, to: int, occ: Set<int>, dr: int, dc: int) -> bool {
    exists|k: int| 1 <= k < 8 && #[trigger] slide_at(from, to, occ, dr, dc, k)
}

/// `m` lies `k` steps from `from` in direction (`dr`, `dc`) and is not the
/// last square of the board in that direction.
pub open spec fn inner_at(from: int, m: int, dr: int, dc: int, k: int) -> bool {
    &&& step_on_board(from, dr, dc, k + 1)
    &&& m == stepped(from, dr, dc, k)
}

/// `m` is a square in direction (`dr`, `dc`) from `from` whose occupancy can
/// stop a slide short of another square.
pub open spec fn inner_in(from: int, m: int, dr: int, dc: int) -> bool {
    exists|k: int| 1 <= k < 8 && #[trigger] inner_at(from, m, dr, dc, k)
}

/// A bishop on `from` attacks `to` over a board occupied at `occ`.
pub open spec fn bishop_reach(from: int, to: int, occ: Set<int>) -> bool {
    ||| slides_in(from, to, occ, -1, -1)
    ||| slides_in(from, to, occ, -1, 1)
    ||| slides_in(from, to, occ, 1, -1)
    ||| slides_in(from, to, occ, 1, 1)
}

/// A rook on `from` attacks `to` over a board occupied at `occ`.
pub open spec fn rook_reach(from: int, to: int, occ: Set<int>) -> bool {
    ||| slides_in(from, to, occ, -1, 0)
    ||| slides_in(from, to, occ, 1, 0)
    ||| slides_in(from, to, occ, 0, -1)
    ||| slides_in(from, to, occ, 0, 1)
}

/// A queen attacks as a bishop and as a rook.
pub open spec fn queen_reach(from: int, to: int, occ: Set<int>) -> bool {
    bishop_reach(from, to, occ) || rook_reach(from, to, occ)
}

/// The squares whose occupancy matters to a bishop on `from`.
pub open spec fn bishop_inner(from: int, m: int) -> bool {
    ||| inner_in(from, m, -1, -1)
    ||| inner_in(from, m, -1, 1)
    ||| inner_in(from, m, 1, -1)
    ||| inner_in(from, m, 1, 1)
}

/// The squares whose occupancy matters to a rook on `from`.
pub open spec fn rook_inner(from: int, m: int) -> bool {
    ||| inner_in(from, m, -1, 0)
    ||| inner_in(from, m, 1, 0)
    ||| inner_in(from, m, 0, -1)
    ||| inner_in(from, m, 0, 1)
}

/// What a piece of the given kind and colour on `from` attacks. The colour
/// matters to pawns only.
pub open spec fn attacks(
    kind: PieceType,
    color: PieceColor,
    from: int,
    to: int,
    occ: Set<int>,
) -> bool {
    match kind {
        PieceType::Pawn => pawn_attack(color, from, to),
        PieceType::Knight => knight_step(from, to),
        PieceType::Bishop => 0 <= from < 64 && bishop_reach(from, to, occ),
        PieceType::Rook => 0 <= from < 64 && rook_reach(from, to, occ),
        PieceType::Queen => 0 <= from < 64 && queen_reach(from, to, occ),
        PieceType::King => king_step(from, to),
    }
}

/// Rows and columns are the coordinates of the square they name.
pub proof fn lemma_square_at(r: int, c: int)
    requires
        on_board(r, c),
    ensures
        0 <= square_at(r, c) < 64,
        row_of(square_at(r, c)) == r,
        col_of(square_at(r, c)) == c,
{
}

/// A slide is decided by the occupancy of the inner squares of its line: two
/// boards that agree on them allow the same slides.
pub proof fn lemma_slide_local(from: int, to: int, o1: Set<int>, o2: Set<int>, dr: int, dc: int)
    requires
        0 <= from < 64,
        is_dir(dr, dc),
        forall|m: int| inner_in(from, m, dr, dc) ==> (o1.contains(m) == o2.contains(m)),
    ensures
        slides_in(from, to, o1, dr, dc) == slides_in(from, to, o2, dr, dc),
{
    assert forall|k: int| 1 <= k < 8 implies #[trigger] slide_at(from, to, o1, dr, dc, k)
        == slide_at(from, to, o2, dr, dc, k) by {
        if step_on_board(from, dr, dc, k) && to == stepped(from, dr, dc, k) {
            assert forall|j: int| 1 <= j < k implies o1.contains(
                #[trigger] stepped(from, dr, dc, j),
            ) == o2.contains(stepped(from, dr, dc, j)) by {
                assert(step_on_board(from, dr, dc, j + 1));
                assert(inner_at(from, stepped(from, dr, dc, j), dr, dc, j));
            }
        }
    }
    if slides_in(from, to, o1, dr, dc) {
        let k = choose|k: int| 1 <= k < 8 && #[trigger] slide_at(from, to, o1, dr, dc, k);
        assert(slide_at(from, to, o2, dr, dc, k));
    }
    if slides_in(from, to, o2, dr, dc) {
        let k = choose|k: int| 1 <= k < 8 && #[trigger] slide_at(from, to, o2, dr, dc, k);
        assert(slide_at(from, to, o1, dr, dc, k));
    }
}

/// Sliding is symmetric: if a slide from `a` reaches `b`, the opposite slide
/// from `b` reaches `a`.
pub proof fn lemma_slide_back(a: int, b: int, occ: Set<int>, dr: int, dc: int)
    requires
        0 <= a < 64,
        is_dir(dr, dc),
        slides_in(a, b, occ, dr, dc),
    ensures
        0 <= b < 64,
        slides_in(b, a, occ, -dr, -dc),
{
    let k = choose|k: int| 1 <= k < 8 && #[trigger] slide_at(a, b, occ, dr, dc, k);
    let rb = row_of(a) + scaled(dr, k);
    let cb = col_of(a) + scaled(dc, k);
    lemma_square_at(rb, cb);
    assert(row_of(b) == rb && col_of(b) == cb);
    assert(row_of(b) + scaled(-dr, k) == row_of(a));
    assert(col_of(b) + scaled(-dc, k) == col_of(a));
    assert(stepped(b, -dr, -dc, k) == a);
    assert forall|j: int| 1 <= j < k implies !occ.contains(#[trigger] stepped(b, -dr, -dc, j)) by {
        assert(rb + scaled(-dr, j) == row_of(a) + scaled(dr, k - j));
        assert(cb + scaled(-dc, j) == col_of(a) + scaled(dc, k - j));
        assert(stepped(b, -dr, -dc, j) == stepped(a, dr, dc, k - j));
    }
    assert(slide_at(b, a, occ, -dr, -dc, k));
}

/// Knights and kings attack each other mutually, and a pawn attacks a square
/// exactly if a pawn of the other colour standing there would attack it.
pub proof fn lemma_step_symmetric(color: PieceColor, a: int, b: int)
    ensures
        knight_step(a, b) == knight_step(b, a),
        king_step(a, b) == king_step(b, a),
        color != PieceColor::Both ==> pawn_attack(color, a, b) == pawn_attack(color.other(), b, a),
{
}

/// Bishops, rooks and queens attack each other mutually.
pub proof fn lemma_reach_symmetric(a: int, b: int, occ: Set<int>)
    requires
        0 <= a < 64,
        0 <= b < 64,
    ensures
        bishop_reach(a, b, occ) == bishop_reach(b, a, occ),
        rook_reach(a, b, occ) == rook_reach(b, a, occ),
        queen_reach(a, b, occ) == queen_reach(b, a, occ),
{
    lemma_slides_symmetric(a, b, occ, -1, -1);
    lemma_slides_symmetric(a, b, occ, -1, 1);
    lemma_slides_symmetric(a, b, occ, 1, -1);
    lemma_slides_symmetric(a, b, occ, 1, 1);
    lemma_slides_symmetric(a, b, occ, -1, 0);
    lemma_slides_symmetric(a, b, occ, 1, 0);
    lemma_slides_symmetric(a, b, occ, 0, -1);
    lemma_slides_symmetric(a, b, occ, 0, 1);
}

proof fn lemma_slides_symmetric(a: int, b: int, occ: Set<int>, dr: int, dc: int)
    requires
        0 <= a < 64,
        0 <= b < 64,
        is_dir(dr, dc),
    ensures
        slides_in(a, b, occ, dr, dc) == slides_in(b, a, occ, -dr, -dc),
{
    if slides_in(a, b, occ, dr, dc) {
        lemma_slide_back(a, b, occ, dr, dc);
    }
    if slides_in(b, a, occ, -dr, -dc) {
        lemma_slide_back(b, a, occ, -dr, -dc);
    }
}

/// A slide ends on the board, on another square than it began.
pub proof fn lemma_slide_target(from: int, to: int, occ: Set<int>, dr: int, dc: int)
    requires
        0 <= from < 64,
        is_dir(dr, dc),
        slides_in(from, to, occ, dr, dc),
    ensures
        0 <= to < 64,
        to != from,
{
    let k = choose|k: int| 1 <= k < 8 && #[trigger] slide_at(from, to, occ, dr, dc, k);
    lemma_square_at(row_of(from) + scaled(dr, k), col_of(from) + scaled(dc, k));
}

/// What a piece attacks is a square of the board other than its own.
pub proof fn lemma_attack_on_board(
    kind: PieceType,
    color: PieceColor,
    from: int,
    to: int,
    occ: Set<int>,
)
    requires
        attacks(kind, color, from, to, occ),
    ensures
        0 <= from < 64,
        0 <= to < 64,
        from != to,
{
    if slides_in(from, to, occ, -1, -1) {
        lemma_slide_target(from, to, occ, -1, -1);
    }
    if slides_in(from, to, occ, -1, 1) {
        lemma_slide_target(from, to, occ, -1, 1);
    }
    if slides_in(from, to, occ, 1, -1) {
        lemma_slide_target(from, to, occ, 1, -1);
    }
    if slides_in(from, to, occ, 1, 1) {
        lemma_slide_target(from, to, occ, 1, 1);
    }
    if slides_in(from, to, occ, -1, 0) {
        lemma_slide_target(from, to, occ, -1, 0);
    }
    if slides_in(from, to, occ, 1, 0) {
        lemma_slide_target(from, to, occ, 1, 0);
    }
    if slides_in(from, to, occ, 0, -1) {
        lemma_slide_target(from, to, occ, 0, -1);
    }
    if slides_in(from, to, occ, 0, 1) {
        lemma_slide_target(from, to, occ, 0, 1);
    }
}

} // verus!

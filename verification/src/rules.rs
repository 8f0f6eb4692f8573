//! The rules of the game over a position as a mathematical value: which
//! moves a side may try, what a move does to the position, and which moves
//! are legal.
use vstd::prelude::*;
use crate::board::{attacked, has_right, in_check, is_color, occupied, BoardView, CastlingType};
use crate::consts::{row_of, Piece, PieceColor, PieceType, NO_SQ};
use crate::geometry::{attacks, forward, pawn_attack};
use crate::moves::{Move, MoveFlag};

verus! {

/// The row on which the pawns of a side start.
pub open spec fn start_row(side: PieceColor) -> int {
    if side == PieceColor::Light {
        6
    } else {
        1
    }
}

/// The row on which the pawns of a side promote.
pub open spec fn last_row(side: PieceColor) -> int {
    if side == PieceColor::Light {
        0
    } else {
        7
    }
}

/// The side to which a castling right belongs.
pub open spec fn castling_side(ct: CastlingType) -> PieceColor {
    match ct {
        CastlingType::WhiteKingside | CastlingType::WhiteQueenside => PieceColor::Light,
        _ => PieceColor::Dark,
    }
}

/// The square on which the king of a castling right starts: e1 or e8.
pub open spec fn king_home(ct: CastlingType) -> int {
    match ct {
        CastlingType::WhiteKingside | CastlingType::WhiteQueenside => 60,
        _ => 4,
    }
}

/// The square on which the rook of a castling right starts.
pub open spec fn rook_home(ct: CastlingType) -> int {
    match ct {
        CastlingType::WhiteKingside => 63,
        CastlingType::WhiteQueenside => 56,
        CastlingType::BlackKingside => 7,
        CastlingType::BlackQueenside => 0,
    }
}

/// The square to which the king castles.
pub open spec fn king_goal(ct: CastlingType) -> int {
    match ct {
        CastlingType::WhiteKingside => 62,
        CastlingType::WhiteQueenside => 58,
        CastlingType::BlackKingside => 6,
        CastlingType::BlackQueenside => 2,
    }
}

/// The square that the king passes, on which the rook lands.
pub open spec fn rook_goal(ct: CastlingType) -> int {
    match ct {
        CastlingType::WhiteKingside => 61,
        CastlingType::WhiteQueenside => 59,
        CastlingType::BlackKingside => 5,
        CastlingType::BlackQueenside => 3,
    }
}

/// The squares between king and rook are empty.
pub open spec fn castling_path_empty(men: Seq<Option<Piece>>, ct: CastlingType) -> bool {
    &&& men[rook_goal(ct)] is None
    &&& men[king_goal(ct)] is None
    &&& match ct {
        CastlingType::WhiteQueenside => men[57] is None,
        CastlingType::BlackQueenside => men[1] is None,
        _ => true,
    }
}

/// The side to move may castle by right `ct`: it holds the right, the
/// squares between king and rook are empty, and the other side attacks
/// neither the king's square nor the square it passes nor the one it goes to.
pub open spec fn can_castle(v: BoardView, ct: CastlingType) -> bool {
    &&& castling_side(ct) == v.side
    &&& has_right(v.castling, ct)
    &&& castling_path_empty(v.men, ct)
    &&& !attacked(v.men, king_home(ct), v.side.other())
    &&& !attacked(v.men, rook_goal(ct), v.side.other())
    &&& !attacked(v.men, king_goal(ct), v.side.other())
}

/// The move carries none of the flags for a double step, a capture in
/// passing or castling.
pub open spec fn plain(m: Move) -> bool {
    !m.twosquare && !m.enpassant && !m.castling
}

/// The promotion piece is as it must be: a knight, bishop, rook or queen of
/// the pawn's colour where a pawn arrives on its last row, and none elsewhere.
pub open spec fn promotion_ok(m: Move) -> bool {
    if m.piece.kind_of() == PieceType::Pawn && row_of(m.target as int) == last_row(
        m.piece.color_of(),
    ) {
        m.promoted matches Some(q) && q.color_of() == m.piece.color_of() && (q.kind_of()
            == PieceType::Knight || q.kind_of() == PieceType::Bishop || q.kind_of()
            == PieceType::Rook || q.kind_of() == PieceType::Queen)
    } else {
        m.promoted is None
    }
}

/// A pawn steps one square forward onto an empty square.
pub open spec fn pawn_push(v: BoardView, m: Move) -> bool {
    &&& m.target == m.source + 8 * forward(v.side)
    &&& v.men[m.target as int] is None
    &&& !m.capture
    &&& plain(m)
    &&& promotion_ok(m)
}

/// A pawn steps two squares forward from its start row over an empty square
/// onto an empty square.
pub open spec fn pawn_double(v: BoardView, m: Move) -> bool {
    &&& row_of(m.source as int) == start_row(v.side)
    &&& m.target == m.source + 16 * forward(v.side)
    &&& v.men[m.source + 8 * forward(v.side)] is None
    &&& v.men[m.target as int] is None
    &&& !m.capture
    &&& m.twosquare
    &&& !m.enpassant
    &&& !m.castling
    &&& m.promoted is None
}

/// A pawn takes a man of the other side diagonally.
pub open spec fn pawn_capture(v: BoardView, m: Move) -> bool {
    &&& pawn_attack(v.side, m.source as int, m.target as int)
    &&& is_color(v.men[m.target as int], v.side.other())
    &&& m.capture
    &&& plain(m)
    &&& promotion_ok(m)
}

/// A pawn goes diagonally to the en-passant square.
pub open spec fn pawn_enpassant(v: BoardView, m: Move) -> bool {
    &&& v.enpassant < 64
    &&& m.target == v.enpassant
    &&& pawn_attack(v.side, m.source as int, m.target as int)
    &&& !m.capture
    &&& !m.twosquare
    &&& m.enpassant
    &&& !m.castling
    &&& m.promoted is None
}

/// A knight, bishop, rook, queen or king goes to a square that it attacks
/// and that holds no man of its own side; the move is a capture exactly if
/// the square holds a man.
pub open spec fn piece_move(v: BoardView, m: Move) -> bool {
    &&& attacks(m.piece.kind_of(), v.side, m.source as int, m.target as int, occupied(v.men))
    &&& !is_color(v.men[m.target as int], v.side)
    &&& m.capture == (v.men[m.target as int] is Some)
    &&& plain(m)
    &&& m.promoted is None
}

/// The king castles by right `ct`.
pub open spec fn castle_by(v: BoardView, m: Move, ct: CastlingType) -> bool {
    &&& can_castle(v, ct)
    &&& m.source == king_home(ct)
    &&& m.target == king_goal(ct)
    &&& m.castling
    &&& !m.capture
    &&& !m.twosquare
    &&& !m.enpassant
    &&& m.promoted is None
}

/// The king castles.
pub open spec fn castle_move(v: BoardView, m: Move) -> bool {
    ||| castle_by(v, m, CastlingType::WhiteKingside)
    ||| castle_by(v, m, CastlingType::WhiteQueenside)
    ||| castle_by(v, m, CastlingType::BlackKingside)
    ||| castle_by(v, m, CastlingType::BlackQueenside)
}

/// The move stays on the board and moves a man of the side to move that
/// stands on its source square.
pub open spec fn on_turn(v: BoardView, m: Move) -> bool {
    &&& m.source < 64
    &&& m.target < 64
    &&& v.men[m.source as int] == Some(m.piece)
    &&& m.piece.color_of() == v.side
}

/// The move is one that the side to move may try: a man of that side goes
/// as its kind goes. Whether the move leaves the own king attacked is not
/// asked here.
pub open spec fn pseudo_legal(v: BoardView, m: Move) -> bool {
    &&& on_turn(v, m)
    &&& match m.piece.kind_of() {
        PieceType::Pawn => pawn_push(v, m) || pawn_double(v, m) || pawn_capture(v, m)
            || pawn_enpassant(v, m),
        PieceType::King => piece_move(v, m) || castle_move(v, m),
        _ => piece_move(v, m),
    }
}

/// A right is lost when a move starts from or ends on the home square of its
/// king or of its rook; this is the mask of the rights that a move from or
/// to `sq` leaves alone.
pub open spec fn rights_kept(sq: int) -> u8 {
    if sq == 60 {
        12
    } else if sq == 63 {
        14
    } else if sq == 56 {
        13
    } else if sq == 4 {
        3
    } else if sq == 7 {
        11
    } else if sq == 0 {
        7
    } else {
        15
    }
}

/// The castling rights after a move from `source` to `target`.
pub open spec fn rights_after(castling: u8, source: int, target: int) -> u8 {
    castling & rights_kept(source) & rights_kept(target)
}

/// The placement with square `sq` emptied; unchanged if `sq` is no square.
pub open spec fn emptied(men: Seq<Option<Piece>>, sq: int) -> Seq<Option<Piece>> {
    if 0 <= sq < 64 {
        men.update(sq, None)
    } else {
        men
    }
}

/// The placement after the rook's part of castling: where the king went to
/// one of the four castling squares, the rook of that corner jumps over it.
pub open spec fn rook_castled(men: Seq<Option<Piece>>, king_target: int) -> Seq<Option<Piece>> {
    if king_target == 62 {
        men.update(63, None).update(61, Some(Piece::LR))
    } else if king_target == 58 {
        men.update(56, None).update(59, Some(Piece::LR))
    } else if king_target == 6 {
        men.update(7, None).update(5, Some(Piece::DR))
    } else if king_target == 2 {
        men.update(0, None).update(3, Some(Piece::DR))
    } else {
        men
    }
}

/// The men after move `m` by `side`: the moving man leaves its square and it,
/// or the piece it promotes to, takes the target square in place of whatever
/// stood there; a capture in passing also empties the square behind the
/// target; castling also moves the rook.
pub open spec fn men_after(men: Seq<Option<Piece>>, side: PieceColor, m: Move) -> Seq<
    Option<Piece>,
> {
    let placed = match m.promoted {
        Some(q) => q,
        None => m.piece,
    };
    let moved = men.update(m.source as int, None).update(m.target as int, Some(placed));
    let taken = if m.enpassant {
        emptied(moved, m.target - 8 * forward(side))
    } else {
        moved
    };
    if m.castling {
        rook_castled(taken, m.target as int)
    } else {
        taken
    }
}

/// One more, but never beyond what the counter can hold.
pub open spec fn bumped(n: u32) -> u32 {
    if n < u32::MAX {
        (n + 1) as u32
    } else {
        n
    }
}

/// The position after move `m`.
pub open spec fn apply(v: BoardView, m: Move) -> BoardView {
    BoardView {
        men: men_after(v.men, v.side, m),
        side: v.side.other(),
        castling: rights_after(v.castling, m.source as int, m.target as int),
        enpassant: if m.twosquare {
            ((m.source + m.target) / 2) as usize
        } else {
            NO_SQ
        },
        half_moves: if m.piece.kind_of() == PieceType::Pawn || m.capture || m.enpassant {
            0
        } else {
            bumped(v.half_moves)
        },
        full_moves: if v.side == PieceColor::Dark {
            bumped(v.full_moves)
        } else {
            v.full_moves
        },
    }
}

/// `make` carries the move out: both its squares are on the board, and it
/// captures if only captures are asked for.
pub open spec fn carried_out(m: Move, flag: MoveFlag) -> bool {
    &&& m.source < 64
    &&& m.target < 64
    &&& (flag == MoveFlag::AllMoves || m.capture || m.enpassant)
}

/// After move `m` no king of the side that moved is attacked.
pub open spec fn king_safe_after(v: BoardView, m: Move) -> bool {
    !in_check(apply(v, m).men, v.side)
}

/// The move is legal: the side to move may try it, and it leaves no king of
/// that side attacked.
pub open spec fn legal(v: BoardView, m: Move) -> bool {
    pseudo_legal(v, m) && king_safe_after(v, m)
}

proof fn lemma_rights_bits(c: u8, k: u8, t: u64)
    by (bit_vector)
    requires
        t < 64,
    ensures
        c & k <= c,
        (((c & k) as u64) >> t) & 1 == 1 ==> ((c as u64) >> t) & 1 == 1,
{
}

/// Castling rights are never won back: a right that is held after a move was
/// held before it.
pub proof fn lemma_rights_only_shrink(castling: u8, source: int, target: int, ct: CastlingType)
    ensures
        has_right(rights_after(castling, source, target), ct) ==> has_right(castling, ct),
        castling < 16 ==> rights_after(castling, source, target) < 16,
        rights_after(castling, source, target) <= castling,
{
    let a = castling & rights_kept(source);
    let t = ct.idx() as u64;
    lemma_rights_bits(castling, rights_kept(source), t);
    lemma_rights_bits(a, rights_kept(target), t);
}

} // verus!

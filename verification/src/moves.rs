//! One move of one man, and how it changes a position.
use vstd::prelude::*;
use crate::attack::AttackInfo;
use crate::board::{lemma_occupancy, occupancy_consistent, Board, CastlingType};
use crate::consts::{Piece, PieceColor, PieceType, NO_SQ};
use crate::rules::{
    apply, bumped, carried_out, king_safe_after, lemma_rights_only_shrink, rights_kept,
};
use crate::zobrist::{gen_board_key, gen_board_lock, ZobristInfo};
use crate::text::{chars_of, push_square, sq_from_chars, square_name, square_named, string_of};

verus! {

/// One ply. Two moves are the same only if every field is the same; two
/// promotions to different pieces are different moves.
#[derive(Clone, Copy, Debug, PartialEq, Eq, Structural)]
pub struct Move {
    /// The square that the man leaves.
    pub source: usize,
    /// The square that the man goes to.
    pub target: usize,
    /// The man that moves.
    pub piece: Piece,
    /// The piece that a pawn turns into on its last rank.
    pub promoted: Option<Piece>,
    /// The move takes the man on the target square.
    pub capture: bool,
    /// The move is the double step of a pawn.
    pub twosquare: bool,
    /// The move takes a pawn in passing.
    pub enpassant: bool,
    /// The move castles: the king goes two squares and the rook jumps over it.
    pub castling: bool,
}

/// Which moves `make` is to carry out.
#[derive(Clone, Copy, Debug, PartialEq, Eq, Structural)]
pub enum MoveFlag {
    AllMoves,
    CapturesOnly,
}

/// The name of a square, or a dash for a number that is no square.
pub open spec fn name_or_dash(sq: int) -> Seq<char> {
    if 0 <= sq < 64 {
        square_name(sq)
    } else {
        seq!['-']
    }
}

/// The lower-case letter of a promotion piece, if there is one.
pub open spec fn promotion_suffix(p: Option<Piece>) -> Seq<char> {
    match p {
        Some(q) => seq![Piece::of(PieceColor::Dark, q.kind_of()).letter()],
        None => Seq::empty(),
    }
}

/// The move in coordinate notation: the names of the two squares, and the
/// lower-case letter of the promotion piece if there is one.
pub open spec fn coord_text(m: Move) -> Seq<char> {
    name_or_dash(m.source as int) + name_or_dash(m.target as int) + promotion_suffix(m.promoted)
}

/// The promotion piece that the fifth character of a move in coordinate
/// notation names for a pawn of the colour of `piece`: the letter gives the
/// kind, in either case.
pub open spec fn promotion_named(s: Seq<char>, piece: Piece) -> Option<Piece> {
    if s.len() >= 5 {
        match Piece::lettered(s[4]) {
            Some(q) => Some(Piece::of(piece.color_of(), q.kind_of())),
            None => None,
        }
    } else {
        None
    }
}

/// The square named by the two characters of `s` from `at` on; `NO_SQ` if
/// they are missing or name no square.
pub open spec fn square_in(s: Seq<char>, at: int) -> int {
    if s.len() >= at + 2 {
        square_named(s.subrange(at, at + 2))
    } else {
        NO_SQ as int
    }
}

impl Move {
    /// The move with the given fields.
    pub fn new(
        source: usize,
        target: usize,
        piece: Piece,
        promoted: Option<Piece>,
        capture: bool,
        twosquare: bool,
        enpassant: bool,
        castling: bool,
    ) -> (m: Move)
        ensures
            m == (Move { source, target, piece, promoted, capture, twosquare, enpassant, castling }),
    {
        Move { source, target, piece, promoted, capture, twosquare, enpassant, castling }
    }

    /// The move that `s` writes in coordinate notation, with the moving
    /// piece and the flags as given. A square that `s` does not name
    /// becomes `NO_SQ`.
    pub fn from_str(
        s: &str,
        piece: Piece,
        capture: bool,
        twosquare: bool,
        enpassant: bool,
        castling: bool,
    ) -> (m: Move)
        ensures
            m == (Move {
                source: square_in(s@, 0) as usize,
                target: square_in(s@, 2) as usize,
                piece,
                promoted: promotion_named(s@, piece),
                capture,
                twosquare,
                enpassant,
                castling,
            }),
    {
        let v = chars_of(s);
        let n: usize = v.len();
        let source: usize = if n >= 2 {
            sq_from_chars(vstd::slice::slice_subrange(v.as_slice(), 0, 2))
        } else {
            NO_SQ
        };
        let target: usize = if n >= 4 {
            sq_from_chars(vstd::slice::slice_subrange(v.as_slice(), 2, 4))
        } else {
            NO_SQ
        };
        let promoted: Option<Piece> = if n >= 5 {
            match Piece::from_char(v[4]) {
                Some(q) => Some(Piece::make(piece.color(), q.kind())),
                None => None,
            }
        } else {
            None
        };
        Move { source, target, piece, promoted, capture, twosquare, enpassant, castling }
    }

    /// The move in coordinate notation.
    pub fn to_str(&self) -> (s: String)
        ensures
            s@ == coord_text(*self),
    {
        let mut v: Vec<char> = Vec::new();
        if self.source < 64 {
            push_square(&mut v, self.source);
        } else {
            v.push('-');
        }
        let ghost first = v@;
        assert(first =~= name_or_dash(self.source as int));
        if self.target < 64 {
            push_square(&mut v, self.target);
        } else {
            v.push('-');
        }
        let ghost second = v@;
        assert(second =~= first + name_or_dash(self.target as int));
        match self.promoted {
            Some(q) => {
                v.push(Piece::to_char(Some(Piece::make(PieceColor::Dark, q.kind()))));
            },
            None => {},
        }
        assert(v@ =~= second + promotion_suffix(self.promoted));
        string_of(&v)
    }

    pub fn source(&self) -> (r: usize)
        ensures
            r == self.source,
    {
        self.source
    }

    pub fn target(&self) -> (r: usize)
        ensures
            r == self.target,
    {
        self.target
    }

    pub fn piece(&self) -> (r: Piece)
        ensures
            r == self.piece,
    {
        self.piece
    }

    pub fn promoted(&self) -> (r: Option<Piece>)
        ensures
            r == self.promoted,
    {
        self.promoted
    }

    pub fn is_capture(&self) -> (r: bool)
        ensures
            r == self.capture,
    {
        self.capture
    }

    pub fn is_twosquare(&self) -> (r: bool)
        ensures
            r == self.twosquare,
    {
        self.twosquare
    }

    pub fn is_enpassant(&self) -> (r: bool)
        ensures
            r == self.enpassant,
    {
        self.enpassant
    }

    pub fn is_castling(&self) -> (r: bool)
        ensures
            r == self.castling,
    {
        self.castling
    }
}

/// The rights that a move from or to `sq` leaves alone.
fn rights_mask(sq: usize) -> (r: u8)
    ensures
        r == rights_kept(sq as int),
{
    if sq == 60 {
        12
    } else if sq == 63 {
        14
    } else if sq == 56 {
        13
    } else if sq == 4 {
        3
    } else if sq == 7 {
        11
    } else if sq == 0 {
        7
    } else {
        15
    }
}

/// One more, but never beyond what the counter can hold.
fn bump(n: u32) -> (r: u32)
    ensures
        r == bumped(n),
{
    if n < u32::MAX {
        n + 1
    } else {
        n
    }
}

/// Carries out move `mv` on `board` and says whether it was legal.
///
/// A move with a square off the board, or one that does not capture when
/// only captures are asked for, is not carried out: the board stays as it
/// is and the answer is `false`. Every other move is carried out as it
/// stands, without asking whether the rules allow it: the men, the castling
/// rights, the en-passant square, the counters and the side to move change,
/// and both hashes are computed anew. The answer is then whether the side
/// that moved has left none of its kings attacked. The board is not put
/// back after an illegal move.
pub fn make(
    board: &mut Board,
    attack_info: &AttackInfo,
    zobrist_info: &ZobristInfo,
    mv: Move,
    flag: MoveFlag,
) -> (legal: bool)
    requires
        old(board).wf(),
        attack_info.wf(),
        zobrist_info.wf(),
    ensures
        final(board).wf(),
        occupancy_consistent(final(board).pos),
        !carried_out(mv, flag) ==> !legal && *final(board) == *old(board),
        carried_out(mv, flag) ==> final(board)@ == apply(old(board)@, mv),
        carried_out(mv, flag) ==> zobrist_info.hashes(*final(board)),
        carried_out(mv, flag) ==> legal == king_safe_after(old(board)@, mv),
{
    proof {
        lemma_occupancy(board.pos);
    }
    if mv.source >= 64 || mv.target >= 64 {
        return false;
    }
    match flag {
        MoveFlag::CapturesOnly => {
            if !mv.capture && !mv.enpassant {
                return false;
            }
        },
        MoveFlag::AllMoves => {},
    }
    let side: PieceColor = board.state.side;
    let placed: Piece = match mv.promoted {
        Some(q) => q,
        None => mv.piece,
    };
    board.pos.clear_square(mv.source);
    board.pos.put(mv.target, placed);
    if mv.enpassant {
        match side {
            PieceColor::Light => {
                if mv.target + 8 < 64 {
                    board.pos.clear_square(mv.target + 8);
                }
            },
            _ => {
                if mv.target >= 8 {
                    board.pos.clear_square(mv.target - 8);
                }
            },
        }
    }
    if mv.castling {
        if mv.target == 62 {
            board.pos.clear_square(63);
            board.pos.put(61, Piece::LR);
        } else if mv.target == 58 {
            board.pos.clear_square(56);
            board.pos.put(59, Piece::LR);
        } else if mv.target == 6 {
            board.pos.clear_square(7);
            board.pos.put(5, Piece::DR);
        } else if mv.target == 2 {
            board.pos.clear_square(0);
            board.pos.put(3, Piece::DR);
        }
    }
    proof {
        lemma_rights_only_shrink(
            board.state.castling,
            mv.source as int,
            mv.target as int,
            CastlingType::WhiteKingside,
        );
    }
    board.state.castling = board.state.castling & rights_mask(mv.source) & rights_mask(mv.target);
    board.state.enpassant = if mv.twosquare {
        (mv.source + mv.target) / 2
    } else {
        NO_SQ
    };
    let resets: bool = match mv.piece.kind() {
        PieceType::Pawn => true,
        _ => mv.capture || mv.enpassant,
    };
    board.state.half_moves = if resets {
        0
    } else {
        bump(board.state.half_moves)
    };
    match side {
        PieceColor::Dark => {
            board.state.full_moves = bump(board.state.full_moves);
        },
        _ => {},
    }
    proof {
        lemma_occupancy(board.pos);
    }
    board.state.side = side.opposite();
    board.state.xside = side;
    board.state.key = gen_board_key(&zobrist_info.key, board);
    board.state.lock = gen_board_lock(&zobrist_info.lock, board);
    !board.is_in_check(attack_info, board.state.side)
}

} // verus!

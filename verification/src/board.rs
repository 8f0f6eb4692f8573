//! The position: where the men stand, and whose turn it is.
use vstd::prelude::*;
use crate::attack::AttackInfo;
use crate::bb::{
    get, holds, insert, intersect, lemma_holds_empty, lemma_holds_ops, lemma_lowest,
    lemma_same_members, lowest, lsb, pop_lsb, remove, squares, union,
};
use crate::consts::{lemma_piece_numbering, Piece, PieceColor, PieceType, NO_SQ};
use crate::fen::{parse, position_of, FenError};
use crate::geometry::{attacks, lemma_reach_symmetric, lemma_step_symmetric};
use crate::zobrist::{gen_board_key, gen_board_lock, ZobristInfo};

verus! {

/// The four castling rights, in the order of their bits in the rights mask.
#[derive(Clone, Copy, Debug, PartialEq, Eq, Structural)]
pub enum CastlingType {
    WhiteKingside,
    WhiteQueenside,
    BlackKingside,
    BlackQueenside,
}

impl CastlingType {
    /// The number of the right's bit in the rights mask.
    pub open spec fn idx(self) -> int {
        match self {
            CastlingType::WhiteKingside => 0,
            CastlingType::WhiteQueenside => 1,
            CastlingType::BlackKingside => 2,
            CastlingType::BlackQueenside => 3,
        }
    }

    pub fn index(self) -> (i: usize)
        ensures
            i == self.idx(),
            i < 4,
    {
        match self {
            CastlingType::WhiteKingside => 0,
            CastlingType::WhiteQueenside => 1,
            CastlingType::BlackKingside => 2,
            CastlingType::BlackQueenside => 3,
        }
    }
}

/// The rights mask `castling` holds right `ct`.
pub open spec fn has_right(castling: u8, ct: CastlingType) -> bool {
    holds(castling as u64, ct.idx())
}

/// A piece that stands on a square, if any, has colour `color`.
pub open spec fn is_color(p: Option<Piece>, color: PieceColor) -> bool {
    match p {
        Some(q) => q.color_of() == color,
        None => false,
    }
}

/// The squares of a placement that hold a piece.
pub open spec fn occupied(men: Seq<Option<Piece>>) -> Set<int> {
    Set::new(|s: int| 0 <= s < 64 && s < men.len() && men[s] is Some)
}

/// One bitboard per piece, and the occupancy of each side and of both.
#[derive(Clone, Copy, Debug)]
pub struct Position {
    /// The squares of each piece, by the piece's number.
    pub piece: [u64; 12],
    /// The squares of the light men, of the dark men, and of all men.
    pub units: [u64; 3],
}

impl Position {
    /// The piece on square `sq`: the first whose bitboard holds `sq`.
    pub open spec fn at(&self, sq: int) -> Option<Piece> {
        if holds(self.piece[0], sq) {
            Some(Piece::LP)
        } else if holds(self.piece[1], sq) {
            Some(Piece::LN)
        } else if holds(self.piece[2], sq) {
            Some(Piece::LB)
        } else if holds(self.piece[3], sq) {
            Some(Piece::LR)
        } else if holds(self.piece[4], sq) {
            Some(Piece::LQ)
        } else if holds(self.piece[5], sq) {
            Some(Piece::LK)
        } else if holds(self.piece[6], sq) {
            Some(Piece::DP)
        } else if holds(self.piece[7], sq) {
            Some(Piece::DN)
        } else if holds(self.piece[8], sq) {
            Some(Piece::DB)
        } else if holds(self.piece[9], sq) {
            Some(Piece::DR)
        } else if holds(self.piece[10], sq) {
            Some(Piece::DQ)
        } else if holds(self.piece[11], sq) {
            Some(Piece::DK)
        } else {
            None
        }
    }

    /// The position as a board of 64 squares.
    pub open spec fn placement(&self) -> Seq<Option<Piece>> {
        Seq::new(64, |s: int| self.at(s))
    }

    /// No square holds two men, and the occupancies are those of the men:
    /// a piece's bitboard holds a square exactly if the piece stands there,
    /// and `units` holds it exactly if a light, a dark, or any man does.
    pub open spec fn wf(&self) -> bool {
        &&& forall|p: int, s: int|
            0 <= p < 12 ==> #[trigger] holds(self.piece[p], s) == (self.at(s) is Some
                && self.at(s) == Piece::numbered(p))
        &&& forall|s: int| #[trigger]
            holds(self.units[0], s) == is_color(self.at(s), PieceColor::Light)
        &&& forall|s: int| #[trigger]
            holds(self.units[1], s) == is_color(self.at(s), PieceColor::Dark)
        &&& forall|s: int| #[trigger] holds(self.units[2], s) == (self.at(s) is Some)
    }

    /// The position without any man.
    pub fn new() -> (r: Position)
        ensures
            r.wf(),
            r.placement() == Seq::new(64, |s: int| None::<Piece>),
    {
        let r = Position { piece: [0u64; 12], units: [0u64; 3] };
        proof {
            lemma_holds_empty();
            assert(r.placement() =~= Seq::new(64, |s: int| None::<Piece>));
        }
        r
    }

    /// The piece on square `sq`, if any; none for a number that is no square.
    pub fn find_piece(&self, sq: usize) -> (r: Option<Piece>)
        ensures
            r == self.at(sq as int),
            sq < 64 ==> r == self.placement()[sq as int],
            sq >= 64 ==> r is None,
    {
        if sq >= 64 {
            return None;
        }
        let mut i: usize = 0;
        while i < 12
            invariant
                i <= 12,
                sq < 64,
                forall|p: int| 0 <= p < i ==> !holds(#[trigger] self.piece[p], sq as int),
            decreases 12 - i,
        {
            if get(self.piece[i], sq) {
                return Piece::from_num(i);
            }
            i = i + 1;
        }
        None
    }

    /// Takes whatever stands on `sq` off the board.
    pub fn clear_square(&mut self, sq: usize)
        requires
            old(self).wf(),
            sq < 64,
        ensures
            final(self).wf(),
            final(self).placement() == old(self).placement().update(sq as int, None),
    {
        let mut i: usize = 0;
        while i < 12
            invariant
                i <= 12,
                sq < 64,
                self.units == old(self).units,
                forall|p: int, s: int|
                    0 <= p < i ==> #[trigger] holds(self.piece[p], s) == (holds(
                        old(self).piece[p],
                        s,
                    ) && s != sq),
                forall|p: int| i <= p < 12 ==> #[trigger] self.piece[p] == old(self).piece[p],
            decreases 12 - i,
        {
            self.piece[i] = remove(self.piece[i], sq);
            i = i + 1;
        }
        self.units[0] = remove(self.units[0], sq);
        self.units[1] = remove(self.units[1], sq);
        self.units[2] = remove(self.units[2], sq);
        proof {
            assert forall|s: int| #[trigger]
                self.at(s) == (if s == sq {
                    None
                } else {
                    old(self).at(s)
                }) by {}
            assert(self.placement() =~= old(self).placement().update(sq as int, None));
        }
    }

    /// Puts `piece` on `sq`, in place of whatever stood there.
    pub fn put(&mut self, sq: usize, piece: Piece)
        requires
            old(self).wf(),
            sq < 64,
        ensures
            final(self).wf(),
            final(self).placement() == old(self).placement().update(sq as int, Some(piece)),
    {
        self.clear_square(sq);
        let ghost mid = *self;
        let i: usize = piece.index();
        let c: usize = piece.color().index();
        self.piece[i] = insert(self.piece[i], sq);
        self.units[c] = insert(self.units[c], sq);
        self.units[2] = insert(self.units[2], sq);
        proof {
            lemma_piece_numbering(piece);
            assert(mid.placement()[sq as int] == mid.at(sq as int));
            assert(mid.at(sq as int) is None);
            assert forall|p: int| 0 <= p < 12 && p != i implies #[trigger] self.piece[p]
                == mid.piece[p] by {}
            assert forall|s: int| #[trigger]
                self.at(s) == (if s == sq {
                    Some(piece)
                } else {
                    mid.at(s)
                }) by {}
            assert forall|s: int| 0 <= s < 64 implies #[trigger] self.placement()[s] == old(
                self,
            ).placement().update(sq as int, Some(piece))[s] by {
                assert(mid.placement()[s] == mid.at(s));
            }
            assert(self.placement() =~= old(self).placement().update(sq as int, Some(piece)));
        }
    }

    /// Whether some man of side `by` attacks `sq`.
    pub fn is_square_attacked(&self, attack_info: &AttackInfo, sq: usize, by: PieceColor) -> (r:
        bool)
        requires
            self.wf(),
            attack_info.wf(),
            sq < 64,
        ensures
            r == attacked(self.placement(), sq as int, by),
    {
        let ghost men = self.placement();
        let ghost target = sq as int;
        if by == PieceColor::Both {
            assert forall|a: int| !#[trigger] attacks_from(men, a, target, by) by {
                if 0 <= a < 64 && men[a] is Some {
                    lemma_piece_numbering(men[a].unwrap());
                }
            }
            return false;
        }
        let occ: u64 = self.units[2];
        let base: usize = 6 * by.index();
        let pawns: u64 = intersect(
            attack_info.get_pawn_attack(by.opposite(), sq),
            self.piece[base],
        );
        let knights: u64 = intersect(attack_info.get_knight_attack(sq), self.piece[base + 1]);
        let kings: u64 = intersect(attack_info.get_king_attack(sq), self.piece[base + 5]);
        let diagonal: u64 = intersect(
            attack_info.get_bishop_attack(sq, occ),
            union(self.piece[base + 2], self.piece[base + 4]),
        );
        let straight: u64 = intersect(
            attack_info.get_rook_attack(sq, occ),
            union(self.piece[base + 3], self.piece[base + 4]),
        );
        let all: u64 = union(union(pawns, knights), union(kings, union(diagonal, straight)));
        proof {
            assert(squares(occ) =~= occupied(men));
            assert forall|a: int| #[trigger] holds(all, a) == attacks_from(men, a, target, by) by {
                if 0 <= a < 64 {
                    assert(men[a] == self.at(a));
                    lemma_step_symmetric(by, a, target);
                    lemma_reach_symmetric(a, target, occupied(men));
                    if self.at(a) is Some {
                        lemma_piece_numbering(self.at(a).unwrap());
                    }
                }
            }
            if all != 0 {
                lemma_lowest(all);
                assert(attacks_from(men, lowest(all), target, by));
            } else {
                lemma_holds_empty();
                assert forall|a: int| !#[trigger] attacks_from(men, a, target, by) by {
                    assert(holds(all, a) == attacks_from(men, a, target, by));
                }
            }
        }
        all != 0
    }

    /// Derives the three occupancies from the twelve piece bitboards.
    pub fn update_units(&mut self)
        requires
            forall|p: int, s: int|
                0 <= p < 12 ==> #[trigger] holds(old(self).piece[p], s) == (old(self).at(s) is Some
                    && old(self).at(s) == Piece::numbered(p)),
        ensures
            final(self).wf(),
            final(self).piece == old(self).piece,
            final(self).units[0] == old(self).piece[0] | old(self).piece[1] | old(self).piece[2]
                | old(self).piece[3] | old(self).piece[4] | old(self).piece[5],
            final(self).units[1] == old(self).piece[6] | old(self).piece[7] | old(self).piece[8]
                | old(self).piece[9] | old(self).piece[10] | old(self).piece[11],
            final(self).units[2] == final(self).units[0] | final(self).units[1],
    {
        let p = &self.piece;
        let light: u64 = p[0] | p[1] | p[2] | p[3] | p[4] | p[5];
        let dark: u64 = p[6] | p[7] | p[8] | p[9] | p[10] | p[11];
        proof {
            lemma_holds_ops(p[0], p[1]);
            lemma_holds_ops(p[0] | p[1], p[2]);
            lemma_holds_ops(p[0] | p[1] | p[2], p[3]);
            lemma_holds_ops(p[0] | p[1] | p[2] | p[3], p[4]);
            lemma_holds_ops(p[0] | p[1] | p[2] | p[3] | p[4], p[5]);
            lemma_holds_ops(p[6], p[7]);
            lemma_holds_ops(p[6] | p[7], p[8]);
            lemma_holds_ops(p[6] | p[7] | p[8], p[9]);
            lemma_holds_ops(p[6] | p[7] | p[8] | p[9], p[10]);
            lemma_holds_ops(p[6] | p[7] | p[8] | p[9] | p[10], p[11]);
            lemma_holds_ops(light, dark);
        }
        self.units[0] = light;
        self.units[1] = dark;
        self.units[2] = light | dark;
    }
}

/// Whose turn it is, and what else a position remembers of the game so far.
#[derive(Clone, Copy, Debug)]
pub struct State {
    /// The side to move.
    pub side: PieceColor,
    /// The other side.
    pub xside: PieceColor,
    /// The castling rights that are left, one bit each.
    pub castling: u8,
    /// The square that a pawn passed over on the move before, or `NO_SQ`.
    pub enpassant: usize,
    /// Plies since the last pawn move or capture.
    pub half_moves: u32,
    /// The number of the move, which grows after each move of the dark side.
    pub full_moves: u32,
    /// The first hash of the position.
    pub key: u64,
    /// The second, independent hash of the position.
    pub lock: u64,
}

proof fn lemma_toggle_bit(c: u8, k: u8, t: u64)
    by (bit_vector)
    requires
        c < 16,
        k < 4,
        t < 64,
    ensures
        (c ^ (1u8 << k)) < 16,
        ((((c ^ (1u8 << k)) as u64) >> t) & 1 == 1) <==> ((((c as u64) >> t) & 1 == 1) != (t
            == k as u64)),
{
}

impl State {
    /// One side is to move and the other is not; only the four rights are
    /// in the mask; the en-passant square is a square or `NO_SQ`.
    pub open spec fn wf(&self) -> bool {
        &&& self.side != PieceColor::Both
        &&& self.xside == self.side.other()
        &&& self.castling < 16
        &&& self.enpassant <= NO_SQ
    }

    /// The state before the first move of a game without castling rights.
    pub fn new() -> (r: State)
        ensures
            r.wf(),
            r.side == PieceColor::Light,
            r.castling == 0,
            r.enpassant == NO_SQ,
            r.half_moves == 0,
            r.full_moves == 1,
            r.key == 0,
            r.lock == 0,
    {
        State {
            side: PieceColor::Light,
            xside: PieceColor::Dark,
            castling: 0,
            enpassant: NO_SQ,
            half_moves: 0,
            full_moves: 1,
            key: 0,
            lock: 0,
        }
    }

    /// Gives the right with bit number `idx` if it is missing, and takes it
    /// if it is there.
    pub fn toggle_castling(&mut self, idx: usize)
        requires
            old(self).castling < 16,
            idx < 4,
        ensures
            final(self).castling < 16,
            final(self).castling == old(self).castling ^ (1u8 << (idx as u8)),
            forall|t: int|
                0 <= t < 64 ==> #[trigger] holds(final(self).castling as u64, t) == (holds(
                    old(self).castling as u64,
                    t,
                ) != (t == idx)),
            final(self).side == old(self).side,
            final(self).xside == old(self).xside,
            final(self).enpassant == old(self).enpassant,
            final(self).half_moves == old(self).half_moves,
            final(self).full_moves == old(self).full_moves,
            final(self).key == old(self).key,
            final(self).lock == old(self).lock,
    {
        let c: u8 = self.castling;
        proof {
            assert forall|t: int| 0 <= t < 64 implies #[trigger] holds(
                (c ^ (1u8 << (idx as u8))) as u64,
                t,
            ) == (holds(c as u64, t) != (t == idx)) by {
                lemma_toggle_bit(c, idx as u8, t as u64);
            }
            lemma_toggle_bit(c, idx as u8, 0);
        }
        self.castling = c ^ (1u8 << (idx as u8));
    }

    /// Whether right `ct` is left.
    pub fn can_castle(&self, ct: CastlingType) -> (r: bool)
        ensures
            r == has_right(self.castling, ct),
    {
        get(self.castling as u64, ct.index())
    }
}

/// A position as a mathematical value: the man on each of the 64 squares and
/// the state, without the hashes.
pub ghost struct BoardView {
    pub men: Seq<Option<Piece>>,
    pub side: PieceColor,
    pub castling: u8,
    pub enpassant: usize,
    pub half_moves: u32,
    pub full_moves: u32,
}

/// The kind of the piece that starts a game in column `c` of its side's
/// first row.
pub open spec fn first_row_kind(c: int) -> PieceType {
    if c == 0 || c == 7 {
        PieceType::Rook
    } else if c == 1 || c == 6 {
        PieceType::Knight
    } else if c == 2 || c == 5 {
        PieceType::Bishop
    } else if c == 3 {
        PieceType::Queen
    } else {
        PieceType::King
    }
}

/// The man that stands on square `s` when a game starts.
pub open spec fn starting_man(s: int) -> Option<Piece> {
    if s / 8 == 0 {
        Some(Piece::of(PieceColor::Dark, first_row_kind(s % 8)))
    } else if s / 8 == 1 {
        Some(Piece::DP)
    } else if s / 8 == 6 {
        Some(Piece::LP)
    } else if s / 8 == 7 {
        Some(Piece::of(PieceColor::Light, first_row_kind(s % 8)))
    } else {
        None
    }
}

/// The position from which a game starts.
pub open spec fn starting_position() -> BoardView {
    BoardView {
        men: Seq::new(64, |s: int| starting_man(s)),
        side: PieceColor::Light,
        castling: 15,
        enpassant: NO_SQ,
        half_moves: 0,
        full_moves: 1,
    }
}

/// A position: the men and the state.
#[derive(Clone, Copy, Debug)]
pub struct Board {
    pub pos: Position,
    pub state: State,
}

impl View for Board {
    type V = BoardView;

    open spec fn view(&self) -> BoardView {
        BoardView {
            men: self.pos.placement(),
            side: self.state.side,
            castling: self.state.castling,
            enpassant: self.state.enpassant,
            half_moves: self.state.half_moves,
            full_moves: self.state.full_moves,
        }
    }
}

impl Board {
    /// The men and the state are both well-formed.
    pub open spec fn wf(&self) -> bool {
        self.pos.wf() && self.state.wf()
    }

    /// The empty board, light to move.
    pub fn new() -> (r: Board)
        ensures
            r.wf(),
            r@.men == Seq::new(64, |s: int| None::<Piece>),
            r.state.side == PieceColor::Light,
            r.state.castling == 0,
            r.state.enpassant == NO_SQ,
            r.state.half_moves == 0,
            r.state.full_moves == 1,
            r.state.key == 0,
            r.state.lock == 0,
    {
        Board { pos: Position::new(), state: State::new() }
    }

    /// The position from which a game starts, with both hashes computed by
    /// `zobrist_info`.
    pub fn starting(zobrist_info: &ZobristInfo) -> (r: Board)
        requires
            zobrist_info.wf(),
        ensures
            r.wf(),
            r@ == starting_position(),
            zobrist_info.hashes(r),
    {
        let mut board = Board::new();
        let mut c: usize = 0;
        while c < 8
            invariant
                c <= 8,
                board.pos.wf(),
                board.state.wf(),
                board.state.half_moves == 0,
                board.state.full_moves == 1,
                board.state.enpassant == NO_SQ,
                board.state.side == PieceColor::Light,
                forall|s: int|
                    0 <= s < 64 ==> #[trigger] board.pos.placement()[s] == (if s % 8 < c {
                        starting_man(s)
                    } else {
                        None
                    }),
            decreases 8 - c,
        {
            let kind: PieceType = if c == 0 || c == 7 {
                PieceType::Rook
            } else if c == 1 || c == 6 {
                PieceType::Knight
            } else if c == 2 || c == 5 {
                PieceType::Bishop
            } else if c == 3 {
                PieceType::Queen
            } else {
                PieceType::King
            };
            board.pos.put(c, Piece::make(PieceColor::Dark, kind));
            board.pos.put(8 + c, Piece::DP);
            board.pos.put(48 + c, Piece::LP);
            board.pos.put(56 + c, Piece::make(PieceColor::Light, kind));
            c = c + 1;
        }
        board.state.castling = 15;
        board.state.key = gen_board_key(&zobrist_info.key, &board);
        board.state.lock = gen_board_lock(&zobrist_info.lock, &board);
        proof {
            assert(board@.men =~= starting_position().men);
        }
        board
    }

    /// The position that `fen` describes, with both hashes computed by
    /// `zobrist_info`; or the first thing that is wrong with `fen`.
    pub fn from_fen(fen: &str, zobrist_info: &ZobristInfo) -> (r: Result<Board, FenError>)
        requires
            zobrist_info.wf(),
        ensures
            match position_of(fen@) {
                Ok(v) => r matches Ok(b) && b@ == v && b.wf() && zobrist_info.hashes(b),
                Err(e) => r == Err::<Board, FenError>(e),
            },
    {
        parse(fen, zobrist_info)
    }

    /// The piece on square `sq`, if any; none for a number that is no square.
    pub fn find_piece(&self, sq: usize) -> (r: Option<Piece>)
        ensures
            sq < 64 ==> r == self@.men[sq as int],
            sq >= 64 ==> r is None,
    {
        self.pos.find_piece(sq)
    }

    /// The first square on which a king of `color` stands, or `NO_SQ` if
    /// none does; `Both` counts as dark.
    pub fn king_square(&self, color: PieceColor) -> (r: usize)
        requires
            self.pos.wf(),
        ensures
            r <= NO_SQ,
            r < 64 ==> self@.men[r as int] == Some(Piece::of(color, PieceType::King)),
            forall|s: int|
                0 <= s < r && s < 64 ==> #[trigger] self@.men[s] != Some(
                    Piece::of(color, PieceType::King),
                ),
    {
        let king: Piece = Piece::make(color, PieceType::King);
        let kings: u64 = self.pos.piece[king.index()];
        proof {
            lemma_piece_numbering(king);
            lemma_holds_empty();
            assert forall|s: int| 0 <= s < 64 implies #[trigger] self@.men[s] == self.pos.at(
                s,
            ) by {}
        }
        if kings != 0 {
            lsb(kings)
        } else {
            NO_SQ
        }
    }

    /// Whether the light side is to move.
    pub fn is_white_to_move(&self) -> (r: bool)
        ensures
            r == (self.state.side == PieceColor::Light),
    {
        self.state.side == PieceColor::Light
    }

    /// Whether some man of side `by` attacks `sq`.
    pub fn is_square_attacked(&self, attack_info: &AttackInfo, sq: usize, by: PieceColor) -> (r:
        bool)
        requires
            self.pos.wf(),
            attack_info.wf(),
            sq < 64,
        ensures
            r == attacked(self@.men, sq as int, by),
    {
        self.pos.is_square_attacked(attack_info, sq, by)
    }

    /// Whether side `by` gives check: whether it attacks a king of the other
    /// side.
    pub fn is_in_check(&self, attack_info: &AttackInfo, by: PieceColor) -> (r: bool)
        requires
            self.pos.wf(),
            attack_info.wf(),
        ensures
            r == in_check(self@.men, by.other()),
    {
        let ghost men = self.pos.placement();
        let victim: PieceColor = by.opposite();
        let king: Piece = Piece::make(victim, PieceType::King);
        let all: u64 = self.pos.piece[king.index()];
        let mut rest: u64 = all;
        proof {
            lemma_piece_numbering(king);
        }
        while rest != 0
            invariant
                self.pos.wf(),
                attack_info.wf(),
                men == self.pos.placement(),
                all == self.pos.piece[king.idx()],
                0 <= king.idx() < 12,
                Piece::numbered(king.idx()) == Some(king),
                king == Piece::of(by.other(), PieceType::King),
                forall|k: int| holds(rest, k) ==> holds(all, k),
                forall|k: int|
                    #[trigger] holds(all, k) && !holds(rest, k) ==> !attacked(men, k, by),
            decreases squares(rest).len(),
        {
            let ghost before = rest;
            let k: usize = pop_lsb(&mut rest);
            if self.pos.is_square_attacked(attack_info, k, by) {
                proof {
                    assert(holds(all, k as int));
                    assert(men[k as int] == self.pos.at(k as int));
                    assert(men[k as int] == Some(king));
                    assert(by.other().other() == by);
                    assert(checked_at(men, k as int, by.other()));
                }
                return true;
            }
        }
        proof {
            lemma_holds_empty();
            assert(by.other().other() == by);
            assert forall|k: int| !#[trigger] checked_at(men, k, by.other()) by {
                if 0 <= k < 64 && men[k] == Some(king) {
                    assert(men[k] == self.pos.at(k));
                    assert(holds(all, k));
                }
            }
        }
        false
    }
}

/// A well-formed position is determined by its view and its hashes: two
/// that agree in these are the same value, bit for bit.
pub proof fn lemma_same_view_same_board(a: Board, b: Board)
    requires
        a.wf(),
        b.wf(),
        a@ == b@,
        a.state.key == b.state.key,
        a.state.lock == b.state.lock,
    ensures
        a == b,
{
    assert forall|s: int| 0 <= s < 64 implies a.pos.at(s) == b.pos.at(s) by {
        assert(a.pos.placement()[s] == b.pos.placement()[s]);
    }
    assert forall|s: int| !(0 <= s < 64) implies a.pos.at(s) == b.pos.at(s) by {}
    assert forall|p: int| 0 <= p < 12 implies a.pos.piece[p] == b.pos.piece[p] by {
        lemma_same_members(a.pos.piece[p], b.pos.piece[p]);
    }
    assert forall|c: int| 0 <= c < 3 implies a.pos.units[c] == b.pos.units[c] by {
        lemma_same_members(a.pos.units[c], b.pos.units[c]);
    }
    assert(a.pos.piece =~= b.pos.piece);
    assert(a.pos.units =~= b.pos.units);
}

/// The man on square `a` is of side `by` and attacks `target`.
pub open spec fn attacks_from(men: Seq<Option<Piece>>, a: int, target: int, by: PieceColor) -> bool {
    &&& 0 <= a < 64
    &&& a < men.len()
    &&& men[a] matches Some(p)
    &&& p.color_of() == by
    &&& attacks(p.kind_of(), by, a, target, occupied(men))
}

/// Some man of side `by` attacks `target`.
pub open spec fn attacked(men: Seq<Option<Piece>>, target: int, by: PieceColor) -> bool {
    exists|a: int| #[trigger] attacks_from(men, a, target, by)
}

/// A king of `side` stands on `k`, and the other side attacks it there.
pub open spec fn checked_at(men: Seq<Option<Piece>>, k: int, side: PieceColor) -> bool {
    &&& 0 <= k < 64
    &&& k < men.len()
    &&& men[k] == Some(Piece::of(side, PieceType::King))
    &&& attacked(men, k, side.other())
}

/// A king of `side` stands on a square that the other side attacks.
pub open spec fn in_check(men: Seq<Option<Piece>>, side: PieceColor) -> bool {
    exists|k: int| #[trigger] checked_at(men, k, side)
}

/// No two piece bitboards share a square, each side's occupancy is the
/// union of its six piece bitboards, and the occupancy of both is the union
/// of the two sides'.
pub open spec fn occupancy_consistent(pos: Position) -> bool {
    &&& forall|p: int, q: int|
        0 <= p < 12 && 0 <= q < 12 && p != q ==> #[trigger] pos.piece[p] & #[trigger] pos.piece[q]
            == 0
    &&& pos.units[0] == pos.piece[0] | pos.piece[1] | pos.piece[2] | pos.piece[3] | pos.piece[4]
        | pos.piece[5]
    &&& pos.units[1] == pos.piece[6] | pos.piece[7] | pos.piece[8] | pos.piece[9] | pos.piece[10]
        | pos.piece[11]
    &&& pos.units[2] == pos.units[0] | pos.units[1]
}

/// A well-formed position has consistent occupancies.
pub proof fn lemma_occupancy(pos: Position)
    requires
        pos.wf(),
    ensures
        occupancy_consistent(pos),
{
    let p = pos.piece;
    lemma_holds_empty();
    assert forall|a: int, b: int| 0 <= a < 12 && 0 <= b < 12 && a != b implies #[trigger] p[a]
        & #[trigger] p[b] == 0 by {
        lemma_holds_ops(p[a], p[b]);
        lemma_same_members(p[a] & p[b], 0);
    }
    let light = p[0] | p[1] | p[2] | p[3] | p[4] | p[5];
    let dark = p[6] | p[7] | p[8] | p[9] | p[10] | p[11];
    lemma_holds_ops(p[0], p[1]);
    lemma_holds_ops(p[0] | p[1], p[2]);
    lemma_holds_ops(p[0] | p[1] | p[2], p[3]);
    lemma_holds_ops(p[0] | p[1] | p[2] | p[3], p[4]);
    lemma_holds_ops(p[0] | p[1] | p[2] | p[3] | p[4], p[5]);
    lemma_holds_ops(p[6], p[7]);
    lemma_holds_ops(p[6] | p[7], p[8]);
    lemma_holds_ops(p[6] | p[7] | p[8], p[9]);
    lemma_holds_ops(p[6] | p[7] | p[8] | p[9], p[10]);
    lemma_holds_ops(p[6] | p[7] | p[8] | p[9] | p[10], p[11]);
    lemma_holds_ops(pos.units[0], pos.units[1]);
    lemma_same_members(pos.units[0], light);
    lemma_same_members(pos.units[1], dark);
    lemma_same_members(pos.units[2], pos.units[0] | pos.units[1]);
}

} // verus!

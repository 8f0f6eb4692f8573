//! Move generation: all the moves that the side to move may try, and among
//! them the legal ones.
use vstd::prelude::*;
use crate::attack::AttackInfo;
use crate::bb::{get, holds, intersect, lemma_holds_empty, lemma_holds_ops, minus, pop_lsb, squares};
use crate::board::{occupied, Board, BoardView, CastlingType};
use crate::consts::{lemma_piece_numbering, Piece, PieceColor, PieceType, NO_SQ};
use crate::moves::{make, promotion_named, square_in, Move, MoveFlag};
use crate::text::{chars_of, sq_from_chars};
use crate::rules::{
    can_castle, castle_by, legal, on_turn, pawn_capture, pawn_double, pawn_enpassant, pawn_push,
    piece_move, plain, promotion_ok, pseudo_legal,
};
use crate::zobrist::ZobristInfo;

verus! {

/// A list of moves. Its order means nothing; its view is the set of its moves.
pub struct MoveList {
    pub moves: Vec<Move>,
}

impl View for MoveList {
    type V = Set<Move>;

    open spec fn view(&self) -> Set<Move> {
        self.moves@.to_set()
    }
}

/// Move `m` goes from `source` to `target` and promotes to `promoted`.
pub open spec fn matches_coords(m: Move, source: usize, target: usize, promoted: Option<Piece>) -> bool {
    m.source == source && m.target == target && m.promoted == promoted
}

/// Adding the moves `added` to the list `before` has left no move twice in
/// the list `after`, provided that no move was twice in `before` and
/// none of `added` was in it.
pub open spec fn adds_distinct(before: MoveList, added: Set<Move>, after: MoveList) -> bool {
    before.moves@.no_duplicates() && before@.disjoint(added) ==> after.moves@.no_duplicates()
}

impl MoveList {
    /// The empty list.
    pub fn new() -> (r: MoveList)
        ensures
            r@ == Set::<Move>::empty(),
            r.moves@.len() == 0,
    {
        let r = MoveList { moves: Vec::new() };
        proof {
            assert(r@ =~= Set::<Move>::empty());
        }
        r
    }

    /// Appends `m`.
    pub fn push(&mut self, m: Move)
        ensures
            final(self).moves@ == old(self).moves@.push(m),
            final(self)@ == old(self)@.insert(m),
            adds_distinct(*old(self), set![m], *final(self)),
    {
        self.moves.push(m);
        proof {
            let a = old(self).moves@;
            let b = self.moves@;
            if a.no_duplicates() && old(self)@.disjoint(set![m]) {
                assert(set![m].contains(m));
                assert(!a.contains(m));
                assert forall|i: int, j: int| 0 <= i < b.len() && 0 <= j < b.len() && i
                    != j implies b[i] != b[j] by {
                    if i < a.len() {
                        assert(a.contains(a[i]));
                    }
                    if j < a.len() {
                        assert(a.contains(a[j]));
                    }
                }
            }
            assert forall|x: Move| b.to_set().contains(x) == a.to_set().insert(m).contains(x) by {
                if a.contains(x) {
                    let i = choose|i: int| 0 <= i < a.len() && a[i] == x;
                    assert(b[i] == x);
                }
                if x == m {
                    assert(b[a.len() as int] == x);
                }
            }
            assert(b.to_set() =~= a.to_set().insert(m));
        }
    }

    /// Whether the list holds no move.
    pub fn is_empty(&self) -> (r: bool)
        ensures
            r == (self@ == Set::<Move>::empty()),
            r == (self.moves@.len() == 0),
    {
        proof {
            if self.moves@.len() > 0 {
                assert(self.moves@.contains(self.moves@[0]));
                assert(self@.contains(self.moves@[0]));
            } else {
                assert(self@ =~= Set::<Move>::empty());
            }
        }
        self.moves.len() == 0
    }

    /// The first move of the list from `source` to `target` that promotes to
    /// `promoted`, if there is one.
    pub fn search(&self, source: usize, target: usize, promoted: Option<Piece>) -> (r: Option<Move>)
        ensures
            r matches Some(m) ==> exists|i: int|
                0 <= i < self.moves@.len() && self.moves@[i] == m && matches_coords(
                    m,
                    source,
                    target,
                    promoted,
                ) && forall|j: int|
                    0 <= j < i ==> !matches_coords(#[trigger] self.moves@[j], source, target, promoted),
            r is None ==> forall|j: int|
                0 <= j < self.moves@.len() ==> !matches_coords(
                    #[trigger] self.moves@[j],
                    source,
                    target,
                    promoted,
                ),
            r matches Some(m) ==> self@.contains(m),
    {
        let mut i: usize = 0;
        while i < self.moves.len()
            invariant
                i <= self.moves@.len(),
                forall|j: int|
                    0 <= j < i ==> !matches_coords(
                        #[trigger] self.moves@[j],
                        source,
                        target,
                        promoted,
                    ),
            decreases self.moves@.len() - i,
        {
            let m: Move = self.moves[i];
            if m.source == source && m.target == target && m.promoted == promoted {
                return Some(m);
            }
            i = i + 1;
        }
        None
    }
}

/// The squares of `a` that are not in `b`.
pub open spec fn minus_spec(a: u64, b: u64) -> u64 {
    a & !b
}

/// The moves of `piece` from `source` to the squares of `targets`, each a
/// capture exactly if its target is in `enemies`.
pub open spec fn arrivals(source: usize, targets: u64, piece: Piece, enemies: u64) -> Set<Move> {
    Set::new(
        |m: Move|
            m.source == source && m.piece == piece && holds(targets, m.target as int) && m.capture
                == holds(enemies, m.target as int) && plain(m) && m.promoted is None,
    )
}

/// Adds the moves of `piece` from `source` to each square of `targets`.
fn add_arrivals(ml: &mut MoveList, source: usize, targets: u64, piece: Piece, enemies: u64)
    ensures
        final(ml)@ == old(ml)@.union(arrivals(source, targets, piece, enemies)),
        adds_distinct(*old(ml), arrivals(source, targets, piece, enemies), *final(ml)),
{
    let mut rest: u64 = targets;
    let ghost before = ml@;
    let ghost all = arrivals(source, targets, piece, enemies);
    proof {
        assert(ml@ =~= before.union(arrivals(source, minus_spec(targets, rest), piece, enemies)))
            by {
            lemma_holds_ops(targets, rest);
        }
    }
    while rest != 0
        invariant
            forall|t: int| holds(rest, t) ==> holds(targets, t),
            ml@ == before.union(arrivals(source, minus_spec(targets, rest), piece, enemies)),
            before == old(ml)@,
            all == arrivals(source, targets, piece, enemies),
            adds_distinct(*old(ml), all, *ml),
        decreases squares(rest).len(),
    {
        let ghost rest0 = rest;
        let t: usize = pop_lsb(&mut rest);
        let m = Move {
            source,
            target: t,
            piece,
            promoted: None,
            capture: get(enemies, t),
            twosquare: false,
            enpassant: false,
            castling: false,
        };
        ml.push(m);
        proof {
            lemma_holds_ops(targets, rest);
            lemma_holds_ops(targets, rest0);
            assert(ml@ =~= before.union(
                arrivals(source, minus_spec(targets, rest), piece, enemies),
            ));
            assert(all.contains(m));
            assert(!arrivals(source, minus_spec(targets, rest0), piece, enemies).contains(m));
        }
    }
    proof {
        lemma_holds_ops(targets, rest);
        lemma_holds_empty();
        assert(ml@ =~= before.union(arrivals(source, targets, piece, enemies)));
    }
}


/// The moves of `piece` as a knight, bishop, rook, queen or king goes, from
/// the squares that are not in `rest`.
pub open spec fn piece_moves(v: BoardView, piece: Piece, rest: u64) -> Set<Move> {
    Set::new(
        |m: Move|
            on_turn(v, m) && m.piece == piece && piece_move(v, m) && !holds(rest, m.source as int),
    )
}

/// Adds the moves of every `piece` on the board that go as a knight, bishop,
/// rook, queen or king goes.
fn add_piece_moves(board: &Board, attack_info: &AttackInfo, ml: &mut MoveList, piece: Piece)
    requires
        board.wf(),
        attack_info.wf(),
        piece.color_of() == board.state.side,
        piece.kind_of() != PieceType::Pawn,
    ensures
        final(ml)@ == old(ml)@.union(piece_moves(board@, piece, 0)),
        adds_distinct(*old(ml), piece_moves(board@, piece, 0), *final(ml)),
{
    let ghost v = board@;
    let ghost before = ml@;
    let side: PieceColor = board.state.side;
    let own: u64 = board.pos.units[side.index()];
    let enemies: u64 = board.pos.units[side.opposite().index()];
    let occ: u64 = board.pos.units[2];
    let all: u64 = board.pos.piece[piece.index()];
    let mut rest: u64 = all;
    proof {
        lemma_piece_numbering(piece);
        assert(squares(occ) =~= occupied(v.men));
        assert(ml@ =~= before.union(piece_moves(v, piece, rest))) by {
            assert forall|m: Move| !piece_moves(v, piece, rest).contains(m) by {
                if on_turn(v, m) && m.piece == piece {
                    assert(v.men[m.source as int] == board.pos.at(m.source as int));
                }
            }
        }
    }
    while rest != 0
        invariant
            board.wf(),
            attack_info.wf(),
            v == board@,
            side == board.state.side,
            piece.color_of() == side,
            piece.kind_of() != PieceType::Pawn,
            0 <= piece.idx() < 12,
            Piece::numbered(piece.idx()) == Some(piece),
            own == board.pos.units[side.idx()],
            enemies == board.pos.units[side.other().idx()],
            occ == board.pos.units[2],
            all == board.pos.piece[piece.idx()],
            squares(occ) == occupied(v.men),
            forall|s: int| holds(rest, s) ==> holds(all, s),
            ml@ == before.union(piece_moves(v, piece, rest)),
            before == old(ml)@,
            adds_distinct(*old(ml), piece_moves(v, piece, 0), *ml),
        decreases squares(rest).len(),
    {
        let ghost rest0 = rest;
        let s: usize = pop_lsb(&mut rest);
        let targets: u64 = minus(attack_info.get_attack(piece.kind(), side, s, occ), own);
        add_arrivals(ml, s, targets, piece, enemies);
        proof {
            let added = arrivals(s, targets, piece, enemies);
            assert forall|m: Move| added.contains(m) == (piece_moves(v, piece, rest).contains(m)
                && !piece_moves(v, piece, rest0).contains(m)) by {
                if m.source == s && m.piece == piece && m.target < 64 {
                    let t = m.target as int;
                    assert(v.men[s as int] == board.pos.at(s as int));
                    assert(v.men[t] == board.pos.at(t));
                    if v.men[t] is Some {
                        lemma_piece_numbering(v.men[t].unwrap());
                    }
                }
            }
            assert(ml@ =~= before.union(piece_moves(v, piece, rest)));
            lemma_holds_empty();
            assert(added.subset_of(piece_moves(v, piece, 0)));
            assert(added.disjoint(piece_moves(v, piece, rest0)));
        }
    }
    proof {
        lemma_holds_empty();
        assert(piece_moves(v, piece, rest) =~= piece_moves(v, piece, 0));
    }
}

/// The moves of pawn `piece` from `source` to `target`, captures or not as
/// `capture` says: one move, or on the pawn's last row one for each piece
/// that it can promote to.
pub open spec fn pawn_arrivals(source: usize, target: usize, piece: Piece, capture: bool) -> Set<
    Move,
> {
    Set::new(
        |m: Move|
            m.source == source && m.target == target && m.piece == piece && m.capture == capture
                && plain(m) && promotion_ok(m),
    )
}

/// Adds the move of pawn `piece` from `source` to `target`, or its four
/// promotions where `target` lies on the pawn's last row.
fn add_pawn_arrival(ml: &mut MoveList, source: usize, target: usize, piece: Piece, capture: bool)
    requires
        target < 64,
        piece.kind_of() == PieceType::Pawn,
    ensures
        final(ml)@ == old(ml)@.union(pawn_arrivals(source, target, piece, capture)),
        adds_distinct(*old(ml), pawn_arrivals(source, target, piece, capture), *final(ml)),
{
    let color: PieceColor = piece.color();
    let last: usize = match color {
        PieceColor::Light => 0,
        _ => 7,
    };
    proof {
        lemma_piece_numbering(piece);
    }
    if target / 8 == last {
        let n = Move {
            source,
            target,
            piece,
            promoted: Some(Piece::make(color, PieceType::Knight)),
            capture,
            twosquare: false,
            enpassant: false,
            castling: false,
        };
        let b = Move { promoted: Some(Piece::make(color, PieceType::Bishop)), ..n };
        let r = Move { promoted: Some(Piece::make(color, PieceType::Rook)), ..n };
        let q = Move { promoted: Some(Piece::make(color, PieceType::Queen)), ..n };
        ml.push(n);
        let ghost l1 = *ml;
        ml.push(b);
        let ghost l2 = *ml;
        ml.push(r);
        let ghost l3 = *ml;
        ml.push(q);
        proof {
            let all = pawn_arrivals(source, target, piece, capture);
            assert(all.contains(n) && all.contains(b) && all.contains(r) && all.contains(q));
            if old(ml).moves@.no_duplicates() && old(ml)@.disjoint(all) {
                assert(l1.moves@.no_duplicates());
                assert(l2.moves@.no_duplicates());
                assert(l3.moves@.no_duplicates());
            }
            assert forall|m: Move|
                pawn_arrivals(source, target, piece, capture).contains(m) == (m == n || m == b || m
                    == r || m == q) by {
                if m.promoted is Some {
                    lemma_piece_numbering(m.promoted.unwrap());
                }
            }
            assert(ml@ =~= old(ml)@.union(pawn_arrivals(source, target, piece, capture)));
        }
    } else {
        let m = Move {
            source,
            target,
            piece,
            promoted: None,
            capture,
            twosquare: false,
            enpassant: false,
            castling: false,
        };
        ml.push(m);
        proof {
            assert(ml@ =~= old(ml)@.union(pawn_arrivals(source, target, piece, capture)));
            assert(pawn_arrivals(source, target, piece, capture).contains(m));
        }
    }
}

/// The captures of pawn `piece` from `source` on the squares of `targets`.
pub open spec fn pawn_captures(source: usize, targets: u64, piece: Piece) -> Set<Move> {
    Set::new(
        |m: Move|
            m.source == source && m.piece == piece && holds(targets, m.target as int) && m.capture
                && plain(m) && promotion_ok(m),
    )
}

/// Adds the captures of pawn `piece` from `source` on each square of `targets`.
fn add_pawn_captures(ml: &mut MoveList, source: usize, targets: u64, piece: Piece)
    requires
        piece.kind_of() == PieceType::Pawn,
    ensures
        final(ml)@ == old(ml)@.union(pawn_captures(source, targets, piece)),
        adds_distinct(*old(ml), pawn_captures(source, targets, piece), *final(ml)),
{
    let mut rest: u64 = targets;
    let ghost before = ml@;
    proof {
        lemma_holds_ops(targets, rest);
        assert(ml@ =~= before.union(pawn_captures(source, minus_spec(targets, rest), piece)));
    }
    while rest != 0
        invariant
            piece.kind_of() == PieceType::Pawn,
            forall|t: int| holds(rest, t) ==> holds(targets, t),
            ml@ == before.union(pawn_captures(source, minus_spec(targets, rest), piece)),
            before == old(ml)@,
            adds_distinct(*old(ml), pawn_captures(source, targets, piece), *ml),
        decreases squares(rest).len(),
    {
        let ghost rest0 = rest;
        let t: usize = pop_lsb(&mut rest);
        add_pawn_arrival(ml, source, t, piece, true);
        proof {
            lemma_holds_ops(targets, rest);
            lemma_holds_ops(targets, rest0);
            assert(ml@ =~= before.union(
                pawn_captures(source, minus_spec(targets, rest), piece),
            ));
            let added = pawn_arrivals(source, t, piece, true);
            assert(added.subset_of(pawn_captures(source, targets, piece)));
            assert(added.disjoint(pawn_captures(source, minus_spec(targets, rest0), piece)));
        }
    }
    proof {
        lemma_holds_ops(targets, rest);
        lemma_holds_empty();
        assert(ml@ =~= before.union(pawn_captures(source, targets, piece)));
    }
}

/// The move is one of the four that a pawn has.
pub open spec fn pawn_move(v: BoardView, m: Move) -> bool {
    pawn_push(v, m) || pawn_double(v, m) || pawn_capture(v, m) || pawn_enpassant(v, m)
}

/// The moves of the pawn `piece` that stands on `source`.
pub open spec fn pawn_moves_from(v: BoardView, piece: Piece, source: usize) -> Set<Move> {
    Set::new(|m: Move| on_turn(v, m) && m.piece == piece && m.source == source && pawn_move(v, m))
}

/// Adds the moves of the pawn on `source`.
fn add_pawn_moves_from(
    board: &Board,
    attack_info: &AttackInfo,
    ml: &mut MoveList,
    source: usize,
    piece: Piece,
)
    requires
        board.wf(),
        attack_info.wf(),
        source < 64,
        piece == Piece::of(board.state.side, PieceType::Pawn),
        board@.men[source as int] == Some(piece),
    ensures
        final(ml)@ == old(ml)@.union(pawn_moves_from(board@, piece, source)),
        adds_distinct(*old(ml), pawn_moves_from(board@, piece, source), *final(ml)),
{
    let ghost v = board@;
    let ghost before = ml@;
    let side: PieceColor = board.state.side;
    let light: bool = side == PieceColor::Light;
    let occ: u64 = board.pos.units[2];
    let enemies: u64 = board.pos.units[side.opposite().index()];
    let one: usize = if light {
        if source >= 8 {
            source - 8
        } else {
            64
        }
    } else {
        if source + 8 < 64 {
            source + 8
        } else {
            64
        }
    };
    proof {
        lemma_piece_numbering(piece);
        assert forall|t: int| 0 <= t < 64 implies #[trigger] v.men[t] == board.pos.at(t) by {}
    }
    let ghost mut pushes: Set<Move> = Set::empty();
    let ghost mut doubles: Set<Move> = Set::empty();
    let ghost l0 = *ml;
    let ghost mut l1 = *ml;
    if one < 64 && !get(occ, one) {
        add_pawn_arrival(ml, source, one, piece, false);
        proof {
            pushes = pawn_arrivals(source, one, piece, false);
            l1 = *ml;
        }
        let start: usize = if light {
            6
        } else {
            1
        };
        if source / 8 == start {
            let two: usize = if light {
                source - 16
            } else {
                source + 16
            };
            if !get(occ, two) {
                let m = Move {
                    source,
                    target: two,
                    piece,
                    promoted: None,
                    capture: false,
                    twosquare: true,
                    enpassant: false,
                    castling: false,
                };
                ml.push(m);
                proof {
                    doubles = set![m];
                }
            }
        }
    }
    let ghost l2 = *ml;
    let attacked: u64 = attack_info.get_pawn_attack(side, source);
    let targets: u64 = intersect(attacked, enemies);
    add_pawn_captures(ml, source, targets, piece);
    let ghost l3 = *ml;
    let ghost mut passing: Set<Move> = Set::empty();
    let ep: usize = board.state.enpassant;
    if ep < 64 && get(attacked, ep) {
        let m = Move {
            source,
            target: ep,
            piece,
            promoted: None,
            capture: false,
            twosquare: false,
            enpassant: true,
            castling: false,
        };
        ml.push(m);
        proof {
            passing = set![m];
        }
    }
    proof {
        let captures = pawn_captures(source, targets, piece);
        let wanted = pawn_moves_from(v, piece, source);
        assert(ml@ =~= before.union(pushes).union(doubles).union(captures).union(passing));
        assert forall|m: Move|
            on_turn(v, m) && m.piece == piece && m.source == source implies (pushes.contains(m)
                == pawn_push(v, m)) by {}
        assert forall|m: Move|
            on_turn(v, m) && m.piece == piece && m.source == source implies (doubles.contains(m)
                == pawn_double(v, m)) by {}
        assert forall|m: Move|
            on_turn(v, m) && m.piece == piece && m.source == source implies (captures.contains(m)
                == pawn_capture(v, m)) by {
            if v.men[m.target as int] is Some {
                lemma_piece_numbering(v.men[m.target as int].unwrap());
            }
        }
        assert forall|m: Move|
            on_turn(v, m) && m.piece == piece && m.source == source implies (passing.contains(m)
                == pawn_enpassant(v, m)) by {}
        assert forall|m: Move|
            pushes.contains(m) || doubles.contains(m) || captures.contains(m) || passing.contains(
                m,
            ) implies on_turn(v, m) && m.piece == piece && m.source == source by {}
        assert(pushes.union(doubles).union(captures).union(passing) =~= wanted);
        assert(ml@ =~= before.union(wanted));
        if l0.moves@.no_duplicates() && l0@.disjoint(wanted) {
            assert(l1@ =~= l0@.union(pushes));
            assert(l1.moves@.no_duplicates());
            assert(l1@.disjoint(doubles));
            assert(l2@ =~= l1@.union(doubles));
            assert(l2.moves@.no_duplicates());
            assert(l3@ =~= l2@.union(captures));
            assert(l2@.disjoint(captures));
            assert(l3.moves@.no_duplicates());
            assert(l3@.disjoint(passing));
            assert(ml.moves@.no_duplicates());
        }
    }
}

/// The moves of the pawns `piece` from the squares that are not in `rest`.
pub open spec fn pawn_moves(v: BoardView, piece: Piece, rest: u64) -> Set<Move> {
    Set::new(
        |m: Move|
            on_turn(v, m) && m.piece == piece && pawn_move(v, m) && !holds(rest, m.source as int),
    )
}

/// Adds the moves of every pawn of the side to move.
fn add_pawn_moves(board: &Board, attack_info: &AttackInfo, ml: &mut MoveList, piece: Piece)
    requires
        board.wf(),
        attack_info.wf(),
        piece == Piece::of(board.state.side, PieceType::Pawn),
    ensures
        final(ml)@ == old(ml)@.union(pawn_moves(board@, piece, 0)),
        adds_distinct(*old(ml), pawn_moves(board@, piece, 0), *final(ml)),
{
    let ghost v = board@;
    let ghost before = ml@;
    let all: u64 = board.pos.piece[piece.index()];
    let mut rest: u64 = all;
    proof {
        lemma_piece_numbering(piece);
        assert forall|m: Move| !pawn_moves(v, piece, rest).contains(m) by {
            if on_turn(v, m) && m.piece == piece {
                assert(v.men[m.source as int] == board.pos.at(m.source as int));
            }
        }
        assert(ml@ =~= before.union(pawn_moves(v, piece, rest)));
    }
    while rest != 0
        invariant
            board.wf(),
            attack_info.wf(),
            v == board@,
            piece == Piece::of(board.state.side, PieceType::Pawn),
            0 <= piece.idx() < 12,
            Piece::numbered(piece.idx()) == Some(piece),
            all == board.pos.piece[piece.idx()],
            forall|s: int| holds(rest, s) ==> holds(all, s),
            ml@ == before.union(pawn_moves(v, piece, rest)),
            before == old(ml)@,
            adds_distinct(*old(ml), pawn_moves(v, piece, 0), *ml),
        decreases squares(rest).len(),
    {
        let ghost rest0 = rest;
        let s: usize = pop_lsb(&mut rest);
        proof {
            assert(v.men[s as int] == board.pos.at(s as int));
        }
        add_pawn_moves_from(board, attack_info, ml, s, piece);
        proof {
            assert forall|m: Move|
                pawn_moves_from(v, piece, s).contains(m) == (pawn_moves(v, piece, rest).contains(m)
                    && !pawn_moves(v, piece, rest0).contains(m)) by {}
            assert(ml@ =~= before.union(pawn_moves(v, piece, rest)));
            lemma_holds_empty();
            assert(pawn_moves_from(v, piece, s).subset_of(pawn_moves(v, piece, 0)));
            assert(pawn_moves_from(v, piece, s).disjoint(pawn_moves(v, piece, rest0)));
        }
    }
    proof {
        lemma_holds_empty();
        assert(pawn_moves(v, piece, rest) =~= pawn_moves(v, piece, 0));
    }
}

/// The castling move by right `ct`, if the side to move has it.
pub open spec fn castle_moves_by(v: BoardView, ct: CastlingType) -> Set<Move> {
    Set::new(|m: Move| on_turn(v, m) && m.piece.kind_of() == PieceType::King && castle_by(v, m, ct))
}

/// Adds the castling move by right `ct` if the side to move may make it.
fn add_castle(board: &Board, attack_info: &AttackInfo, ml: &mut MoveList, ct: CastlingType)
    requires
        board.wf(),
        attack_info.wf(),
    ensures
        final(ml)@ == old(ml)@.union(castle_moves_by(board@, ct)),
        adds_distinct(*old(ml), castle_moves_by(board@, ct), *final(ml)),
{
    let ghost v = board@;
    let side: PieceColor = board.state.side;
    let other: PieceColor = side.opposite();
    let owner: PieceColor = match ct {
        CastlingType::WhiteKingside | CastlingType::WhiteQueenside => PieceColor::Light,
        _ => PieceColor::Dark,
    };
    let home: usize = match ct {
        CastlingType::WhiteKingside | CastlingType::WhiteQueenside => 60,
        _ => 4,
    };
    let goal: usize = match ct {
        CastlingType::WhiteKingside => 62,
        CastlingType::WhiteQueenside => 58,
        CastlingType::BlackKingside => 6,
        CastlingType::BlackQueenside => 2,
    };
    let pass: usize = match ct {
        CastlingType::WhiteKingside => 61,
        CastlingType::WhiteQueenside => 59,
        CastlingType::BlackKingside => 5,
        CastlingType::BlackQueenside => 3,
    };
    let king: Piece = Piece::make(side, PieceType::King);
    let occ: u64 = board.pos.units[2];
    proof {
        lemma_piece_numbering(king);
        assert forall|t: int| 0 <= t < 64 implies #[trigger] v.men[t] == board.pos.at(t) by {}
    }
    let at_home: bool = match board.find_piece(home) {
        Some(p) => p == king,
        None => false,
    };
    let path_empty: bool = !get(occ, pass) && !get(occ, goal) && match ct {
        CastlingType::WhiteQueenside => !get(occ, 57),
        CastlingType::BlackQueenside => !get(occ, 1),
        _ => true,
    };
    if owner == side && at_home && board.state.can_castle(ct) && path_empty
        && !board.is_square_attacked(attack_info, home, other) && !board.is_square_attacked(
        attack_info,
        pass,
        other,
    ) && !board.is_square_attacked(attack_info, goal, other) {
        let m = Move {
            source: home,
            target: goal,
            piece: king,
            promoted: None,
            capture: false,
            twosquare: false,
            enpassant: false,
            castling: true,
        };
        ml.push(m);
        proof {
            assert forall|x: Move| castle_moves_by(v, ct).contains(x) == (x == m) by {
                lemma_piece_numbering(x.piece);
            }
            assert(ml@ =~= old(ml)@.union(castle_moves_by(v, ct)));
        }
    } else {
        proof {
            assert forall|x: Move| !castle_moves_by(v, ct).contains(x) by {
                lemma_piece_numbering(x.piece);
            }
            assert(ml@ =~= old(ml)@.union(castle_moves_by(v, ct)));
        }
    }
}

/// The moves of `piece` that the side to move may try.
pub open spec fn moves_of(v: BoardView, piece: Piece) -> Set<Move> {
    Set::new(|m: Move| pseudo_legal(v, m) && m.piece == piece)
}

/// All the moves that the side to move may try.
pub open spec fn all_moves(v: BoardView) -> Set<Move> {
    Set::new(|m: Move| pseudo_legal(v, m))
}

/// The legal moves of the side to move.
pub open spec fn legal_set(v: BoardView) -> Set<Move> {
    Set::new(|m: Move| legal(v, m))
}

/// Adds to `ml` every move of `piece` that the side to move may try: none
/// if `piece` is not of that side.
pub fn generate_by_piece(
    board: &Board,
    attack_info: &AttackInfo,
    ml: &mut MoveList,
    piece: Piece,
)
    requires
        board.wf(),
        attack_info.wf(),
    ensures
        final(ml)@ == old(ml)@.union(moves_of(board@, piece)),
        adds_distinct(*old(ml), moves_of(board@, piece), *final(ml)),
{
    let ghost v = board@;
    let ghost before = ml@;
    proof {
        lemma_piece_numbering(piece);
    }
    if piece.color() != board.state.side {
        proof {
            assert(ml@ =~= before.union(moves_of(v, piece)));
        }
        return ;
    }
    match piece.kind() {
        PieceType::Pawn => {
            add_pawn_moves(board, attack_info, ml, piece);
            proof {
                assert(pawn_moves(v, piece, 0) =~= moves_of(v, piece)) by {
                    lemma_holds_empty();
                }
            }
        },
        PieceType::King => {
            add_piece_moves(board, attack_info, ml, piece);
            let ghost l1 = *ml;
            add_castle(board, attack_info, ml, CastlingType::WhiteKingside);
            let ghost l2 = *ml;
            add_castle(board, attack_info, ml, CastlingType::WhiteQueenside);
            let ghost l3 = *ml;
            add_castle(board, attack_info, ml, CastlingType::BlackKingside);
            let ghost l4 = *ml;
            add_castle(board, attack_info, ml, CastlingType::BlackQueenside);
            proof {
                lemma_holds_empty();
                let wanted = moves_of(v, piece);
                if old(ml).moves@.no_duplicates() && old(ml)@.disjoint(wanted) {
                    assert(piece_moves(v, piece, 0).subset_of(wanted));
                    assert(l1.moves@.no_duplicates());
                    assert(castle_moves_by(v, CastlingType::WhiteKingside).subset_of(wanted)) by {
                        assert forall|m: Move|
                            castle_moves_by(v, CastlingType::WhiteKingside).contains(
                                m,
                            ) implies wanted.contains(m) by {
                            lemma_piece_numbering(m.piece);
                        }
                    }
                    assert(castle_moves_by(v, CastlingType::WhiteQueenside).subset_of(wanted)) by {
                        assert forall|m: Move|
                            castle_moves_by(v, CastlingType::WhiteQueenside).contains(
                                m,
                            ) implies wanted.contains(m) by {
                            lemma_piece_numbering(m.piece);
                        }
                    }
                    assert(castle_moves_by(v, CastlingType::BlackKingside).subset_of(wanted)) by {
                        assert forall|m: Move|
                            castle_moves_by(v, CastlingType::BlackKingside).contains(
                                m,
                            ) implies wanted.contains(m) by {
                            lemma_piece_numbering(m.piece);
                        }
                    }
                    assert(castle_moves_by(v, CastlingType::BlackQueenside).subset_of(wanted)) by {
                        assert forall|m: Move|
                            castle_moves_by(v, CastlingType::BlackQueenside).contains(
                                m,
                            ) implies wanted.contains(m) by {
                            lemma_piece_numbering(m.piece);
                        }
                    }
                    assert(l1@.disjoint(castle_moves_by(v, CastlingType::WhiteKingside)));
                    assert(l2.moves@.no_duplicates());
                    assert(l2@.disjoint(castle_moves_by(v, CastlingType::WhiteQueenside)));
                    assert(l3.moves@.no_duplicates());
                    assert(l3@.disjoint(castle_moves_by(v, CastlingType::BlackKingside)));
                    assert(l4.moves@.no_duplicates());
                    assert(l4@.disjoint(castle_moves_by(v, CastlingType::BlackQueenside)));
                }
                let castles = castle_moves_by(v, CastlingType::WhiteKingside).union(
                    castle_moves_by(v, CastlingType::WhiteQueenside),
                ).union(castle_moves_by(v, CastlingType::BlackKingside)).union(
                    castle_moves_by(v, CastlingType::BlackQueenside),
                );
                assert forall|m: Move|
                    moves_of(v, piece).contains(m) == (piece_moves(v, piece, 0).contains(m)
                        || castles.contains(m)) by {
                    lemma_piece_numbering(m.piece);
                }
                assert(ml@ =~= before.union(moves_of(v, piece)));
            }
        },
        _ => {
            add_piece_moves(board, attack_info, ml, piece);
            proof {
                assert(piece_moves(v, piece, 0) =~= moves_of(v, piece)) by {
                    lemma_holds_empty();
                }
            }
        },
    }
}

/// Adds to `ml` every move that the side to move may try.
pub fn generate_all(board: &Board, attack_info: &AttackInfo, ml: &mut MoveList)
    requires
        board.wf(),
        attack_info.wf(),
    ensures
        final(ml)@ == old(ml)@.union(all_moves(board@)),
        adds_distinct(*old(ml), all_moves(board@), *final(ml)),
{
    let ghost v = board@;
    let ghost before = ml@;
    let side: PieceColor = board.state.side;
    let p = Piece::make(side, PieceType::Pawn);
    let n = Piece::make(side, PieceType::Knight);
    let b = Piece::make(side, PieceType::Bishop);
    let r = Piece::make(side, PieceType::Rook);
    let q = Piece::make(side, PieceType::Queen);
    let k = Piece::make(side, PieceType::King);
    generate_by_piece(board, attack_info, ml, p);
    let ghost l1 = *ml;
    generate_by_piece(board, attack_info, ml, n);
    let ghost l2 = *ml;
    generate_by_piece(board, attack_info, ml, b);
    let ghost l3 = *ml;
    generate_by_piece(board, attack_info, ml, r);
    let ghost l4 = *ml;
    generate_by_piece(board, attack_info, ml, q);
    let ghost l5 = *ml;
    generate_by_piece(board, attack_info, ml, k);
    proof {
        if old(ml).moves@.no_duplicates() && old(ml)@.disjoint(all_moves(v)) {
            assert(old(ml)@.disjoint(moves_of(v, p)));
            assert(l1.moves@.no_duplicates());
            assert(l1@.disjoint(moves_of(v, n)));
            assert(l2.moves@.no_duplicates());
            assert(l2@.disjoint(moves_of(v, b)));
            assert(l3.moves@.no_duplicates());
            assert(l3@.disjoint(moves_of(v, r)));
            assert(l4.moves@.no_duplicates());
            assert(l4@.disjoint(moves_of(v, q)));
            assert(l5.moves@.no_duplicates());
            assert(l5@.disjoint(moves_of(v, k)));
        }
        let parts = moves_of(v, p).union(moves_of(v, n)).union(moves_of(v, b)).union(
            moves_of(v, r),
        ).union(moves_of(v, q)).union(moves_of(v, k));
        assert forall|m: Move| all_moves(v).contains(m) == parts.contains(m) by {
            lemma_piece_numbering(m.piece);
        }
        assert(ml@ =~= before.union(all_moves(v)));
    }
}

/// Move `m` is one that the side to move may try, from `source` to `target`
/// with the promotion `promoted`.
pub open spec fn goes(
    v: BoardView,
    m: Move,
    source: usize,
    target: usize,
    promoted: Option<Piece>,
) -> bool {
    pseudo_legal(v, m) && matches_coords(m, source, target, promoted)
}

/// A move from `source` to `target` with the promotion `promoted` that the
/// side to move may try, if there is one. Whether the move leaves the own
/// king attacked is not asked.
pub fn move_is_legal(
    board: &Board,
    attack_info: &AttackInfo,
    source: usize,
    target: usize,
    promoted: Option<Piece>,
) -> (r: Option<Move>)
    requires
        board.wf(),
        attack_info.wf(),
    ensures
        r matches Some(m) ==> goes(board@, m, source, target, promoted),
        r is None ==> forall|m: Move| !goes(board@, m, source, target, promoted),
{
    let ghost v = board@;
    let piece: Piece = match board.find_piece(source) {
        Some(p) => p,
        None => {
            return None;
        },
    };
    let mut ml = MoveList::new();
    generate_by_piece(board, attack_info, &mut ml, piece);
    let found = ml.search(source, target, promoted);
    proof {
        assert(ml@ =~= moves_of(v, piece));
        match found {
            Some(m) => {
                assert(ml@.contains(m));
            },
            None => {
                assert forall|m: Move| !goes(v, m, source, target, promoted) by {
                    if goes(v, m, source, target, promoted) {
                        assert(m.piece == piece);
                        assert(ml@.contains(m));
                        assert(ml.moves@.contains(m));
                        let j = choose|j: int| 0 <= j < ml.moves@.len() && ml.moves@[j] == m;
                        assert(matches_coords(ml.moves@[j], source, target, promoted));
                    }
                }
            },
        }
    }
    found
}

/// Move `m` is one that the side to move may try, and `text` writes it in
/// coordinate notation: the names of its two squares, and the letter of the
/// promotion piece if it promotes.
pub open spec fn answers(v: BoardView, text: Seq<char>, m: Move) -> bool {
    &&& pseudo_legal(v, m)
    &&& m.source == square_in(text, 0)
    &&& m.target == square_in(text, 2)
    &&& m.promoted == promotion_named(text, m.piece)
}

/// The move that `text` writes in coordinate notation, if the side to move
/// may try such a move.
pub fn find_move(board: &Board, attack_info: &AttackInfo, text: &str) -> (r: Option<Move>)
    requires
        board.wf(),
        attack_info.wf(),
    ensures
        r matches Some(m) ==> answers(board@, text@, m),
        r is None ==> forall|m: Move| !answers(board@, text@, m),
{
    let ghost v = board@;
    let chars = chars_of(text);
    let n: usize = chars.len();
    let source: usize = if n >= 2 {
        sq_from_chars(vstd::slice::slice_subrange(chars.as_slice(), 0, 2))
    } else {
        NO_SQ
    };
    let target: usize = if n >= 4 {
        sq_from_chars(vstd::slice::slice_subrange(chars.as_slice(), 2, 4))
    } else {
        NO_SQ
    };
    let piece: Piece = match board.find_piece(source) {
        Some(p) => p,
        None => {
            return None;
        },
    };
    let promoted: Option<Piece> = if n >= 5 {
        match Piece::from_char(chars[4]) {
            Some(q) => Some(Piece::make(piece.color(), q.kind())),
            None => None,
        }
    } else {
        None
    };
    let found = move_is_legal(board, attack_info, source, target, promoted);
    proof {
        assert forall|m: Move| answers(v, text@, m) implies goes(
            v,
            m,
            source,
            target,
            promoted,
        ) by {
            assert(m.piece == piece);
        }
    }
    found
}

/// `m` is among the first `n` of `moves`.
pub open spec fn among(moves: Seq<Move>, n: int, m: Move) -> bool {
    exists|j: int| 0 <= j < n && j < moves.len() && #[trigger] moves[j] == m
}

proof fn lemma_among_next(moves: Seq<Move>, n: int, m: Move)
    requires
        0 <= n < moves.len(),
    ensures
        among(moves, n + 1, m) == (among(moves, n, m) || moves[n] == m),
{
    if among(moves, n + 1, m) {
        let j = choose|j: int| 0 <= j < n + 1 && j < moves.len() && #[trigger] moves[j] == m;
        if j < n {
            assert(among(moves, n, m));
        }
    }
    if among(moves, n, m) {
        let j = choose|j: int| 0 <= j < n && j < moves.len() && #[trigger] moves[j] == m;
        assert(0 <= j < n + 1 && moves[j] == m);
    }
    if moves[n] == m {
        assert(among(moves, n + 1, m));
    }
}

/// The legal moves of the side to move: each move that it may try is
/// carried out on a copy of the board, and kept if it leaves no king of the
/// mover attacked.
pub fn legal_moves(board: &Board, attack_info: &AttackInfo, zobrist_info: &ZobristInfo) -> (r:
    MoveList)
    requires
        board.wf(),
        attack_info.wf(),
        zobrist_info.wf(),
    ensures
        r@ == legal_set(board@),
        r.moves@.no_duplicates(),
{
    let ghost v = board@;
    let mut tried = MoveList::new();
    generate_all(board, attack_info, &mut tried);
    let mut kept = MoveList::new();
    let mut i: usize = 0;
    proof {
        assert(tried@ =~= all_moves(v));
    }
    while i < tried.moves.len()
        invariant
            i <= tried.moves@.len(),
            board.wf(),
            attack_info.wf(),
            zobrist_info.wf(),
            v == board@,
            tried@ == all_moves(v),
            tried.moves@.no_duplicates(),
            kept.moves@.no_duplicates(),
            forall|m: Move|
                #[trigger] kept@.contains(m) == (legal(v, m) && among(tried.moves@, i as int, m)),
        decreases tried.moves@.len() - i,
    {
        let m: Move = tried.moves[i];
        let mut trial: Board = *board;
        let ghost kept0 = kept@;
        proof {
            assert(tried.moves@.contains(m));
            assert(tried@.contains(m));
            assert(pseudo_legal(v, m));
        }
        let ok: bool = make(&mut trial, attack_info, zobrist_info, m, MoveFlag::AllMoves);
        proof {
            if among(tried.moves@, i as int, m) {
                let j = choose|j: int|
                    0 <= j < i && j < tried.moves@.len() && #[trigger] tried.moves@[j] == m;
                assert(tried.moves@[j] == tried.moves@[i as int]);
            }
            assert(!kept@.contains(m));
        }
        if ok {
            kept.push(m);
        }
        proof {
            assert(ok == legal(v, m));
            assert forall|x: Move|
                #[trigger] kept@.contains(x) == (legal(v, x) && among(
                    tried.moves@,
                    i + 1,
                    x,
                )) by {
                lemma_among_next(tried.moves@, i as int, x);
                assert(kept0.contains(x) == (legal(v, x) && among(tried.moves@, i as int, x)));
            }
        }
        i = i + 1;
    }
    proof {
        assert forall|m: Move| kept@.contains(m) == legal_set(v).contains(m) by {
            if legal(v, m) {
                assert(tried@.contains(m));
                assert(tried.moves@.contains(m));
                let j = choose|j: int| 0 <= j < tried.moves@.len() && tried.moves@[j] == m;
                assert(among(tried.moves@, i as int, m));
            }
        }
        assert(kept@ =~= legal_set(v));
    }
    kept
}

} // verus!

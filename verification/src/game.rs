//! A game: the positions and moves so far, and how the game stands.
use vstd::prelude::*;
use vstd::string::StringExecFns;
use crate::attack::AttackInfo;
use crate::bb::{count, holds, lemma_squares_finite, lsb, squares};
use crate::board::{in_check, is_color, starting_position, Board, BoardView};
use crate::consts::{col_of, row_of, Piece, PieceColor, PieceType};
use crate::fen::{fen_text, gen_fen, parse, position_of, FenError, FEN_POSITIONS};
use crate::move_gen::{legal_moves, legal_set};
use crate::moves::{make, Move, MoveFlag};
use crate::rules::{apply, carried_out, king_safe_after};
use crate::zobrist::ZobristInfo;

verus! {

/// How a game stands.
#[derive(Clone, Copy, Debug, PartialEq, Eq, Structural)]
pub enum GameState {
    Ongoing,
    LightWinByCheckmate,
    DarkWinByCheckmate,
    LightLostOnTime,
    DarkLostOnTime,
    LightIllegalMove,
    DarkIllegalMove,
    DrawByStalemate,
    DrawByFiftyMoveRule,
    DrawByThreefoldRepetition,
    DrawByInsufficientMaterial,
}

/// The squares on which a man of `color` stands.
pub open spec fn material(men: Seq<Option<Piece>>, color: PieceColor) -> Set<int> {
    Set::new(|s: int| 0 <= s < 64 && s < men.len() && is_color(men[s], color))
}

/// The squares on which `piece` stands.
pub open spec fn stands(men: Seq<Option<Piece>>, piece: Piece) -> Set<int> {
    Set::new(|s: int| 0 <= s < 64 && s < men.len() && men[s] == Some(piece))
}

/// The side has its king and nothing else.
pub open spec fn lone_king(men: Seq<Option<Piece>>, king: Piece) -> bool {
    material(men, king.color_of()).len() == 1 && stands(men, king).len() == 1
}

/// The side has its king, one `minor`, and nothing else.
pub open spec fn king_and(men: Seq<Option<Piece>>, king: Piece, minor: Piece) -> bool {
    material(men, king.color_of()).len() == 2 && stands(men, king).len() == 1 && stands(
        men,
        minor,
    ).len() == 1
}

/// Squares `a` and `b` have the same colour.
pub open spec fn same_shade(a: int, b: int) -> bool {
    (row_of(a) + col_of(a)) % 2 == (row_of(b) + col_of(b)) % 2
}

/// A light and a dark bishop stand on squares of the same colour.
pub open spec fn bishops_alike(men: Seq<Option<Piece>>) -> bool {
    exists|a: int, b: int|
        #![trigger stands(men, Piece::LB).contains(a), stands(men, Piece::DB).contains(b)]
        stands(men, Piece::LB).contains(a) && stands(men, Piece::DB).contains(b) && same_shade(a, b)
}

/// Neither side can mate: king against king, king and one knight or bishop
/// against king, or king and bishop against king and bishop with both
/// bishops on squares of the same colour.
pub open spec fn insufficient(men: Seq<Option<Piece>>) -> bool {
    ||| lone_king(men, Piece::LK) && lone_king(men, Piece::DK)
    ||| king_and(men, Piece::LK, Piece::LN) && lone_king(men, Piece::DK)
    ||| king_and(men, Piece::LK, Piece::LB) && lone_king(men, Piece::DK)
    ||| lone_king(men, Piece::LK) && king_and(men, Piece::DK, Piece::DN)
    ||| lone_king(men, Piece::LK) && king_and(men, Piece::DK, Piece::DB)
    ||| king_and(men, Piece::LK, Piece::LB) && king_and(men, Piece::DK, Piece::DB)
        && bishops_alike(men)
}

/// Whether neither side has the men to mate.
pub fn insufficient_material(b: &Board) -> (r: bool)
    requires
        b.wf(),
    ensures
        r == insufficient(b@.men),
{
    let ghost men = b@.men;
    proof {
        assert forall|s: int| 0 <= s < 64 implies #[trigger] men[s] == b.pos.at(s) by {}
        assert(squares(b.pos.units[0]) =~= material(men, PieceColor::Light));
        assert(squares(b.pos.units[1]) =~= material(men, PieceColor::Dark));
        assert(squares(b.pos.piece[1]) =~= stands(men, Piece::LN));
        assert(squares(b.pos.piece[2]) =~= stands(men, Piece::LB));
        assert(squares(b.pos.piece[5]) =~= stands(men, Piece::LK));
        assert(squares(b.pos.piece[7]) =~= stands(men, Piece::DN));
        assert(squares(b.pos.piece[8]) =~= stands(men, Piece::DB));
        assert(squares(b.pos.piece[11]) =~= stands(men, Piece::DK));
    }
    let light: u32 = count(b.pos.units[0]);
    let dark: u32 = count(b.pos.units[1]);
    if count(b.pos.piece[5]) != 1 || count(b.pos.piece[11]) != 1 {
        return false;
    }
    let light_knights: u32 = count(b.pos.piece[1]);
    let light_bishops: u32 = count(b.pos.piece[2]);
    let dark_knights: u32 = count(b.pos.piece[7]);
    let dark_bishops: u32 = count(b.pos.piece[8]);
    if light == 1 && dark == 1 {
        return true;
    }
    if light == 2 && dark == 1 && (light_knights == 1 || light_bishops == 1) {
        return true;
    }
    if light == 1 && dark == 2 && (dark_knights == 1 || dark_bishops == 1) {
        return true;
    }
    if light == 2 && dark == 2 && light_bishops == 1 && dark_bishops == 1 {
        proof {
            lemma_squares_finite(b.pos.piece[2]);
            lemma_squares_finite(b.pos.piece[8]);
        }
        let a: usize = lsb(b.pos.piece[2]);
        let c: usize = lsb(b.pos.piece[8]);
        let alike: bool = (a / 8 + a % 8) % 2 == (c / 8 + c % 8) % 2;
        proof {
            let la = stands(men, Piece::LB);
            let lb = stands(men, Piece::DB);
            assert(la.contains(a as int));
            assert(lb.contains(c as int));
            lemma_squares_finite(b.pos.piece[2]);
            lemma_squares_finite(b.pos.piece[8]);
            assert forall|x: int| la.contains(x) implies x == a by {
                if x != a {
                    let rest = la.remove(a as int);
                    assert(rest.contains(x));
                    assert(rest.len() == 0);
                    rest.lemma_len0_is_empty();
                }
            }
            assert forall|y: int| lb.contains(y) implies y == c by {
                if y != c {
                    let rest = lb.remove(c as int);
                    assert(rest.contains(y));
                    assert(rest.len() == 0);
                    rest.lemma_len0_is_empty();
                }
            }
            assert(alike == same_shade(a as int, c as int));
        }
        return alike;
    }
    false
}

/// How many of `boards` carry the hashes `key` and `lock`.
pub open spec fn occurrences(boards: Seq<Board>, key: u64, lock: u64) -> nat
    decreases boards.len(),
{
    if boards.len() == 0 {
        0
    } else {
        let before = occurrences(boards.drop_last(), key, lock);
        if boards.last().state.key == key && boards.last().state.lock == lock {
            before + 1
        } else {
            before
        }
    }
}

/// How the game stands in position `current` after the positions `history`:
/// the first of these that holds. Fifty moves without a pawn move or a
/// capture: drawn. Not enough men to mate: drawn. No legal move: lost for
/// the side to move if it is in check, drawn if not. The position has
/// come twice before, so that it is there for the third time: drawn.
/// Otherwise the game goes on.
pub open spec fn outcome(current: Board, history: Seq<Board>) -> GameState {
    let v = current@;
    if v.half_moves >= 100 {
        GameState::DrawByFiftyMoveRule
    } else if insufficient(v.men) {
        GameState::DrawByInsufficientMaterial
    } else if legal_set(v) == Set::<Move>::empty() {
        if in_check(v.men, v.side) {
            if v.side == PieceColor::Dark {
                GameState::LightWinByCheckmate
            } else {
                GameState::DarkWinByCheckmate
            }
        } else {
            GameState::DrawByStalemate
        }
    } else if occurrences(history, current.state.key, current.state.lock) >= 2 {
        GameState::DrawByThreefoldRepetition
    } else {
        GameState::Ongoing
    }
}

/// The game is drawn by the fifty-move rule exactly from the hundredth ply
/// without a pawn move or a capture on, whatever else holds of the position.
pub proof fn lemma_fifty_move_rule(current: Board, history: Seq<Board>)
    ensures
        (outcome(current, history) == GameState::DrawByFiftyMoveRule) == (current@.half_moves
            >= 100),
{
}

/// The game goes on exactly if none of the ways to end it applies: fewer
/// than a hundred plies without a pawn move or a capture, men enough to
/// mate, a legal move, and fewer than two earlier occurrences. In
/// particular a position with 99 such plies is not drawn by them.
pub proof fn lemma_game_goes_on(current: Board, history: Seq<Board>)
    ensures
        (outcome(current, history) == GameState::Ongoing) == (current@.half_moves < 100
            && !insufficient(current@.men) && legal_set(current@) != Set::<Move>::empty()
            && occurrences(history, current.state.key, current.state.lock) < 2),
{
}

/// A move of a piece that is no pawn and takes nothing, made after 99 plies
/// without a pawn move or a capture, completes the hundred: the position it
/// leads to is drawn by the fifty-move rule.
pub proof fn lemma_hundredth_ply(before: BoardView, mv: Move, after: Board, history: Seq<Board>)
    requires
        before.half_moves == 99,
        mv.piece.kind_of() != PieceType::Pawn,
        !mv.capture,
        !mv.enpassant,
        after@ == apply(before, mv),
    ensures
        after@.half_moves == 100,
        outcome(after, history) == GameState::DrawByFiftyMoveRule,
{
}

/// A position is drawn by repetition only when it has come at least twice
/// before: not when it is there for the second time.
pub proof fn lemma_third_occurrence(current: Board, history: Seq<Board>)
    ensures
        outcome(current, history) == GameState::DrawByThreefoldRepetition ==> occurrences(
            history,
            current.state.key,
            current.state.lock,
        ) >= 2,
        outcome(current, history) == GameState::Ongoing ==> occurrences(
            history,
            current.state.key,
            current.state.lock,
        ) < 2,
{
}

/// Whether at least two of `boards` carry the hashes `key` and `lock`.
fn seen_twice(boards: &Vec<Board>, key: u64, lock: u64) -> (r: bool)
    ensures
        r == (occurrences(boards@, key, lock) >= 2),
{
    let mut n: usize = 0;
    let mut i: usize = 0;
    proof {
        assert(boards@.subrange(0, 0) =~= Seq::<Board>::empty());
    }
    while i < boards.len()
        invariant
            i <= boards@.len(),
            n <= i,
            n == occurrences(boards@.subrange(0, i as int), key, lock),
        decreases boards@.len() - i,
    {
        proof {
            let next = boards@.subrange(0, i + 1);
            assert(next.drop_last() =~= boards@.subrange(0, i as int));
            assert(next.last() == boards@[i as int]);
        }
        if boards[i].state.key == key && boards[i].state.lock == lock {
            n = n + 1;
        }
        i = i + 1;
    }
    proof {
        assert(boards@.subrange(0, i as int) =~= boards@);
    }
    n >= 2
}

/// A game between two named players.
pub struct Game {
    pub start_fen: String,
    pub state: GameState,
    pub boards: Vec<Board>,
    pub moves: Vec<Move>,
    pub white_name: String,
    pub black_name: String,
}

impl Game {
    /// There is one position more than there are moves, and every position
    /// is well-formed.
    pub open spec fn wf(&self) -> bool {
        &&& self.boards@.len() == self.moves@.len() + 1
        &&& forall|i: int| 0 <= i < self.boards@.len() ==> #[trigger] self.boards@[i].wf()
    }

    /// The position that the game has reached.
    pub open spec fn current(&self) -> Board {
        self.boards@.last()
    }

    /// How the game stands in position `current` after the positions
    /// `boards`.
    pub fn set_state(
        attack_info: &AttackInfo,
        zobrist_info: &ZobristInfo,
        current: &Board,
        boards: &Vec<Board>,
    ) -> (r: GameState)
        requires
            attack_info.wf(),
            zobrist_info.wf(),
            current.wf(),
        ensures
            r == outcome(*current, boards@),
    {
        if current.state.half_moves >= 100 {
            return GameState::DrawByFiftyMoveRule;
        }
        if insufficient_material(current) {
            return GameState::DrawByInsufficientMaterial;
        }
        let ml = legal_moves(current, attack_info, zobrist_info);
        if ml.is_empty() {
            if current.is_in_check(attack_info, current.state.xside) {
                match current.state.xside {
                    PieceColor::Light => {
                        return GameState::LightWinByCheckmate;
                    },
                    _ => {
                        return GameState::DarkWinByCheckmate;
                    },
                }
            } else {
                return GameState::DrawByStalemate;
            }
        }
        if seen_twice(boards, current.state.key, current.state.lock) {
            return GameState::DrawByThreefoldRepetition;
        }
        GameState::Ongoing
    }

    /// A game from the position that `fen` describes.
    pub fn from_fen(white_name: &str, black_name: &str, fen: &str, zobrist_info: &ZobristInfo) -> (r:
        Result<Game, FenError>)
        requires
            zobrist_info.wf(),
        ensures
            match position_of(fen@) {
                Ok(v) => r matches Ok(g) && g.wf() && g.boards@.len() == 1 && g.boards@[0]@ == v
                    && zobrist_info.hashes(g.boards@[0]) && g.state == GameState::Ongoing
                    && g.start_fen@ == fen@ && g.white_name@ == white_name@ && g.black_name@
                    == black_name@,
                Err(e) => r matches Err(x) && x == e,
            },
    {
        match parse(fen, zobrist_info) {
            Ok(board) => {
                let mut boards: Vec<Board> = Vec::new();
                boards.push(board);
                Ok(
                    Game {
                        start_fen: String::from_str(fen),
                        state: GameState::Ongoing,
                        boards,
                        moves: Vec::new(),
                        white_name: String::from_str(white_name),
                        black_name: String::from_str(black_name),
                    },
                )
            },
            Err(e) => Err(e),
        }
    }

    /// A game from the starting position.
    pub fn new(white_name: &str, black_name: &str, zobrist_info: &ZobristInfo) -> (g: Game)
        requires
            zobrist_info.wf(),
        ensures
            g.wf(),
            g.boards@.len() == 1,
            g.boards@[0]@ == starting_position(),
            zobrist_info.hashes(g.boards@[0]),
            g.state == GameState::Ongoing,
            g.start_fen@ == FEN_POSITIONS[1]@,
            g.white_name@ == white_name@,
            g.black_name@ == black_name@,
    {
        let mut boards: Vec<Board> = Vec::new();
        boards.push(Board::starting(zobrist_info));
        Game {
            start_fen: String::from_str(FEN_POSITIONS[1]),
            state: GameState::Ongoing,
            boards,
            moves: Vec::new(),
            white_name: String::from_str(white_name),
            black_name: String::from_str(black_name),
        }
    }

    /// Starts the game anew from the position that `fen` describes. If `fen`
    /// describes none, the game stays as it is.
    pub fn set_start_pos(&mut self, fen: &str, zobrist_info: &ZobristInfo) -> (r: Result<
        (),
        FenError,
    >)
        requires
            old(self).wf(),
            zobrist_info.wf(),
        ensures
            final(self).wf(),
            final(self).state == old(self).state,
            final(self).white_name == old(self).white_name,
            final(self).black_name == old(self).black_name,
            match position_of(fen@) {
                Ok(v) => r is Ok && final(self).boards@.len() == 1 && final(self).boards@[0]@ == v
                    && zobrist_info.hashes(final(self).boards@[0]) && final(self).start_fen@
                    == fen@,
                Err(e) => r == Err::<(), FenError>(e) && final(self).boards == old(self).boards
                    && final(self).moves == old(self).moves && final(self).start_fen == old(
                    self,
                ).start_fen,
            },
    {
        match parse(fen, zobrist_info) {
            Ok(board) => {
                self.start_fen = String::from_str(fen);
                self.boards.clear();
                self.moves.clear();
                self.boards.push(board);
                Ok(())
            },
            Err(e) => Err(e),
        }
    }

    /// Whether the game is still going on.
    pub fn is_ongoing(&self) -> (r: bool)
        ensures
            r == (self.state == GameState::Ongoing),
    {
        self.state == GameState::Ongoing
    }

    /// Whether the light side is to move in the position reached.
    pub fn is_white_to_move(&self) -> (r: bool)
        requires
            self.wf(),
        ensures
            r == (self.current().state.side == PieceColor::Light),
    {
        self.boards[self.boards.len() - 1].is_white_to_move()
    }

    pub fn white_name(&self) -> (r: &String)
        ensures
            r == &self.white_name,
    {
        &self.white_name
    }

    pub fn black_name(&self) -> (r: &String)
        ensures
            r == &self.black_name,
    {
        &self.black_name
    }

    /// Ends the game: the side named has run out of time.
    pub fn lost_on_time(&mut self, is_white: bool)
        ensures
            final(self).state == (if is_white {
                GameState::LightLostOnTime
            } else {
                GameState::DarkLostOnTime
            }),
            final(self).boards == old(self).boards,
            final(self).moves == old(self).moves,
            final(self).start_fen == old(self).start_fen,
            final(self).white_name == old(self).white_name,
            final(self).black_name == old(self).black_name,
    {
        if is_white {
            self.state = GameState::LightLostOnTime;
        } else {
            self.state = GameState::DarkLostOnTime;
        }
    }

    pub fn state(&self) -> (r: GameState)
        ensures
            r == self.state,
    {
        self.state
    }

    pub fn start_fen(&self) -> (r: &String)
        ensures
            r == &self.start_fen,
    {
        &self.start_fen
    }

    /// The number of moves made.
    pub fn move_count(&self) -> (r: usize)
        ensures
            r == self.moves@.len(),
    {
        self.moves.len()
    }

    /// The text of the position that the game has reached.
    pub fn current_fen(&self) -> (r: String)
        requires
            self.wf(),
        ensures
            r@ == fen_text(self.current()@),
    {
        gen_fen(&self.boards[self.boards.len() - 1])
    }

    /// Move number `ind` of the game, counted from 0.
    pub fn move_at(&self, ind: usize) -> (r: Option<&Move>)
        ensures
            ind < self.moves@.len() ==> r == Some(&self.moves@[ind as int]),
            ind >= self.moves@.len() ==> r is None,
    {
        if ind < self.moves.len() {
            Some(&self.moves[ind])
        } else {
            None
        }
    }

    /// The last move made.
    pub fn last_move(&self) -> (r: Option<&Move>)
        ensures
            self.moves@.len() > 0 ==> r == Some(&self.moves@.last()),
            self.moves@.len() == 0 ==> r is None,
    {
        if self.moves.len() > 0 {
            Some(&self.moves[self.moves.len() - 1])
        } else {
            None
        }
    }

    /// The first move made.
    pub fn first_move(&self) -> (r: Option<&Move>)
        ensures
            self.moves@.len() > 0 ==> r == Some(&self.moves@[0]),
            self.moves@.len() == 0 ==> r is None,
    {
        if self.moves.len() > 0 {
            Some(&self.moves[0])
        } else {
            None
        }
    }

    /// The position in which move number `move_ind` was or will be made.
    pub fn board_before_move(&self, move_ind: usize) -> (r: Option<&Board>)
        ensures
            move_ind < self.boards@.len() ==> r == Some(&self.boards@[move_ind as int]),
            move_ind >= self.boards@.len() ==> r is None,
    {
        if move_ind < self.boards.len() {
            Some(&self.boards[move_ind])
        } else {
            None
        }
    }

    /// The position to which move number `move_ind` led.
    pub fn board_after_move(&self, move_ind: usize) -> (r: Option<&Board>)
        ensures
            move_ind + 1 < self.boards@.len() ==> r == Some(&self.boards@[move_ind + 1]),
            move_ind + 1 >= self.boards@.len() ==> r is None,
    {
        if move_ind < self.boards.len() && move_ind + 1 < self.boards.len() {
            Some(&self.boards[move_ind + 1])
        } else {
            None
        }
    }

    /// The position in which the last move was made.
    pub fn board_before_last_move(&self) -> (r: Option<&Board>)
        ensures
            0 < self.moves@.len() <= self.boards@.len() ==> r == Some(
                &self.boards@[self.moves@.len() - 1],
            ),
            self.moves@.len() == 0 || self.moves@.len() > self.boards@.len() ==> r is None,
    {
        let n: usize = self.moves.len();
        if n > 0 && n - 1 < self.boards.len() {
            Some(&self.boards[n - 1])
        } else {
            None
        }
    }

    /// The position that the game has reached.
    pub fn board_after_last_move(&self) -> (r: Option<&Board>)
        ensures
            self.boards@.len() > 0 ==> r == Some(&self.boards@.last()),
            self.boards@.len() == 0 ==> r is None,
    {
        if self.boards.len() > 0 {
            Some(&self.boards[self.boards.len() - 1])
        } else {
            None
        }
    }

    /// Makes move `mv` in the position that the game has reached, and says
    /// whether it was legal. A legal move is added to the game with the
    /// position it leads to, and the state of the game is found anew; an
    /// illegal one leaves the game as it was. Whether the rules allow the
    /// man to go as `mv` says is not asked: that is for the move generator.
    pub fn make_move(&mut self, mv: Move, attack_info: &AttackInfo, zobrist_info: &ZobristInfo) -> (legal:
        bool)
        requires
            old(self).wf(),
            attack_info.wf(),
            zobrist_info.wf(),
        ensures
            final(self).wf(),
            legal == (carried_out(mv, MoveFlag::AllMoves) && king_safe_after(
                old(self).current()@,
                mv,
            )),
            !legal ==> final(self).boards == old(self).boards && final(self).moves == old(
                self,
            ).moves && final(self).state == old(self).state,
            legal ==> final(self).moves@ == old(self).moves@.push(mv),
            legal ==> final(self).boards@.drop_last() == old(self).boards@,
            legal ==> final(self).current()@ == apply(old(self).current()@, mv),
            legal ==> zobrist_info.hashes(final(self).current()),
            legal ==> final(self).state == outcome(final(self).current(), old(self).boards@),
            final(self).start_fen == old(self).start_fen,
            final(self).white_name == old(self).white_name,
            final(self).black_name == old(self).black_name,
    {
        let mut next_board: Board = self.boards[self.boards.len() - 1];
        if make(&mut next_board, attack_info, zobrist_info, mv, MoveFlag::AllMoves) {
            self.moves.push(mv);
            self.state = Game::set_state(attack_info, zobrist_info, &next_board, &self.boards);
            self.boards.push(next_board);
            proof {
                assert(self.boards@.drop_last() =~= old(self).boards@);
            }
            true
        } else {
            false
        }
    }
}

} // verus!

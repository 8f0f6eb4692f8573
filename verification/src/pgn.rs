//! Moves in standard algebraic notation and games as PGN text.
use vstd::prelude::*;
use crate::attack::AttackInfo;
use crate::bb::{
    count, holds, intersect, lemma_holds_empty, lemma_squares_finite, pop_lsb, squares,
};
use crate::board::{in_check, occupied, Board};
use crate::consts::{col_of, lemma_piece_numbering, row_of, Piece, PieceColor, PieceType};
use crate::fen::FEN_POSITIONS;
use crate::game::{Game, GameState};
use crate::geometry::{
    attacks, lemma_attack_on_board, lemma_reach_symmetric, lemma_step_symmetric,
};
use crate::moves::{name_or_dash, Move};
use crate::text::{
    chars_of, decimal, file_char, lemma_join, push_chars, push_decimal, push_square, push_text,
    rank_char, same_text, string_of,
};

verus! {

/// The squares from which a man like the one that moves could also go to the
/// target of `mv`: the squares that hold the same piece and attack the target.
pub open spec fn candidates(men: Seq<Option<Piece>>, mv: Move) -> Set<int> {
    Set::new(
        |s: int|
            0 <= s < 64 && s < men.len() && men[s] == Some(mv.piece) && attacks(
                mv.piece.kind_of(),
                mv.piece.color_of(),
                s,
                mv.target as int,
                occupied(men),
            ),
    )
}

/// All squares of `c` lie on one file.
pub open spec fn one_file(c: Set<int>) -> bool {
    forall|a: int, b: int| c.contains(a) && c.contains(b) ==> col_of(a) == col_of(b)
}

/// Whether the notation of `mv` must name the rank and the file of the
/// source square, in this order. Pawns and kings never need it, nor does a
/// piece that alone can go to the target. Of two candidates on one file the
/// rank is named, of two on different files the file, and of three or more
/// both.
pub open spec fn disambiguation(men: Seq<Option<Piece>>, mv: Move) -> (bool, bool) {
    let kind = mv.piece.kind_of();
    let c = candidates(men, mv);
    if kind == PieceType::Pawn || kind == PieceType::King || c.len() <= 1 {
        (false, false)
    } else if c.len() == 2 {
        if one_file(c) {
            (true, false)
        } else {
            (false, true)
        }
    } else {
        (true, true)
    }
}

/// Whether the notation of `mv` on `board` must name the rank and the file
/// of the source square.
pub fn should_disambiguate(mv: Move, attack_info: &AttackInfo, board: &Board) -> (r: (bool, bool))
    requires
        attack_info.wf(),
        board.wf(),
    ensures
        r == disambiguation(board@.men, mv),
{
    let ghost men = board@.men;
    let ghost c = candidates(men, mv);
    let piece: Piece = mv.piece;
    let kind: PieceType = piece.kind();
    match kind {
        PieceType::Pawn | PieceType::King => {
            return (false, false);
        },
        _ => {},
    }
    let target: usize = mv.target;
    if target >= 64 {
        proof {
            assert forall|s: int| !c.contains(s) by {
                if c.contains(s) {
                    lemma_attack_on_board(
                        mv.piece.kind_of(),
                        mv.piece.color_of(),
                        s,
                        target as int,
                        occupied(men),
                    );
                }
            }
            assert(c =~= Set::<int>::empty());
        }
        return (false, false);
    }
    let occ: u64 = board.pos.units[2];
    let reach: u64 = attack_info.get_attack(kind, piece.color(), target, occ);
    let mut result: u64 = intersect(reach, board.pos.piece[piece.index()]);
    proof {
        lemma_piece_numbering(piece);
        assert(squares(occ) =~= occupied(men));
        assert forall|s: int| holds(result, s) == c.contains(s) by {
            if 0 <= s < 64 {
                assert(men[s] == board.pos.at(s));
                lemma_step_symmetric(piece.color_of(), s, target as int);
                lemma_reach_symmetric(s, target as int, occupied(men));
            }
        }
        assert(squares(result) =~= c);
        lemma_squares_finite(result);
    }
    let n: u32 = count(result);
    if n <= 1 {
        (false, false)
    } else if n == 2 {
        let ghost all = result;
        let a: usize = pop_lsb(&mut result);
        let ghost rest = result;
        proof {
            lemma_squares_finite(rest);
        }
        let b: usize = pop_lsb(&mut result);
        proof {
            lemma_squares_finite(result);
            lemma_holds_empty();
            assert forall|s: int| c.contains(s) implies s == a || s == b by {
                assert(holds(all, s));
                if s != a && s != b {
                    assert(holds(rest, s));
                    assert(holds(result, s));
                }
            }
            assert(holds(rest, b as int));
            assert(holds(all, a as int) && holds(all, b as int));
            assert(c.contains(a as int) && c.contains(b as int));
        }
        if a % 8 == b % 8 {
            (true, false)
        } else {
            (false, true)
        }
    } else {
        (true, true)
    }
}

/// The letter of the file of a square; a dash for a number that is no square.
pub open spec fn file_or_dash(sq: int) -> char {
    if 0 <= sq < 64 {
        file_char(col_of(sq))
    } else {
        '-'
    }
}

/// The digit of the rank of a square; a dash for a number that is no square.
pub open spec fn rank_or_dash(sq: int) -> char {
    if 0 <= sq < 64 {
        rank_char(row_of(sq))
    } else {
        '-'
    }
}

/// The upper-case letter of the kind of a piece.
pub open spec fn upper_letter(p: Piece) -> char {
    Piece::of(PieceColor::Light, p.kind_of()).letter()
}

/// One character if `on`, none if not.
pub open spec fn maybe(on: bool, c: char) -> Seq<char> {
    if on {
        seq![c]
    } else {
        Seq::empty()
    }
}

/// How a capture shows in the notation: `x`, after the file of the source
/// square if a pawn captures; a capture in passing shows in the same way.
pub open spec fn capture_text(mv: Move) -> Seq<char> {
    if mv.capture {
        maybe(mv.piece.kind_of() == PieceType::Pawn, file_or_dash(mv.source as int)) + seq!['x']
    } else if mv.enpassant {
        seq![file_or_dash(mv.source as int), 'x']
    } else {
        Seq::empty()
    }
}

/// How a promotion shows in the notation: `=` and the letter of the piece.
pub open spec fn promotion_text(p: Option<Piece>) -> Seq<char> {
    match p {
        Some(q) => seq!['=', upper_letter(q)],
        None => Seq::empty(),
    }
}

/// A move in standard algebraic notation: `O-O` or `O-O-O` for castling to
/// the g-file or the c-file; else the letter of the piece unless it is a
/// pawn, the file and the rank of the source square as far as asked for,
/// the mark of a capture, the target square, the promotion, and `#` for
/// mate or else `+` for check.
pub open spec fn san_text(
    mv: Move,
    check: bool,
    dis_row: bool,
    dis_col: bool,
    checkmate: bool,
) -> Seq<char> {
    if mv.castling && mv.target % 8 == 6 {
        seq!['O', '-', 'O']
    } else if mv.castling && mv.target % 8 == 2 {
        seq!['O', '-', 'O', '-', 'O']
    } else {
        maybe(mv.piece.kind_of() != PieceType::Pawn, upper_letter(mv.piece)) + maybe(
            dis_col,
            file_or_dash(mv.source as int),
        ) + maybe(dis_row, rank_or_dash(mv.source as int)) + capture_text(mv) + name_or_dash(
            mv.target as int,
        ) + promotion_text(mv.promoted) + maybe(checkmate, '#') + maybe(!checkmate && check, '+')
    }
}

/// Appends the letter of the file of `sq`.
fn push_file(out: &mut Vec<char>, sq: usize)
    ensures
        final(out)@ == old(out)@.push(file_or_dash(sq as int)),
{
    if sq < 64 {
        out.push(((97 + sq % 8) as u8) as char);
    } else {
        out.push('-');
    }
}

/// Appends `c` if `on`.
fn push_maybe(out: &mut Vec<char>, on: bool, c: char)
    ensures
        final(out)@ == old(out)@ + maybe(on, c),
{
    if on {
        out.push(c);
    }
    assert(out@ =~= old(out)@ + maybe(on, c));
}

/// Appends the mark of a capture.
fn push_capture(out: &mut Vec<char>, mv: Move)
    ensures
        final(out)@ == old(out)@ + capture_text(mv),
{
    let pawn: bool = match mv.piece.kind() {
        PieceType::Pawn => true,
        _ => false,
    };
    if mv.capture {
        if pawn {
            push_file(out, mv.source);
        }
        out.push('x');
    } else if mv.enpassant {
        push_file(out, mv.source);
        out.push('x');
    }
    assert(out@ =~= old(out)@ + capture_text(mv));
}

/// Appends the name of `sq`, or a dash.
fn push_name(out: &mut Vec<char>, sq: usize)
    ensures
        final(out)@ == old(out)@ + name_or_dash(sq as int),
{
    if sq < 64 {
        push_square(out, sq);
    } else {
        out.push('-');
    }
    assert(out@ =~= old(out)@ + name_or_dash(sq as int));
}

/// Appends the mark of a promotion.
fn push_promotion(out: &mut Vec<char>, p: Option<Piece>)
    ensures
        final(out)@ == old(out)@ + promotion_text(p),
{
    match p {
        Some(q) => {
            out.push('=');
            out.push(Piece::to_char(Some(Piece::make(PieceColor::Light, q.kind()))));
        },
        None => {},
    }
    assert(out@ =~= old(out)@ + promotion_text(p));
}

/// The letter of the file of `sq`.
fn file_letter(sq: usize) -> (c: char)
    ensures
        c == file_or_dash(sq as int),
{
    if sq < 64 {
        ((97 + sq % 8) as u8) as char
    } else {
        '-'
    }
}

/// The digit of the rank of `sq`.
fn rank_digit(sq: usize) -> (c: char)
    ensures
        c == rank_or_dash(sq as int),
{
    if sq < 64 {
        ((56 - sq / 8) as u8) as char
    } else {
        '-'
    }
}

/// Appends move `mv` in standard algebraic notation.
fn push_san(
    out: &mut Vec<char>,
    mv: Move,
    check: bool,
    dis_row: bool,
    dis_col: bool,
    checkmate: bool,
)
    ensures
        final(out)@ == old(out)@ + san_text(mv, check, dis_row, dis_col, checkmate),
{
    let ghost start = out@;
    if mv.castling && mv.target % 8 == 6 {
        out.push('O');
        out.push('-');
        out.push('O');
        assert(out@ =~= start + san_text(mv, check, dis_row, dis_col, checkmate));
        return ;
    }
    if mv.castling && mv.target % 8 == 2 {
        out.push('O');
        out.push('-');
        out.push('O');
        out.push('-');
        out.push('O');
        assert(out@ =~= start + san_text(mv, check, dis_row, dis_col, checkmate));
        return ;
    }
    let pawn: bool = match mv.piece.kind() {
        PieceType::Pawn => true,
        _ => false,
    };
    let letter: char = Piece::to_char(Some(Piece::make(PieceColor::Light, mv.piece.kind())));
    let ghost letter_part = maybe(!pawn, letter);
    let ghost file_part = maybe(dis_col, file_or_dash(mv.source as int));
    let ghost rank_part = maybe(dis_row, rank_or_dash(mv.source as int));
    let ghost capture_part = capture_text(mv);
    let ghost target_part = name_or_dash(mv.target as int);
    let ghost promotion_part = promotion_text(mv.promoted);
    let ghost mate_part = maybe(checkmate, '#');
    let ghost check_part = maybe(!checkmate && check, '+');
    push_maybe(out, !pawn, letter);
    push_maybe(out, dis_col, file_letter(mv.source));
    push_maybe(out, dis_row, rank_digit(mv.source));
    push_capture(out, mv);
    push_name(out, mv.target);
    push_promotion(out, mv.promoted);
    push_maybe(out, checkmate, '#');
    push_maybe(out, !checkmate && check, '+');
    proof {
        lemma_join(start, letter_part, file_part);
        lemma_join(start, letter_part + file_part, rank_part);
        lemma_join(start, letter_part + file_part + rank_part, capture_part);
        lemma_join(start, letter_part + file_part + rank_part + capture_part, target_part);
        lemma_join(start, letter_part + file_part + rank_part + capture_part + target_part, promotion_part);
        lemma_join(start, letter_part + file_part + rank_part + capture_part + target_part + promotion_part, mate_part);
        lemma_join(start, letter_part + file_part + rank_part + capture_part + target_part + promotion_part + mate_part, check_part);
        assert(san_text(mv, check, dis_row, dis_col, checkmate) == letter_part + file_part + rank_part + capture_part + target_part + promotion_part + mate_part
            + check_part);
    }
}

/// Move `mv` in standard algebraic notation. `dis` says whether the rank
/// and whether the file of the source square is to be named.
pub fn coord_move_to_san(
    mv: Move,
    attack_info: &AttackInfo,
    check: bool,
    dis: (bool, bool),
    checkmate: bool,
) -> (s: String)
    ensures
        s@ == san_text(mv, check, dis.0, dis.1, checkmate),
{
    let mut out: Vec<char> = Vec::new();
    push_san(&mut out, mv, check, dis.0, dis.1, checkmate);
    assert(out@ =~= san_text(mv, check, dis.0, dis.1, checkmate));
    string_of(&out)
}

/// How the result of a game is written.
pub open spec fn result_text(state: GameState) -> Seq<char> {
    match state {
        GameState::Ongoing => "*"@,
        GameState::LightWinByCheckmate => "1-0"@,
        GameState::DarkWinByCheckmate => "0-1"@,
        _ => "1/2-1/2"@,
    }
}

/// The tags at the head of a game's text. The starting position is named
/// only where it is not the usual one.
pub open spec fn header_text(
    white: Seq<char>,
    black: Seq<char>,
    result: Seq<char>,
    start_fen: Seq<char>,
) -> Seq<char> {
    "[Event \"?\"]\n[Site \"?\"]\n[Date \"????.??.??\"]\n[Round \"?\"]\n[White \""@ + white
        + "\"]\n[Black \""@ + black + "\"]\n[Result \""@ + result + "\"]\n"@ + (if start_fen
        == FEN_POSITIONS[1]@ {
        Seq::empty()
    } else {
        "[FEN \""@ + start_fen + "\"]\n[SetUp \"1\"]\n"@
    }) + "\n"@
}

/// What follows move `i` of `n` in the text: nothing after the last, a new
/// line after every tenth ply, and a blank after the others.
pub open spec fn separator(i: int, n: int) -> Seq<char> {
    if i >= n - 1 {
        Seq::empty()
    } else if i != 0 && i % 10 == 0 {
        "\n"@
    } else {
        " "@
    }
}

/// The number of the move before each move of the light side.
pub open spec fn move_number(i: int) -> Seq<char> {
    if i % 2 == 0 {
        decimal((i / 2 + 1) as nat) + ". "@
    } else {
        Seq::empty()
    }
}

/// Ply `i` of a game in its text: the number of the move, the move in
/// standard algebraic notation with `+` where it gives check, and what
/// separates it from the next.
pub open spec fn ply_text(game: Game, i: int) -> Seq<char> {
    let mv = game.moves@[i];
    let before = game.boards@[i]@;
    let after = game.boards@[i + 1]@;
    let dis = disambiguation(before.men, mv);
    move_number(i) + san_text(mv, in_check(after.men, after.side), dis.0, dis.1, false)
        + separator(i, game.moves@.len() as int)
}

/// The first `n` plies of a game in its text.
pub open spec fn plies_text(game: Game, n: int) -> Seq<char>
    decreases n,
{
    if n <= 0 {
        Seq::empty()
    } else {
        plies_text(game, n - 1) + ply_text(game, n - 1)
    }
}

/// A game as PGN text: the tags, the moves, and the result.
pub open spec fn pgn_text(game: Game) -> Seq<char> {
    header_text(
        game.white_name@,
        game.black_name@,
        result_text(game.state),
        game.start_fen@,
    ) + plies_text(game, game.moves@.len() as int) + " "@ + result_text(game.state) + "\n"@
}

/// The game as PGN text.
pub fn game_to_pgn(game: &Game, attack_info: &AttackInfo) -> (s: String)
    requires
        game.wf(),
        attack_info.wf(),
    ensures
        s@ == pgn_text(*game),
{
    let mut out: Vec<char> = Vec::new();
    let result: &str = match game.state {
        GameState::Ongoing => "*",
        GameState::LightWinByCheckmate => "1-0",
        GameState::DarkWinByCheckmate => "0-1",
        _ => "1/2-1/2",
    };
    let white = chars_of(game.white_name.as_str());
    let black = chars_of(game.black_name.as_str());
    let start = chars_of(game.start_fen.as_str());
    let usual = chars_of(FEN_POSITIONS[1]);
    push_text(&mut out, "[Event \"?\"]\n[Site \"?\"]\n[Date \"????.??.??\"]\n[Round \"?\"]\n[White \"");
    push_chars(&mut out, &white);
    push_text(&mut out, "\"]\n[Black \"");
    push_chars(&mut out, &black);
    push_text(&mut out, "\"]\n[Result \"");
    push_text(&mut out, result);
    push_text(&mut out, "\"]\n");
    if !same_text(&start, &usual) {
        push_text(&mut out, "[FEN \"");
        push_chars(&mut out, &start);
        push_text(&mut out, "\"]\n[SetUp \"1\"]\n");
    }
    push_text(&mut out, "\n");
    let ghost head = out@;
    assert(head =~= header_text(
        game.white_name@,
        game.black_name@,
        result_text(game.state),
        game.start_fen@,
    ));
    let n: usize = game.moves.len();
    let mut i: usize = 0;
    while i < n
        invariant
            i <= n,
            n == game.moves@.len(),
            game.wf(),
            attack_info.wf(),
            out@ == head + plies_text(*game, i as int),
        decreases n - i,
    {
        let ghost before = out@;
        if i % 2 == 0 {
            push_decimal(&mut out, (i / 2 + 1) as u64);
            push_text(&mut out, ". ");
        }
        let ghost numbered = out@;
        proof {
            if i % 2 == 0 {
                lemma_join(before, decimal((i / 2 + 1) as nat), ". "@);
            } else {
                assert(before + move_number(i as int) =~= before);
            }
        }
        assert(numbered == before + move_number(i as int));
        let mv: Move = game.moves[i];
        assert(game.boards@[i as int].wf());
        assert(game.boards@[i + 1].wf());
        let dis = should_disambiguate(mv, attack_info, &game.boards[i]);
        let next: &Board = &game.boards[i + 1];
        let check: bool = next.is_in_check(attack_info, next.state.xside);
        push_san(&mut out, mv, check, dis.0, dis.1, false);
        let ghost written = out@;
        if i < n - 1 {
            if i != 0 && i % 10 == 0 {
                push_text(&mut out, "\n");
            } else {
                push_text(&mut out, " ");
            }
        }
        proof {
            let num = move_number(i as int);
            let san = san_text(mv, check, dis.0, dis.1, false);
            let sep = separator(i as int, n as int);
            assert(out@ == written + sep) by {
                if i >= n - 1 {
                    assert(written + sep =~= written);
                }
            }
            assert(written == numbered + san);
            lemma_join(before, num, san);
            lemma_join(before, num + san, sep);
            assert(ply_text(*game, i as int) == num + san + sep);
            lemma_join(head, plies_text(*game, i as int), ply_text(*game, i as int));
        }
        i = i + 1;
    }
    push_text(&mut out, " ");
    push_text(&mut out, result);
    push_text(&mut out, "\n");
    assert(out@ =~= pgn_text(*game));
    string_of(&out)
}

} // verus!

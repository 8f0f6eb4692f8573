//! Positions as text: six fields separated by white space, which give the
//! men row by row from the eighth rank down, the side to move, the castling
//! rights, the en-passant square and the two move counters.
use vstd::prelude::*;
use crate::bb::get;
use crate::board::{has_right, Board, BoardView, CastlingType, Position};
use crate::consts::{Piece, PieceColor, NO_SQ};
use crate::text::{
    chars_of, decimal, digit_char, is_numeral, numeral_value, parse_decimal, push_decimal,
    push_square, sq_from_chars, square_name, square_named, string_of,
};
use crate::zobrist::{gen_board_key, gen_board_lock, ZobristInfo};

verus! {

/// The empty board, the starting position, and six positions that exercise
/// the rarer rules.
pub const FEN_POSITIONS: [&'static str; 8] = [
    "8/8/8/8/8/8/8/8 w - - 0 1",
    "rnbqkbnr/pppppppp/8/8/8/8/PPPPPPPP/RNBQKBNR w KQkq - 0 1",
    "r3k2r/p1ppqpb1/bn2pnp1/3PN3/1p2P3/2N2Q1p/PPPBBPPP/R3K2R w KQkq - 0 1",
    "8/2p5/3p4/KP5r/1R3p1k/8/4P1P1/8 w - - 0 1",
    "r3k2r/Pppp1ppp/1b3nbN/nP6/BBP1P3/q4N2/Pp1P2PP/R2Q1RK1 w kq - 0 1",
    "rnbq1k1r/pp1Pbppp/2p5/8/2B5/8/PPP1NnPP/RNBQK2R w KQ - 1 8",
    "r4rk1/1pp1qppp/p1np1n2/2b1p1B1/2B1P1b1/P1NP1N2/1PP1QPPP/R4RK1 w - - 0 10",
    "rnbqkb1r/pp1p1pPp/8/2p1pP2/1P1P4/3P3P/P1P1P3/RNBQKBNR w KQkq e6 0 1",
];

/// Why a text is no position: the first field that is wrong.
#[derive(Clone, Copy, Debug, PartialEq, Eq, Structural)]
pub enum FenError {
    /// The text does not have exactly six fields.
    FieldCount,
    /// The first field does not give eight rows of eight squares.
    Placement,
    /// The second field is neither `w` nor `b`.
    Side,
    /// The third field is neither `-` nor made of distinct letters of `KQkq`.
    Castling,
    /// The fourth field is neither `-` nor the name of a square.
    EnPassant,
    /// The fifth field is no number that fits the counter.
    HalfMoves,
    /// The sixth field is no number that fits the counter.
    FullMoves,
}

/// White space between fields: blank, tab, line feed, form feed, carriage return.
pub open spec fn is_space(c: char) -> bool {
    c == ' ' || c == '\t' || c == '\n' || c == '\x0C' || c == '\r'
}

/// The fields of a text: its longest runs of characters that are no white space.
pub open spec fn words(s: Seq<char>) -> Seq<Seq<char>>
    decreases s.len(),
{
    if s.len() == 0 {
        Seq::empty()
    } else {
        let before = words(s.drop_last());
        let c = s.last();
        if is_space(c) {
            before
        } else if s.len() >= 2 && !is_space(s[s.len() - 2]) {
            before.drop_last().push(before.last().push(c))
        } else {
            before.push(seq![c])
        }
    }
}

/// What the rows read so far hold: the men square by square, and whether a
/// row has just been completed so that `/` must follow.
pub ghost struct Rows {
    pub men: Seq<Option<Piece>>,
    pub full_row: bool,
}

/// `d` empty squares.
pub open spec fn blanks(d: int) -> Seq<Option<Piece>> {
    Seq::new(d as nat, |i: int| None::<Piece>)
}

/// The rows after `men` have been added to them.
pub open spec fn rows_with(rows: Rows, added: Seq<Option<Piece>>) -> Rows {
    let men = rows.men + added;
    Rows { men, full_row: men.len() % 8 == 0 && men.len() < 64 }
}

/// Reads one more character of the first field: `/` after a complete row,
/// a digit from 1 to 8 for as many empty squares, or the letter of a piece.
/// Squares cannot be added across the end of a row.
pub open spec fn row_step(rows: Rows, c: char) -> Option<Rows> {
    if c == '/' {
        if rows.full_row {
            Some(Rows { men: rows.men, full_row: false })
        } else {
            None
        }
    } else if rows.full_row || rows.men.len() >= 64 {
        None
    } else if '1' <= c <= '8' {
        let d = c as u32 as int - 48;
        if rows.men.len() % 8 + d > 8 {
            None
        } else {
            Some(rows_with(rows, blanks(d)))
        }
    } else {
        match Piece::lettered(c) {
            Some(p) => Some(rows_with(rows, seq![Some(p)])),
            None => None,
        }
    }
}

/// What the characters `text` of the first field give, read from the left.
pub open spec fn rows_of(text: Seq<char>) -> Option<Rows>
    decreases text.len(),
{
    if text.len() == 0 {
        Some(Rows { men: Seq::empty(), full_row: false })
    } else {
        match rows_of(text.drop_last()) {
            Some(rows) => row_step(rows, text.last()),
            None => None,
        }
    }
}

/// The men that the first field gives, if it gives all 64 squares.
pub open spec fn placement_of(text: Seq<char>) -> Option<Seq<Option<Piece>>> {
    match rows_of(text) {
        Some(rows) => if rows.men.len() == 64 {
            Some(rows.men)
        } else {
            None
        },
        None => None,
    }
}

/// The side that the second field names.
pub open spec fn side_of(text: Seq<char>) -> Option<PieceColor> {
    if text =~= seq!['w'] {
        Some(PieceColor::Light)
    } else if text =~= seq!['b'] {
        Some(PieceColor::Dark)
    } else {
        None
    }
}

/// The bit of the right that a letter of the third field names.
pub open spec fn right_bit(c: char) -> Option<u8> {
    if c == 'K' {
        Some(1u8)
    } else if c == 'Q' {
        Some(2u8)
    } else if c == 'k' {
        Some(4u8)
    } else if c == 'q' {
        Some(8u8)
    } else {
        None
    }
}

/// The rights that the letters `text` name: no letter may come twice.
pub open spec fn rights_named(text: Seq<char>) -> Option<u8>
    decreases text.len(),
{
    if text.len() == 0 {
        Some(0u8)
    } else {
        match (rights_named(text.drop_last()), right_bit(text.last())) {
            (Some(mask), Some(bit)) => if mask & bit == 0 {
                Some(mask | bit)
            } else {
                None
            },
            _ => None,
        }
    }
}

/// The rights that the third field names.
pub open spec fn castling_of(text: Seq<char>) -> Option<u8> {
    if text =~= seq!['-'] {
        Some(0u8)
    } else {
        rights_named(text)
    }
}

/// The en-passant square that the fourth field names: `NO_SQ` for `-`.
pub open spec fn enpassant_of(text: Seq<char>) -> Option<usize> {
    if text =~= seq!['-'] {
        Some(NO_SQ)
    } else if square_named(text) < 64 {
        Some(square_named(text) as usize)
    } else {
        None
    }
}

/// The counter that a field gives.
pub open spec fn counter_of(text: Seq<char>) -> Option<u32> {
    if is_numeral(text) && numeral_value(text) <= u32::MAX {
        Some(numeral_value(text) as u32)
    } else {
        None
    }
}

/// The position that a text describes, or the first thing wrong with it.
pub open spec fn position_of(text: Seq<char>) -> Result<BoardView, FenError> {
    let f = words(text);
    if f.len() != 6 {
        Err(FenError::FieldCount)
    } else if placement_of(f[0]) is None {
        Err(FenError::Placement)
    } else if side_of(f[1]) is None {
        Err(FenError::Side)
    } else if castling_of(f[2]) is None {
        Err(FenError::Castling)
    } else if enpassant_of(f[3]) is None {
        Err(FenError::EnPassant)
    } else if counter_of(f[4]) is None {
        Err(FenError::HalfMoves)
    } else if counter_of(f[5]) is None {
        Err(FenError::FullMoves)
    } else {
        Ok(
            BoardView {
                men: placement_of(f[0]).unwrap(),
                side: side_of(f[1]).unwrap(),
                castling: castling_of(f[2]).unwrap(),
                enpassant: enpassant_of(f[3]).unwrap(),
                half_moves: counter_of(f[4]).unwrap(),
                full_moves: counter_of(f[5]).unwrap(),
            },
        )
    }
}

/// The views of a list of character vectors.
pub open spec fn views(v: Seq<Vec<char>>) -> Seq<Seq<char>> {
    Seq::new(v.len(), |i: int| v[i]@)
}

/// Splits a text into its fields.
pub fn split_words(s: &Vec<char>) -> (r: Vec<Vec<char>>)
    ensures
        views(r@) == words(s@),
{
    let mut done: Vec<Vec<char>> = Vec::new();
    let mut current: Vec<char> = Vec::new();
    let mut i: usize = 0;
    proof {
        assert(views(done@) =~= words(s@.subrange(0, 0)));
    }
    while i < s.len()
        invariant
            i <= s@.len(),
            current@.len() > 0 ==> i > 0 && !is_space(s@[i - 1]) && words(s@.subrange(0, i as int))
                == views(done@).push(current@),
            current@.len() == 0 ==> (i == 0 || is_space(s@[i - 1])) && words(
                s@.subrange(0, i as int),
            ) == views(done@),
        decreases s@.len() - i,
    {
        let c: char = s[i];
        let ghost prefix = s@.subrange(0, i as int);
        let ghost next = s@.subrange(0, i + 1);
        proof {
            assert(next.drop_last() =~= prefix);
            assert(next.last() == c);
            if i > 0 {
                assert(next[next.len() - 2] == s@[i - 1]);
            }
        }
        if c == ' ' || c == '\t' || c == '\n' || c == '\x0C' || c == '\r' {
            if current.len() > 0 {
                let ghost before = views(done@);
                let ghost word = current@;
                done.push(current);
                current = Vec::new();
                proof {
                    assert(views(done@) =~= before.push(word));
                }
            }
        } else {
            let ghost before = current@;
            current.push(c);
            proof {
                if before.len() > 0 {
                    let w = views(done@).push(before);
                    assert(w.drop_last() =~= views(done@));
                    assert(w.last() == before);
                } else {
                    assert(current@ =~= seq![c]);
                }
            }
        }
        i = i + 1;
    }
    proof {
        assert(s@.subrange(0, i as int) =~= s@);
    }
    if current.len() > 0 {
        let ghost before = views(done@);
        let ghost word = current@;
        done.push(current);
        proof {
            assert(views(done@) =~= before.push(word));
        }
    }
    done
}

/// Reads the men from the first field of a position's text into `pos`,
/// which is emptied first. Says whether the field is well-formed; if it is
/// not, `pos` holds the men read up to the mistake.
pub fn place_men(text: &[char], pos: &mut Position) -> (ok: bool)
    ensures
        final(pos).wf(),
        ok == (placement_of(text@) is Some),
        ok ==> final(pos).placement() == placement_of(text@).unwrap(),
{
    *pos = Position::new();
    let mut sq: usize = 0;
    let mut full_row: bool = false;
    let mut i: usize = 0;
    let ghost mut rows = Rows { men: Seq::empty(), full_row: false };
    proof {
        assert(text@.subrange(0, 0) =~= Seq::<char>::empty());
    }
    while i < text.len()
        invariant
            i <= text@.len(),
            pos.wf(),
            sq <= 64,
            rows_of(text@.subrange(0, i as int)) == Some(rows),
            rows.men.len() == sq,
            rows.full_row == full_row,
            forall|s: int| 0 <= s < sq ==> #[trigger] pos.placement()[s] == rows.men[s],
            forall|s: int| sq <= s < 64 ==> #[trigger] pos.placement()[s] is None,
        decreases text@.len() - i,
    {
        let c: char = text[i];
        let ghost prefix = text@.subrange(0, i as int);
        let ghost next = text@.subrange(0, i + 1);
        proof {
            assert(next.drop_last() =~= prefix);
            assert(next.last() == c);
            assert(rows_of(next) == row_step(rows, c));
        }
        let mut bad: bool = false;
        if c == '/' {
            if full_row {
                full_row = false;
                proof {
                    rows = Rows { men: rows.men, full_row: false };
                }
            } else {
                bad = true;
            }
        } else if full_row || sq >= 64 {
            bad = true;
        } else if '1' <= c && c <= '8' {
            let d: usize = (c as u32 - 48) as usize;
            if sq % 8 + d > 8 {
                bad = true;
            } else {
                proof {
                    rows = rows_with(rows, blanks(d as int));
                }
                sq = sq + d;
                full_row = sq % 8 == 0 && sq < 64;
            }
        } else {
            match Piece::from_char(c) {
                Some(p) => {
                    pos.put(sq, p);
                    proof {
                        rows = rows_with(rows, seq![Some(p)]);
                    }
                    sq = sq + 1;
                    full_row = sq % 8 == 0 && sq < 64;
                },
                None => {
                    bad = true;
                },
            }
        }
        if bad {
            proof {
                lemma_rows_stay_bad(text@, i + 1);
            }
            return false;
        }
        i = i + 1;
    }
    proof {
        assert(text@.subrange(0, i as int) =~= text@);
        if sq == 64 {
            assert(pos.placement() =~= rows.men);
        }
    }
    sq == 64
}

/// Once a beginning of the first field is wrong, the whole field is wrong.
pub proof fn lemma_rows_stay_bad(text: Seq<char>, n: int)
    requires
        0 <= n <= text.len(),
        rows_of(text.subrange(0, n)) is None,
    ensures
        rows_of(text) is None,
    decreases text.len() - n,
{
    if n == text.len() {
        assert(text.subrange(0, n) =~= text);
    } else {
        let next = text.subrange(0, n + 1);
        assert(next.drop_last() =~= text.subrange(0, n));
        lemma_rows_stay_bad(text, n + 1);
    }
}

/// Reads the men from the first field of a position's text into `pos`,
/// which is emptied first, and says whether the field is well-formed.
pub fn parse_pieces(fen_piece: &str, pos: &mut Position) -> (ok: bool)
    ensures
        final(pos).wf(),
        ok == (placement_of(fen_piece@) is Some),
        ok ==> final(pos).placement() == placement_of(fen_piece@).unwrap(),
{
    let v = chars_of(fen_piece);
    place_men(v.as_slice(), pos)
}

/// The side that the second field names.
fn parse_side(text: &[char]) -> (r: Option<PieceColor>)
    ensures
        r == side_of(text@),
{
    if text.len() == 1 && text[0] == 'w' {
        Some(PieceColor::Light)
    } else if text.len() == 1 && text[0] == 'b' {
        Some(PieceColor::Dark)
    } else {
        None
    }
}

proof fn lemma_right_added(mask: u8, bit: u8)
    by (bit_vector)
    requires
        mask < 16,
        bit == 1 || bit == 2 || bit == 4 || bit == 8,
    ensures
        mask | bit < 16,
{
}

/// Once a beginning of the third field is wrong, the whole field is wrong.
proof fn lemma_rights_stay_bad(text: Seq<char>, n: int)
    requires
        0 <= n <= text.len(),
        rights_named(text.subrange(0, n)) is None,
    ensures
        rights_named(text) is None,
    decreases text.len() - n,
{
    if n == text.len() {
        assert(text.subrange(0, n) =~= text);
    } else {
        let next = text.subrange(0, n + 1);
        assert(next.drop_last() =~= text.subrange(0, n));
        lemma_rights_stay_bad(text, n + 1);
    }
}

/// The rights that the third field names.
fn parse_castling(text: &[char]) -> (r: Option<u8>)
    ensures
        r == castling_of(text@),
        r matches Some(mask) ==> mask < 16,
{
    if text.len() == 1 && text[0] == '-' {
        return Some(0);
    }
    let mut mask: u8 = 0;
    let mut i: usize = 0;
    proof {
        assert(text@.subrange(0, 0) =~= Seq::<char>::empty());
        if text@ =~= seq!['-'] {
            assert(text@[0] == '-');
        }
    }
    while i < text.len()
        invariant
            i <= text@.len(),
            mask < 16,
            !(text@ =~= seq!['-']),
            rights_named(text@.subrange(0, i as int)) == Some(mask),
        decreases text@.len() - i,
    {
        let c: char = text[i];
        let bit: u8 = if c == 'K' {
            1
        } else if c == 'Q' {
            2
        } else if c == 'k' {
            4
        } else if c == 'q' {
            8
        } else {
            0
        };
        proof {
            let next = text@.subrange(0, i + 1);
            assert(next.drop_last() =~= text@.subrange(0, i as int));
            assert(next.last() == c);
        }
        if bit == 0 || mask & bit != 0 {
            proof {
                lemma_rights_stay_bad(text@, i + 1);
            }
            return None;
        }
        proof {
            lemma_right_added(mask, bit);
        }
        mask = mask | bit;
        i = i + 1;
    }
    proof {
        assert(text@.subrange(0, i as int) =~= text@);
    }
    Some(mask)
}

/// The en-passant square that the fourth field names.
fn parse_enpassant(text: &[char]) -> (r: Option<usize>)
    ensures
        r == enpassant_of(text@),
        r matches Some(sq) ==> sq <= 64,
{
    if text.len() == 1 && text[0] == '-' {
        return Some(NO_SQ);
    }
    let sq: usize = sq_from_chars(text);
    if sq < 64 {
        Some(sq)
    } else {
        None
    }
}

/// The counter that a field gives.
fn parse_counter(text: &[char]) -> (r: Option<u32>)
    ensures
        r == counter_of(text@),
{
    parse_decimal(text)
}

/// The position that `fen` describes, with both hashes computed by
/// `zobrist_info`; or the first thing that is wrong with `fen`.
pub fn parse(fen: &str, zobrist_info: &ZobristInfo) -> (r: Result<Board, FenError>)
    requires
        zobrist_info.wf(),
    ensures
        match position_of(fen@) {
            Ok(v) => r matches Ok(b) && b@ == v && b.wf() && zobrist_info.hashes(b),
            Err(e) => r == Err::<Board, FenError>(e),
        },
{
    let text = chars_of(fen);
    let fields = split_words(&text);
    let ghost f = words(fen@);
    if fields.len() != 6 {
        return Err(FenError::FieldCount);
    }
    proof {
        assert forall|i: int| 0 <= i < 6 implies #[trigger] fields@[i]@ == f[i] by {
            assert(views(fields@)[i] == fields@[i]@);
        }
    }
    let mut board = Board::new();
    if !place_men(fields[0].as_slice(), &mut board.pos) {
        return Err(FenError::Placement);
    }
    let side: PieceColor = match parse_side(fields[1].as_slice()) {
        Some(c) => c,
        None => {
            return Err(FenError::Side);
        },
    };
    let castling: u8 = match parse_castling(fields[2].as_slice()) {
        Some(c) => c,
        None => {
            return Err(FenError::Castling);
        },
    };
    let enpassant: usize = match parse_enpassant(fields[3].as_slice()) {
        Some(sq) => sq,
        None => {
            return Err(FenError::EnPassant);
        },
    };
    let half_moves: u32 = match parse_counter(fields[4].as_slice()) {
        Some(n) => n,
        None => {
            return Err(FenError::HalfMoves);
        },
    };
    let full_moves: u32 = match parse_counter(fields[5].as_slice()) {
        Some(n) => n,
        None => {
            return Err(FenError::FullMoves);
        },
    };
    board.state.side = side;
    board.state.xside = side.opposite();
    board.state.castling = castling;
    board.state.enpassant = enpassant;
    board.state.half_moves = half_moves;
    board.state.full_moves = full_moves;
    board.state.key = gen_board_key(&zobrist_info.key, &board);
    board.state.lock = gen_board_lock(&zobrist_info.lock, &board);
    Ok(board)
}

/// The text with the digit of a pending run of empty squares at its end, if
/// there is such a run.
pub open spec fn run_flushed(text: Seq<char>, run: int) -> Seq<char> {
    if run > 0 {
        text.push(digit_char(run))
    } else {
        text
    }
}

/// How far the first field is written: the text so far, and the number of
/// empty squares that are yet to be written as one digit.
pub ghost struct Written {
    pub text: Seq<char>,
    pub run: int,
}

/// What is written once one more square is seen: a man's letter, after the
/// digit of the run of empty squares before it; an empty square only
/// lengthens the run.
pub open spec fn square_written(w: Written, man: Option<Piece>) -> Written {
    match man {
        Some(p) => Written { text: run_flushed(w.text, w.run).push(p.letter()), run: 0 },
        None => Written { text: w.text, run: w.run + 1 },
    }
}

/// What is written once square `n - 1` is done: at the end of a row the
/// pending run is written, and `/` unless the row is the last.
pub open spec fn row_ended(x: Written, n: int) -> Written {
    if n % 8 == 0 {
        let t = run_flushed(x.text, x.run);
        Written {
            text: if n < 64 {
                t.push('/')
            } else {
                t
            },
            run: 0,
        }
    } else {
        x
    }
}

/// The first field as far as the first `n` squares give it: a letter for each
/// man, one digit for each run of empty squares within a row, and `/`
/// between the rows.
pub open spec fn rows_written(men: Seq<Option<Piece>>, n: int) -> Written
    decreases n,
{
    if n <= 0 {
        Written { text: Seq::empty(), run: 0 }
    } else {
        row_ended(square_written(rows_written(men, n - 1), men[n - 1]), n)
    }
}

/// The first field of a position's text.
pub open spec fn placement_text(men: Seq<Option<Piece>>) -> Seq<char> {
    rows_written(men, 64).text
}

/// The second field: `w` or `b`.
pub open spec fn side_text(side: PieceColor) -> Seq<char> {
    if side == PieceColor::Light {
        seq!['w']
    } else {
        seq!['b']
    }
}

/// The letter of a right if the right is held, and nothing if it is not.
pub open spec fn right_text(castling: u8, ct: CastlingType, c: char) -> Seq<char> {
    if has_right(castling, ct) {
        seq![c]
    } else {
        Seq::empty()
    }
}

/// The third field: the letters of the rights that are held, in the order
/// `KQkq`, or `-` if none is.
pub open spec fn castling_text(castling: u8) -> Seq<char> {
    if castling == 0 {
        seq!['-']
    } else {
        right_text(castling, CastlingType::WhiteKingside, 'K') + right_text(
            castling,
            CastlingType::WhiteQueenside,
            'Q',
        ) + right_text(castling, CastlingType::BlackKingside, 'k') + right_text(
            castling,
            CastlingType::BlackQueenside,
            'q',
        )
    }
}

/// The fourth field: the name of the en-passant square, or `-`.
pub open spec fn enpassant_text(enpassant: usize) -> Seq<char> {
    if enpassant < 64 {
        square_name(enpassant as int)
    } else {
        seq!['-']
    }
}

/// The text of a position: its six fields with one blank between them.
pub open spec fn fen_text(v: BoardView) -> Seq<char> {
    placement_text(v.men) + seq![' '] + side_text(v.side) + seq![' '] + castling_text(v.castling)
        + seq![' '] + enpassant_text(v.enpassant) + seq![' '] + decimal(v.half_moves as nat)
        + seq![' '] + decimal(v.full_moves as nat)
}

/// Writes the pending run of empty squares, if there is one.
fn flush_run(out: &mut Vec<char>, run: u8)
    requires
        run <= 8,
    ensures
        final(out)@ == run_flushed(old(out)@, run as int),
{
    if run > 0 {
        out.push((48 + run) as char);
    }
}

/// The text of a position.
pub fn gen_fen(board: &Board) -> (s: String)
    ensures
        s@ == fen_text(board@),
{
    let ghost v = board@;
    let mut out: Vec<char> = Vec::new();
    let mut run: u8 = 0;
    let mut sq: usize = 0;
    while sq < 64
        invariant
            sq <= 64,
            v == board@,
            run <= sq % 8,
            rows_written(v.men, sq as int) == (Written { text: out@, run: run as int }),
        decreases 64 - sq,
    {
        match board.find_piece(sq) {
            Some(p) => {
                flush_run(&mut out, run);
                run = 0;
                out.push(Piece::to_char(Some(p)));
            },
            None => {
                run = run + 1;
            },
        }
        sq = sq + 1;
        if sq % 8 == 0 {
            flush_run(&mut out, run);
            run = 0;
            if sq < 64 {
                out.push('/');
            }
        }
    }
    let ghost first = out@;
    out.push(' ');
    match board.state.side {
        PieceColor::Light => {
            out.push('w');
        },
        _ => {
            out.push('b');
        },
    }
    out.push(' ');
    let ghost second = out@;
    assert(second =~= first + seq![' '] + side_text(v.side) + seq![' ']);
    let castling: u8 = board.state.castling;
    if castling == 0 {
        out.push('-');
    } else {
        let bits: u64 = castling as u64;
        if get(bits, 0) {
            out.push('K');
        }
        if get(bits, 1) {
            out.push('Q');
        }
        if get(bits, 2) {
            out.push('k');
        }
        if get(bits, 3) {
            out.push('q');
        }
    }
    let ghost third = out@;
    assert(third =~= second + castling_text(v.castling));
    out.push(' ');
    let ep: usize = board.state.enpassant;
    if ep < 64 {
        push_square(&mut out, ep);
    } else {
        out.push('-');
    }
    out.push(' ');
    let ghost fourth = out@;
    assert(fourth =~= third + seq![' '] + enpassant_text(v.enpassant) + seq![' ']);
    push_decimal(&mut out, board.state.half_moves as u64);
    out.push(' ');
    push_decimal(&mut out, board.state.full_moves as u64);
    assert(out@ =~= fen_text(v));
    string_of(&out)
}

} // verus!

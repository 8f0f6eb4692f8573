//! Writing a position as text and reading the text again gives the position
//! back.
use vstd::prelude::*;
use crate::board::{has_right, lemma_same_view_same_board, Board, BoardView, CastlingType};
use crate::consts::{lemma_piece_numbering, Piece, PieceColor, NO_SQ};
use crate::fen::{
    blanks, castling_of, castling_text, counter_of, enpassant_of, enpassant_text, fen_text,
    is_space, placement_of, placement_text, position_of, right_bit, right_text, rights_named,
    row_ended, row_step, rows_of, rows_with, rows_written, run_flushed, side_of, side_text,
    square_written, words, FenError, Rows, Written,
};
use crate::text::{decimal, digit_char, is_digit, lemma_decimal, lemma_square_name};
use crate::zobrist::ZobristInfo;

verus! {

/// `w` has a character, and none of its characters is white space.
pub open spec fn is_word(w: Seq<char>) -> bool {
    w.len() > 0 && forall|i: int| 0 <= i < w.len() ==> !is_space(#[trigger] w[i])
}

/// A text that ends a field, followed by a word, has the word as one more
/// field.
pub proof fn lemma_words_extend(p: Seq<char>, w: Seq<char>)
    requires
        p.len() == 0 || is_space(p.last()),
        is_word(w),
    ensures
        words(p + w) == words(p).push(w),
    decreases w.len(),
{
    let s = p + w;
    let c = w.last();
    assert(s.last() == c);
    if w.len() == 1 {
        assert(s.drop_last() =~= p);
        assert(w =~= seq![c]);
        if s.len() >= 2 {
            assert(s[s.len() - 2] == p.last());
        }
    } else {
        let v = w.drop_last();
        assert(s.drop_last() =~= p + v);
        assert(is_word(v)) by {
            assert forall|i: int| 0 <= i < v.len() implies !is_space(#[trigger] v[i]) by {
                assert(v[i] == w[i]);
            }
        }
        lemma_words_extend(p, v);
        assert(s[s.len() - 2] == w[w.len() - 2]);
        let before = words(p).push(v);
        assert(before.drop_last() =~= words(p));
        assert(before.last() == v);
        assert(v.push(c) =~= w);
    }
}

/// A text followed by a blank and a word has the word as one more field.
pub proof fn lemma_words_next(a: Seq<char>, w: Seq<char>)
    requires
        is_word(w),
    ensures
        words(a + seq![' '] + w) == words(a).push(w),
{
    let p = a + seq![' '];
    assert(p.drop_last() =~= a);
    assert(p.last() == ' ');
    assert(words(p) == words(a));
    lemma_words_extend(p, w);
}

/// Reading one more character continues from what was read before.
pub proof fn lemma_rows_push(text: Seq<char>, c: char)
    ensures
        rows_of(text.push(c)) == (match rows_of(text) {
            Some(rows) => row_step(rows, c),
            None => None,
        }),
{
    assert(text.push(c).drop_last() =~= text);
}

/// What the first `n` squares are written as reads back as these squares:
/// all but the empty squares that are yet to be written as a digit.
pub open spec fn reads_back(men: Seq<Option<Piece>>, n: int) -> bool {
    let w = rows_written(men, n);
    &&& 0 <= w.run <= n % 8
    &&& forall|j: int| n - w.run <= j < n ==> (#[trigger] men[j]) is None
    &&& rows_of(w.text) == Some(Rows { men: men.subrange(0, n - w.run), full_row: false })
    &&& forall|i: int| 0 <= i < w.text.len() ==> !is_space(#[trigger] w.text[i])
    &&& n > 0 ==> w.text.len() + w.run > 0
}

/// Writing the digit of a pending run of empty squares.
proof fn lemma_flush(men: Seq<Option<Piece>>, n: int, text: Seq<char>, run: int)
    requires
        0 <= n <= 64,
        men.len() == 64,
        0 <= run <= 8,
        run <= n,
        run > 0 ==> (n - run) / 8 == (n - 1) / 8,
        forall|j: int| n - run <= j < n ==> (#[trigger] men[j]) is None,
        rows_of(text) == Some(Rows { men: men.subrange(0, n - run), full_row: false }),
        forall|i: int| 0 <= i < text.len() ==> !is_space(#[trigger] text[i]),
    ensures
        rows_of(run_flushed(text, run)) == Some(
            Rows {
                men: men.subrange(0, n),
                full_row: if run > 0 {
                    n % 8 == 0 && n < 64
                } else {
                    false
                },
            },
        ),
        forall|i: int|
            0 <= i < run_flushed(text, run).len() ==> !is_space(#[trigger] run_flushed(text, run)[i]),
        run_flushed(text, run).len() == text.len() + (if run > 0 {
            1int
        } else {
            0int
        }),
{
    if run > 0 {
        let c = digit_char(run);
        lemma_rows_push(text, c);
        let before = Rows { men: men.subrange(0, n - run), full_row: false };
        assert(c as u32 as int - 48 == run);
        assert('1' <= c <= '8');
        assert(c != '/');
        assert(before.men.len() % 8 + run <= 8);
        let after = rows_with(before, blanks(run));
        assert(after.men =~= men.subrange(0, n));
        assert(row_step(before, c) == Some(after));
    }
}

/// What is written after square `n - 1`, before the end of a row is dealt
/// with, reads back as the squares seen.
pub open spec fn square_reads_back(men: Seq<Option<Piece>>, n: int, x: Written) -> bool {
    &&& 0 <= x.run <= 8
    &&& x.run <= n
    &&& x.run > 0 ==> (n - x.run) / 8 == (n - 1) / 8
    &&& n % 8 != 0 ==> x.run <= n % 8
    &&& forall|j: int| n - x.run <= j < n ==> (#[trigger] men[j]) is None
    &&& rows_of(x.text) == Some(
        Rows {
            men: men.subrange(0, n - x.run),
            full_row: if x.run == 0 {
                n % 8 == 0 && n < 64
            } else {
                false
            },
        },
    )
    &&& forall|i: int| 0 <= i < x.text.len() ==> !is_space(#[trigger] x.text[i])
    &&& x.text.len() + x.run > 0
}

/// Seeing one more square keeps the text readable.
proof fn lemma_square_read_back(men: Seq<Option<Piece>>, n: int)
    requires
        1 <= n <= 64,
        men.len() == 64,
        reads_back(men, n - 1),
    ensures
        square_reads_back(men, n, square_written(rows_written(men, n - 1), men[n - 1])),
{
    let w = rows_written(men, n - 1);
    let x = square_written(w, men[n - 1]);
    match men[n - 1] {
        Some(p) => {
            lemma_flush(men, n - 1, w.text, w.run);
            let t = run_flushed(w.text, w.run);
            let c = p.letter();
            lemma_rows_push(t, c);
            lemma_piece_numbering(p);
            let before = Rows { men: men.subrange(0, n - 1), full_row: false };
            assert(rows_of(t) == Some(before));
            let after = rows_with(before, seq![Some(p)]);
            assert(after.men =~= men.subrange(0, n));
            assert(row_step(before, c) == Some(after));
            assert(x.text == t.push(c));
            assert(!is_space(c));
        },
        None => {
            assert(men.subrange(0, n - 1 - w.run) =~= men.subrange(0, n - x.run));
        },
    }
}

/// Ending a row keeps the text readable.
proof fn lemma_row_end_read_back(men: Seq<Option<Piece>>, n: int, x: Written)
    requires
        1 <= n <= 64,
        men.len() == 64,
        square_reads_back(men, n, x),
        rows_written(men, n) == row_ended(x, n),
    ensures
        reads_back(men, n),
{
    if n % 8 == 0 {
        let full = n < 64;
        if x.run > 0 {
            lemma_flush(men, n, x.text, x.run);
        } else {
            assert(run_flushed(x.text, x.run) == x.text);
        }
        let t = run_flushed(x.text, x.run);
        assert(rows_of(t) == Some(Rows { men: men.subrange(0, n), full_row: full }));
        if n < 64 {
            lemma_rows_push(t, '/');
        }
    }
}

/// Every beginning of the first field reads back as the squares it was
/// written from.
pub proof fn lemma_rows_read_back(men: Seq<Option<Piece>>, n: int)
    requires
        0 <= n <= 64,
        men.len() == 64,
    ensures
        reads_back(men, n),
    decreases n,
{
    if n <= 0 {
        assert(men.subrange(0, 0) =~= Seq::<Option<Piece>>::empty());
    } else {
        lemma_rows_read_back(men, n - 1);
        lemma_square_read_back(men, n);
        lemma_row_end_read_back(
            men,
            n,
            square_written(rows_written(men, n - 1), men[n - 1]),
        );
    }
}

/// The first field reads back as the men it was written from, and is a word.
pub proof fn lemma_placement_read_back(men: Seq<Option<Piece>>)
    requires
        men.len() == 64,
    ensures
        placement_of(placement_text(men)) == Some(men),
        is_word(placement_text(men)),
{
    lemma_rows_read_back(men, 64);
    assert(men.subrange(0, 64) =~= men);
}

proof fn lemma_right_bits(c: u8)
    by (bit_vector)
    requires
        c < 16,
    ensures
        (((c as u64) >> 0u64) & 1 == 1) == (c & 1u8 != 0),
        (((c as u64) >> 1u64) & 1 == 1) == (c & 2u8 != 0),
        (((c as u64) >> 2u64) & 1 == 1) == (c & 4u8 != 0),
        (((c as u64) >> 3u64) & 1 == 1) == (c & 8u8 != 0),
        c & 1u8 == 0 || c & 1u8 == 1,
        c & 2u8 == 0 || c & 2u8 == 2,
        c & 4u8 == 0 || c & 4u8 == 4,
        c & 8u8 == 0 || c & 8u8 == 8,
        0u8 & (c & 1u8) == 0,
        (0u8 | (c & 1u8)) & (c & 2u8) == 0,
        ((0u8 | (c & 1u8)) | (c & 2u8)) & (c & 4u8) == 0,
        (((0u8 | (c & 1u8)) | (c & 2u8)) | (c & 4u8)) & (c & 8u8) == 0,
        (((0u8 | (c & 1u8)) | (c & 2u8)) | (c & 4u8)) | (c & 8u8) == c,
{
}

/// Reading one more letter of the third field continues from the rights
/// read before.
proof fn lemma_rights_push(text: Seq<char>, ch: char)
    ensures
        rights_named(text.push(ch)) == (match (rights_named(text), right_bit(ch)) {
            (Some(mask), Some(bit)) => if mask & bit == 0 {
                Some((mask | bit) as u8)
            } else {
                None
            },
            _ => None,
        }),
{
    assert(text.push(ch).drop_last() =~= text);
}

/// What one right adds to the third field reads back as the right's bit.
proof fn lemma_right_read_back(
    text: Seq<char>,
    mask: u8,
    castling: u8,
    ct: CastlingType,
    ch: char,
    part: u8,
)
    requires
        rights_named(text) == Some(mask),
        right_bit(ch) matches Some(bit) && (part == 0 || part == bit),
        (part != 0) == has_right(castling, ct),
        mask & part == 0,
    ensures
        rights_named(text + right_text(castling, ct, ch)) == Some((mask | part) as u8),
        (text + right_text(castling, ct, ch)).len() == text.len() + (if part != 0 {
            1int
        } else {
            0int
        }),
{
    if has_right(castling, ct) {
        assert(text + right_text(castling, ct, ch) =~= text.push(ch));
        lemma_rights_push(text, ch);
    } else {
        assert(text + right_text(castling, ct, ch) =~= text);
        assert(mask | 0u8 == mask) by (bit_vector);
    }
}

/// The third field reads back as the rights it was written from, and is a
/// word.
pub proof fn lemma_castling_read_back(castling: u8)
    requires
        castling < 16,
    ensures
        castling_of(castling_text(castling)) == Some(castling),
        is_word(castling_text(castling)),
{
    let c = castling;
    lemma_right_bits(c);
    if c != 0 {
        let t0 = Seq::<char>::empty();
        let t1 = t0 + right_text(c, CastlingType::WhiteKingside, 'K');
        let t2 = t1 + right_text(c, CastlingType::WhiteQueenside, 'Q');
        let t3 = t2 + right_text(c, CastlingType::BlackKingside, 'k');
        let t4 = t3 + right_text(c, CastlingType::BlackQueenside, 'q');
        let m1 = 0u8 | (c & 1u8);
        let m2 = m1 | (c & 2u8);
        let m3 = m2 | (c & 4u8);
        lemma_right_read_back(t0, 0u8, c, CastlingType::WhiteKingside, 'K', c & 1u8);
        lemma_right_read_back(t1, m1, c, CastlingType::WhiteQueenside, 'Q', c & 2u8);
        lemma_right_read_back(t2, m2, c, CastlingType::BlackKingside, 'k', c & 4u8);
        lemma_right_read_back(t3, m3, c, CastlingType::BlackQueenside, 'q', c & 8u8);
        assert(t1 =~= right_text(c, CastlingType::WhiteKingside, 'K'));
        assert(castling_text(c) == t4);
        assert(t4.len() > 0);
        assert forall|i: int| 0 <= i < t4.len() implies !is_space(#[trigger] t4[i]) && t4[i]
            != '-' by {}
        assert(!(t4 =~= seq!['-'])) by {
            if t4 =~= seq!['-'] {
                assert(t4[0] == '-');
            }
        }
    } else {
        assert(castling_text(c)[0] == '-');
    }
}

/// Every character of a decimal numeral is a digit, so the numeral is a word.
pub proof fn lemma_decimal_word(n: nat)
    ensures
        is_word(decimal(n)),
{
    lemma_decimal(n);
    let d = decimal(n);
    assert forall|i: int| 0 <= i < d.len() implies !is_space(#[trigger] d[i]) by {
        assert(is_digit(d[i]));
    }
}

/// The position that a text describes is the position that the text was
/// written from: for every position with 64 squares, a side to move, rights
/// among the four, and an en-passant square or none.
pub proof fn lemma_round_trip(v: BoardView)
    requires
        v.men.len() == 64,
        v.side != PieceColor::Both,
        v.castling < 16,
        v.enpassant <= NO_SQ,
    ensures
        position_of(fen_text(v)) == Ok::<BoardView, FenError>(v),
{
    let f0 = placement_text(v.men);
    let f1 = side_text(v.side);
    let f2 = castling_text(v.castling);
    let f3 = enpassant_text(v.enpassant);
    let f4 = decimal(v.half_moves as nat);
    let f5 = decimal(v.full_moves as nat);
    lemma_placement_read_back(v.men);
    lemma_castling_read_back(v.castling);
    lemma_decimal(v.half_moves as nat);
    lemma_decimal(v.full_moves as nat);
    lemma_decimal_word(v.half_moves as nat);
    lemma_decimal_word(v.full_moves as nat);
    assert(is_word(f1));
    assert(is_word(f3) && enpassant_of(f3) == Some(v.enpassant)) by {
        if v.enpassant < 64 {
            lemma_square_name(v.enpassant as int);
            assert(f3.len() == 2);
            assert(!(f3 =~= seq!['-']));
        } else {
            assert(f3[0] == '-');
        }
    }
    assert(side_of(f1) == Some(v.side)) by {
        if v.side == PieceColor::Light {
        } else {
            assert(f1[0] == 'b');
            assert(!(f1 =~= seq!['w']));
        }
    }
    lemma_words_extend(Seq::empty(), f0);
    assert(Seq::<char>::empty() + f0 =~= f0);
    assert(words(Seq::<char>::empty()) =~= Seq::<Seq<char>>::empty());
    let a0 = f0;
    lemma_words_next(a0, f1);
    let a1 = a0 + seq![' '] + f1;
    lemma_words_next(a1, f2);
    let a2 = a1 + seq![' '] + f2;
    lemma_words_next(a2, f3);
    let a3 = a2 + seq![' '] + f3;
    lemma_words_next(a3, f4);
    let a4 = a3 + seq![' '] + f4;
    lemma_words_next(a4, f5);
    let a5 = a4 + seq![' '] + f5;
    assert(fen_text(v) == a5);
    let f = words(a5);
    assert(f =~= seq![f0, f1, f2, f3, f4, f5]);
    assert(counter_of(f4) == Some(v.half_moves));
    assert(counter_of(f5) == Some(v.full_moves));
}

/// Reading the text of a position gives the same position, bit for bit:
/// whatever `parse` hands back for the text that `gen_fen` wrote of a
/// well-formed position with its hashes is that position.
pub proof fn lemma_parse_gen_fen(board: Board, zobrist_info: ZobristInfo, read: Board)
    requires
        board.wf(),
        zobrist_info.hashes(board),
        position_of(fen_text(board@)) matches Ok(v) && read@ == v && read.wf()
            && zobrist_info.hashes(read),
    ensures
        read == board,
{
    lemma_round_trip(board@);
    lemma_same_view_same_board(read, board);
}

/// Two positions read from the same text with the same tables carry the
/// same hashes, and are the same position.
pub proof fn lemma_same_text_same_hashes(
    text: Seq<char>,
    zobrist_info: ZobristInfo,
    a: Board,
    b: Board,
)
    requires
        position_of(text) matches Ok(v) && a@ == v && b@ == v,
        a.wf(),
        b.wf(),
        zobrist_info.hashes(a),
        zobrist_info.hashes(b),
    ensures
        a.state.key == b.state.key,
        a.state.lock == b.state.lock,
        a == b,
{
    lemma_same_view_same_board(a, b);
}

} // verus!

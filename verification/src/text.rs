//! Characters in and out of strings, decimal numbers, and the names of
//! squares.
use vstd::prelude::*;
use vstd::string::StrSliceExecFns;
use crate::consts::{col_of, row_of, NO_SQ};

verus! {

/// `String::push` of the standard library: the string grows by the one
/// character at its end.
pub assume_specification[ String::push ](s: &mut String, ch: char)
    ensures
        final(s)@ == old(s)@.push(ch),
;

/// The characters of `s`.
pub fn chars_of(s: &str) -> (v: Vec<char>)
    ensures
        v@ == s@,
{
    let n: usize = s.unicode_len();
    let mut v: Vec<char> = Vec::new();
    let mut i: usize = 0;
    while i < n
        invariant
            i <= n,
            n == s@.len(),
            v@ == s@.subrange(0, i as int),
        decreases n - i,
    {
        v.push(s.get_char(i));
        proof {
            assert(v@ =~= s@.subrange(0, i + 1));
        }
        i = i + 1;
    }
    proof {
        assert(v@ =~= s@);
    }
    v
}

/// The string made of the characters `v`.
pub fn string_of(v: &Vec<char>) -> (s: String)
    ensures
        s@ == v@,
{
    let mut s: String = String::new();
    let mut i: usize = 0;
    while i < v.len()
        invariant
            i <= v@.len(),
            s@ == v@.subrange(0, i as int),
        decreases v@.len() - i,
    {
        s.push(v[i]);
        proof {
            assert(s@ =~= v@.subrange(0, i + 1));
        }
        i = i + 1;
    }
    proof {
        assert(s@ =~= v@);
    }
    s
}

/// Joining texts is associative.
pub proof fn lemma_join(a: Seq<char>, b: Seq<char>, c: Seq<char>)
    ensures
        a + (b + c) == (a + b) + c,
{
    assert(a + (b + c) =~= (a + b) + c);
}

/// Appends the characters of `s` to `out`.
pub fn push_text(out: &mut Vec<char>, s: &str)
    ensures
        final(out)@ == old(out)@ + s@,
{
    let v = chars_of(s);
    push_chars(out, &v);
}

/// Appends the characters `v` to `out`.
pub fn push_chars(out: &mut Vec<char>, v: &Vec<char>)
    ensures
        final(out)@ == old(out)@ + v@,
{
    let mut i: usize = 0;
    while i < v.len()
        invariant
            i <= v@.len(),
            out@ == old(out)@ + v@.subrange(0, i as int),
        decreases v@.len() - i,
    {
        out.push(v[i]);
        proof {
            assert(out@ =~= old(out)@ + v@.subrange(0, i + 1));
        }
        i = i + 1;
    }
    proof {
        assert(v@.subrange(0, i as int) =~= v@);
    }
}

/// Whether `a` and `b` are the same text.
pub fn same_text(a: &Vec<char>, b: &Vec<char>) -> (r: bool)
    ensures
        r == (a@ == b@),
{
    if a.len() != b.len() {
        return false;
    }
    let mut i: usize = 0;
    while i < a.len()
        invariant
            i <= a@.len(),
            a@.len() == b@.len(),
            forall|j: int| 0 <= j < i ==> a@[j] == b@[j],
        decreases a@.len() - i,
    {
        if a[i] != b[i] {
            return false;
        }
        i = i + 1;
    }
    proof {
        assert(a@ =~= b@);
    }
    true
}

/// The character of the decimal digit `d`.
pub open spec fn digit_char(d: int) -> char {
    ((48 + d) as u8) as char
}

/// `c` is a decimal digit.
pub open spec fn is_digit(c: char) -> bool {
    '0' <= c <= '9'
}

/// The value of the decimal digit `c`.
pub open spec fn digit_value(c: char) -> int {
    c as u32 as int - 48
}

/// The decimal numeral of `n`, without leading zeros.
pub open spec fn decimal(n: nat) -> Seq<char>
    decreases n,
{
    if n < 10 {
        seq![digit_char(n as int)]
    } else {
        decimal(n / 10).push(digit_char((n % 10) as int))
    }
}

/// The number that the digits `s` denote; leading zeros count for nothing.
pub open spec fn numeral_value(s: Seq<char>) -> nat
    decreases s.len(),
{
    if s.len() == 0 {
        0
    } else {
        (10 * numeral_value(s.drop_last()) + digit_value(s.last())) as nat
    }
}

/// `s` is a numeral: one digit or more, and nothing else.
pub open spec fn is_numeral(s: Seq<char>) -> bool {
    s.len() > 0 && forall|i: int| 0 <= i < s.len() ==> is_digit(#[trigger] s[i])
}

/// A decimal numeral is a numeral, and denotes the number it was made from.
pub proof fn lemma_decimal(n: nat)
    ensures
        is_numeral(decimal(n)),
        numeral_value(decimal(n)) == n,
    decreases n,
{
    if n < 10 {
        let s = decimal(n);
        assert(s.drop_last() =~= Seq::<char>::empty());
        assert(numeral_value(s.drop_last()) == 0);
    } else {
        lemma_decimal(n / 10);
        let s = decimal(n);
        assert(s.drop_last() =~= decimal(n / 10));
    }
}

/// Appends the decimal numeral of `n` to `out`.
pub fn push_decimal(out: &mut Vec<char>, n: u64)
    ensures
        final(out)@ == old(out)@ + decimal(n as nat),
    decreases n,
{
    if n >= 10 {
        push_decimal(out, n / 10);
    }
    out.push(((48 + (n % 10)) as u8) as char);
    proof {
        if n < 10 {
            assert(final(out)@ =~= old(out)@ + decimal(n as nat));
        } else {
            assert(final(out)@ =~= old(out)@ + decimal(n as nat));
        }
    }
}

/// The number that `s` denotes, if `s` is a numeral of a number that fits.
pub fn parse_decimal(s: &[char]) -> (r: Option<u32>)
    ensures
        r matches Some(n) ==> is_numeral(s@) && numeral_value(s@) == n,
        r is None ==> !is_numeral(s@) || numeral_value(s@) > u32::MAX,
{
    if s.len() == 0 {
        return None;
    }
    let mut n: u32 = 0;
    let mut i: usize = 0;
    while i < s.len()
        invariant
            i <= s@.len(),
            forall|j: int| 0 <= j < i ==> is_digit(#[trigger] s@[j]),
            n == numeral_value(s@.subrange(0, i as int)),
        decreases s@.len() - i,
    {
        let c: char = s[i];
        if !('0' <= c && c <= '9') {
            return None;
        }
        let d: u32 = c as u32 - 48;
        proof {
            let t = s@.subrange(0, i + 1);
            assert(t.drop_last() =~= s@.subrange(0, i as int));
            assert(t.last() == c);
            assert(numeral_value(t) == 10 * n + d);
            lemma_numeral_grows(s@, i + 1);
        }
        if n > (u32::MAX - d) / 10 {
            return None;
        }
        n = 10 * n + d;
        i = i + 1;
    }
    proof {
        assert(s@.subrange(0, i as int) =~= s@);
    }
    Some(n)
}

/// The value of a numeral is at least the value of each of its beginnings.
pub proof fn lemma_numeral_grows(s: Seq<char>, i: int)
    requires
        0 <= i <= s.len(),
        forall|j: int| 0 <= j < s.len() ==> is_digit(#[trigger] s[j]) || j >= i,
    ensures
        is_numeral(s) ==> numeral_value(s.subrange(0, i)) <= numeral_value(s),
    decreases s.len() - i,
{
    if is_numeral(s) {
        if i == s.len() {
            assert(s.subrange(0, i) =~= s);
        } else {
            let t = s.subrange(0, i + 1);
            assert(t.drop_last() =~= s.subrange(0, i));
            assert(is_digit(s[i]));
            lemma_numeral_grows(s, i + 1);
        }
    }
}

/// The letter of column `c`: `a` for the first.
pub open spec fn file_char(c: int) -> char {
    ((97 + c) as u8) as char
}

/// The digit of row `r`: `8` for the first, since the eighth rank comes first.
pub open spec fn rank_char(r: int) -> char {
    ((56 - r) as u8) as char
}

/// The name of square `sq`, such as `e4`.
pub open spec fn square_name(sq: int) -> Seq<char> {
    seq![file_char(col_of(sq)), rank_char(row_of(sq))]
}

/// The square that `name` names, or `NO_SQ` if it names none.
pub open spec fn square_named(name: Seq<char>) -> int {
    if name.len() == 2 && 'a' <= name[0] <= 'h' && '1' <= name[1] <= '8' {
        8 * (56 - name[1] as u32 as int) + (name[0] as u32 as int - 97)
    } else {
        NO_SQ as int
    }
}

/// The square named by the two characters `s`; `NO_SQ` if they name none.
pub fn sq_from_chars(s: &[char]) -> (sq: usize)
    ensures
        sq == square_named(s@),
        sq <= 64,
{
    if s.len() != 2 {
        return NO_SQ;
    }
    let f: char = s[0];
    let r: char = s[1];
    if 'a' <= f && f <= 'h' && '1' <= r && r <= '8' {
        8 * (56 - r as u32 as usize) + (f as u32 as usize - 97)
    } else {
        NO_SQ
    }
}

/// The square that the string names; `NO_SQ` if it names none.
pub fn sq_from_str(s: &str) -> (sq: usize)
    ensures
        sq == square_named(s@),
        sq <= 64,
{
    let v = chars_of(s);
    sq_from_chars(v.as_slice())
}

/// Appends the name of square `sq` to `out`.
pub fn push_square(out: &mut Vec<char>, sq: usize)
    requires
        sq < 64,
    ensures
        final(out)@ == old(out)@ + square_name(sq as int),
{
    out.push(((97 + sq % 8) as u8) as char);
    out.push(((56 - sq / 8) as u8) as char);
    proof {
        assert(final(out)@ =~= old(out)@ + square_name(sq as int));
    }
}

/// The name of square `sq`, or `-` for a number that is no square.
pub fn sq_to_string(sq: usize) -> (s: String)
    ensures
        s@ == (if sq < 64 {
            square_name(sq as int)
        } else {
            seq!['-']
        }),
{
    let mut v: Vec<char> = Vec::new();
    if sq < 64 {
        push_square(&mut v, sq);
        proof {
            assert(v@ =~= square_name(sq as int));
        }
    } else {
        v.push('-');
        proof {
            assert(v@ =~= seq!['-']);
        }
    }
    string_of(&v)
}

/// A square's name names the square.
pub proof fn lemma_square_name(sq: int)
    requires
        0 <= sq < 64,
    ensures
        square_named(square_name(sq)) == sq,
{
}

} // verus!

//! What an engine says: finding its answer in the lines it has written.
use vstd::prelude::*;
use crate::fen::{is_space, split_words, views, words};
use crate::text::{chars_of, same_text, string_of};

verus! {

/// `pat` stands in `hay` at position `i`.
pub open spec fn matches_at(hay: Seq<char>, pat: Seq<char>, i: int) -> bool {
    0 <= i && i + pat.len() <= hay.len() && hay.subrange(i, i + pat.len()) == pat
}

/// The last position up to `i` at which `pat` stands in `hay`; -1 if there
/// is none.
pub open spec fn last_match(hay: Seq<char>, pat: Seq<char>, i: int) -> int
    decreases i + 1,
{
    if i < 0 {
        -1
    } else if matches_at(hay, pat, i) {
        i
    } else {
        last_match(hay, pat, i - 1)
    }
}

/// `c` is a letter or a digit.
pub open spec fn is_alnum(c: char) -> bool {
    ('0' <= c <= '9') || ('a' <= c <= 'z') || ('A' <= c <= 'Z')
}

/// `s` without the white space at its beginning.
pub open spec fn trimmed(s: Seq<char>) -> Seq<char>
    decreases s.len(),
{
    if s.len() > 0 && is_space(s[0]) {
        trimmed(s.drop_first())
    } else {
        s
    }
}

/// The letters and digits at the beginning of `s`.
pub open spec fn leading_word(s: Seq<char>) -> Seq<char>
    decreases s.len(),
{
    if s.len() > 0 && is_alnum(s[0]) {
        seq![s[0]] + leading_word(s.drop_first())
    } else {
        Seq::empty()
    }
}

/// The move that an engine names in `output`: the letters and digits that
/// follow the last `bestmove` and the white space after it. None if
/// `output` holds no `bestmove`.
pub open spec fn best_move_in(output: Seq<char>) -> Option<Seq<char>> {
    let pat = "bestmove"@;
    let at = last_match(output, pat, output.len() - pat.len());
    if at < 0 {
        None
    } else {
        Some(leading_word(trimmed(output.subrange(at + pat.len(), output.len() as int))))
    }
}

/// Whether `pat` stands in `hay` at position `i`.
fn stands_at(hay: &Vec<char>, pat: &Vec<char>, i: usize) -> (r: bool)
    requires
        i + pat@.len() <= hay@.len(),
    ensures
        r == matches_at(hay@, pat@, i as int),
{
    let mut k: usize = 0;
    let n: usize = hay.len();
    while k < pat.len()
        invariant
            k <= pat@.len(),
            n == hay@.len(),
            i + pat@.len() <= hay@.len(),
            forall|j: int| 0 <= j < k ==> hay@[i + j] == pat@[j],
        decreases pat@.len() - k,
    {
        if hay[i + k] != pat[k] {
            proof {
                assert(hay@.subrange(i as int, i + pat@.len())[k as int] == hay@[i + k]);
            }
            return false;
        }
        k = k + 1;
    }
    proof {
        assert(hay@.subrange(i as int, i + pat@.len()) =~= pat@);
    }
    true
}

/// The last position at which `pat` stands in `hay`.
pub fn find_last(hay: &Vec<char>, pat: &Vec<char>) -> (r: Option<usize>)
    ensures
        r matches Some(i) ==> i == last_match(hay@, pat@, hay@.len() - pat@.len()),
        r is None ==> last_match(hay@, pat@, hay@.len() - pat@.len()) < 0,
        r matches Some(i) ==> i + pat@.len() <= hay@.len(),
{
    if pat.len() > hay.len() {
        return None;
    }
    let top: usize = hay.len() - pat.len();
    let mut i: usize = top;
    loop
        invariant
            i <= top,
            top == hay@.len() - pat@.len(),
            last_match(hay@, pat@, top as int) == last_match(hay@, pat@, i as int),
        decreases i,
    {
        if stands_at(hay, pat, i) {
            return Some(i);
        }
        if i == 0 {
            proof {
                assert(last_match(hay@, pat@, -1) == -1);
                assert(last_match(hay@, pat@, 0) == -1);
            }
            return None;
        }
        i = i - 1;
    }
}

/// Dropping the first of the characters from `from` on gives those from
/// `from + 1` on.
proof fn lemma_rest(s: Seq<char>, from: int)
    requires
        0 <= from < s.len(),
    ensures
        s.subrange(from, s.len() as int).drop_first() == s.subrange(from + 1, s.len() as int),
        s.subrange(from, s.len() as int)[0] == s[from],
{
    assert(s.subrange(from, s.len() as int).drop_first() =~= s.subrange(from + 1, s.len() as int));
}

/// The move that an engine names in `output`, if it names one.
pub fn best_move(output: &str) -> (r: Option<String>)
    ensures
        match best_move_in(output@) {
            Some(word) => r matches Some(s) && s@ == word,
            None => r is None,
        },
{
    let hay = chars_of(output);
    let pat = chars_of("bestmove");
    let at: usize = match find_last(&hay, &pat) {
        Some(i) => i,
        None => {
            return None;
        },
    };
    let n: usize = hay.len();
    let start: usize = at + pat.len();
    let ghost tail = hay@.subrange(start as int, n as int);
    let mut i: usize = start;
    while i < n && (hay[i] == ' ' || hay[i] == '\t' || hay[i] == '\n' || hay[i] == '\x0C' || hay[i]
        == '\r')
        invariant
            start <= i <= n,
            n == hay@.len(),
            trimmed(tail) == trimmed(hay@.subrange(i as int, n as int)),
        decreases n - i,
    {
        proof {
            lemma_rest(hay@, i as int);
        }
        i = i + 1;
    }
    proof {
        if i < n {
            lemma_rest(hay@, i as int);
        }
        assert(trimmed(tail) == hay@.subrange(i as int, n as int));
    }
    let ghost rest = hay@.subrange(i as int, n as int);
    let first: usize = i;
    let mut word: Vec<char> = Vec::new();
    while i < n && (('0' <= hay[i] && hay[i] <= '9') || ('a' <= hay[i] && hay[i] <= 'z') || ('A'
        <= hay[i] && hay[i] <= 'Z'))
        invariant
            first <= i <= n,
            n == hay@.len(),
            rest == hay@.subrange(first as int, n as int),
            leading_word(rest) == word@ + leading_word(hay@.subrange(i as int, n as int)),
        decreases n - i,
    {
        proof {
            lemma_rest(hay@, i as int);
            let here = hay@.subrange(i as int, n as int);
            let next = hay@.subrange(i + 1, n as int);
            assert(leading_word(here) == seq![hay@[i as int]] + leading_word(next));
            assert(word@ + (seq![hay@[i as int]] + leading_word(next)) =~= word@.push(
                hay@[i as int],
            ) + leading_word(next));
        }
        word.push(hay[i]);
        i = i + 1;
    }
    proof {
        if i < n {
            lemma_rest(hay@, i as int);
        }
        assert(leading_word(hay@.subrange(i as int, n as int)) =~= Seq::<char>::empty());
        assert(word@ + Seq::<char>::empty() =~= word@);
    }
    Some(string_of(&word))
}

/// The lines of a text: what stands between its line feeds.
pub open spec fn lines_of(s: Seq<char>) -> Seq<Seq<char>>
    decreases s.len(),
{
    if s.len() == 0 {
        seq![Seq::empty()]
    } else {
        let before = lines_of(s.drop_last());
        if s.last() == '\n' {
            before.push(Seq::empty())
        } else {
            before.drop_last().push(before.last().push(s.last()))
        }
    }
}

/// The word ends in `id`.
pub open spec fn ends_with_id(w: Seq<char>) -> bool {
    w.len() >= 2 && w[w.len() - 2] == 'i' && w[w.len() - 1] == 'd'
}

/// The name that a line gives to the engine: the word after `id name`, or
/// `No name` if nothing follows. None if the line does not begin so.
pub open spec fn line_name(line: Seq<char>) -> Option<Seq<char>> {
    let w = words(line);
    if w.len() >= 2 && ends_with_id(w[0]) && w[1] == "name"@ {
        Some(
            if w.len() >= 3 {
                w[2]
            } else {
                "No name"@
            },
        )
    } else {
        None
    }
}

/// The name that the last of `lines` with a name gives.
pub open spec fn name_among(lines: Seq<Seq<char>>) -> Option<Seq<char>>
    decreases lines.len(),
{
    if lines.len() == 0 {
        None
    } else {
        match line_name(lines.last()) {
            Some(name) => Some(name),
            None => name_among(lines.drop_last()),
        }
    }
}

/// The name by which an engine introduces itself in `output`.
pub open spec fn engine_name_in(output: Seq<char>) -> Option<Seq<char>> {
    name_among(lines_of(output))
}

/// Splits a text into its lines.
pub fn split_lines(s: &Vec<char>) -> (r: Vec<Vec<char>>)
    ensures
        views(r@) == lines_of(s@),
{
    let mut done: Vec<Vec<char>> = Vec::new();
    let mut current: Vec<char> = Vec::new();
    let mut i: usize = 0;
    proof {
        assert(s@.subrange(0, 0) =~= Seq::<char>::empty());
        assert(views(done@).push(current@) =~= seq![Seq::<char>::empty()]);
    }
    while i < s.len()
        invariant
            i <= s@.len(),
            lines_of(s@.subrange(0, i as int)) == views(done@).push(current@),
        decreases s@.len() - i,
    {
        let c: char = s[i];
        let ghost before = views(done@);
        let ghost line = current@;
        proof {
            let next = s@.subrange(0, i + 1);
            assert(next.drop_last() =~= s@.subrange(0, i as int));
            assert(next.last() == c);
            assert(before.push(line).drop_last() =~= before);
            assert(before.push(line).last() == line);
        }
        if c == '\n' {
            done.push(current);
            current = Vec::new();
            proof {
                assert(views(done@) =~= before.push(line));
            }
        } else {
            current.push(c);
        }
        i = i + 1;
    }
    proof {
        assert(s@.subrange(0, i as int) =~= s@);
    }
    let ghost before = views(done@);
    let ghost line = current@;
    done.push(current);
    proof {
        assert(views(done@) =~= before.push(line));
    }
    done
}

/// The name that a line gives to the engine, if it gives one.
fn name_in_line(line: &Vec<char>) -> (r: Option<Vec<char>>)
    ensures
        match line_name(line@) {
            Some(name) => r matches Some(v) && v@ == name,
            None => r is None,
        },
{
    let w = split_words(line);
    proof {
        assert forall|i: int| 0 <= i < w@.len() implies #[trigger] w@[i]@ == words(line@)[i] by {
            assert(views(w@)[i] == w@[i]@);
        }
    }
    if w.len() < 2 {
        return None;
    }
    let first: &Vec<char> = &w[0];
    let n: usize = first.len();
    if n < 2 || first[n - 2] != 'i' || first[n - 1] != 'd' {
        return None;
    }
    let key = chars_of("name");
    if !same_text(&w[1], &key) {
        return None;
    }
    if w.len() >= 3 {
        Some(w[2].clone())
    } else {
        Some(chars_of("No name"))
    }
}

/// The name by which an engine introduces itself in `output`, if it does.
pub fn engine_name(output: &str) -> (r: Option<String>)
    ensures
        match engine_name_in(output@) {
            Some(name) => r matches Some(s) && s@ == name,
            None => r is None,
        },
{
    let text = chars_of(output);
    let lines = split_lines(&text);
    let ghost all = lines_of(output@);
    let mut best: Option<Vec<char>> = None;
    let mut i: usize = 0;
    proof {
        assert(all.subrange(0, 0) =~= Seq::<Seq<char>>::empty());
    }
    while i < lines.len()
        invariant
            i <= lines@.len(),
            views(lines@) == all,
            match name_among(all.subrange(0, i as int)) {
                Some(name) => best matches Some(v) && v@ == name,
                None => best is None,
            },
        decreases lines@.len() - i,
    {
        proof {
            let next = all.subrange(0, i + 1);
            assert(next.drop_last() =~= all.subrange(0, i as int));
            assert(next.last() == all[i as int]);
            assert(views(lines@)[i as int] == lines@[i as int]@);
        }
        match name_in_line(&lines[i]) {
            Some(v) => {
                best = Some(v);
            },
            None => {},
        }
        i = i + 1;
    }
    proof {
        assert(all.subrange(0, i as int) =~= all);
    }
    match best {
        Some(v) => Some(string_of(&v)),
        None => None,
    }
}

} // verus!

use chess_core::board::Position;
use chess_core::consts::Piece;
use chess_core::fen::{place_men, split_words};
use chess_core::text::{
    chars_of, parse_decimal, push_chars, push_decimal, push_square, push_text, same_text,
    sq_from_chars, string_of,
};
use chess_core::uci::{find_last, split_lines};

fn chars(s: &str) -> Vec<char> {
    s.chars().collect()
}

#[test]
fn characters_of_a_string_and_back() {
    assert_eq!(chars_of("héllo"), vec!['h', 'é', 'l', 'l', 'o']);
    assert_eq!(chars_of(""), Vec::<char>::new());
    assert_eq!(string_of(&vec!['a', 'ß', '1']), "aß1");
    assert_eq!(string_of(&chars_of("k7/8 w - - 0 1")), "k7/8 w - - 0 1");
}

#[test]
fn decimal_numerals() {
    let mut out = Vec::new();
    push_decimal(&mut out, 0);
    out.push(' ');
    push_decimal(&mut out, 7);
    out.push(' ');
    push_decimal(&mut out, 10);
    out.push(' ');
    push_decimal(&mut out, 4294967295);
    out.push(' ');
    push_decimal(&mut out, u64::MAX);
    assert_eq!(string_of(&out), "0 7 10 4294967295 18446744073709551615");
}

#[test]
fn reading_decimal_numerals() {
    assert_eq!(parse_decimal(&chars("0")), Some(0));
    assert_eq!(parse_decimal(&chars("42")), Some(42));
    assert_eq!(parse_decimal(&chars("007")), Some(7));
    assert_eq!(parse_decimal(&chars("4294967295")), Some(u32::MAX));
    assert_eq!(parse_decimal(&chars("4294967296")), None);
    assert_eq!(parse_decimal(&chars("99999999999999999999")), None);
    assert_eq!(parse_decimal(&chars("")), None);
    assert_eq!(parse_decimal(&chars("-1")), None);
    assert_eq!(parse_decimal(&chars("+1")), None);
    assert_eq!(parse_decimal(&chars("1 ")), None);
    assert_eq!(parse_decimal(&chars("1a")), None);
    assert_eq!(parse_decimal(&chars("١")), None);
    for n in [0u32, 1, 9, 10, 99, 100, 12345, u32::MAX - 1, u32::MAX] {
        let mut out = Vec::new();
        push_decimal(&mut out, n as u64);
        assert_eq!(parse_decimal(&out), Some(n));
    }
}

#[test]
fn joining_texts() {
    let mut out = chars("ab");
    push_text(&mut out, "cd");
    push_chars(&mut out, &chars("ef"));
    push_square(&mut out, 0);
    push_square(&mut out, 63);
    assert_eq!(string_of(&out), "abcdefa8h1");
    assert!(same_text(&chars("abc"), &chars("abc")));
    assert!(!same_text(&chars("abc"), &chars("abd")));
    assert!(!same_text(&chars("abc"), &chars("ab")));
    assert!(same_text(&chars(""), &chars("")));
    assert_eq!(sq_from_chars(&chars("c3")), 5 * 8 + 2);
    assert_eq!(sq_from_chars(&chars("c")), 64);
}

#[test]
fn fields_of_a_text() {
    let fields = split_words(&chars("  ab \t c\n\nd e  "));
    let fields: Vec<String> = fields.iter().map(string_of).collect();
    assert_eq!(fields, vec!["ab", "c", "d", "e"]);
    assert_eq!(split_words(&chars("   ")).len(), 0);
    assert_eq!(split_words(&chars("")).len(), 0);
    assert_eq!(split_words(&chars("x")), vec![vec!['x']]);
}

#[test]
fn lines_of_a_text() {
    let lines: Vec<String> = split_lines(&chars("ab\n\ncd\n")).iter().map(string_of).collect();
    assert_eq!(lines, vec!["ab", "", "cd", ""]);
    assert_eq!(split_lines(&chars("")), vec![Vec::<char>::new()]);
    assert_eq!(split_lines(&chars("x")), vec![vec!['x']]);
}

#[test]
fn last_place_of_a_pattern() {
    assert_eq!(find_last(&chars("abcabc"), &chars("bc")), Some(4));
    assert_eq!(find_last(&chars("abcabc"), &chars("ab")), Some(3));
    assert_eq!(find_last(&chars("abcabc"), &chars("abcabc")), Some(0));
    assert_eq!(find_last(&chars("abcabc"), &chars("x")), None);
    assert_eq!(find_last(&chars("ab"), &chars("abc")), None);
    assert_eq!(find_last(&chars("ab"), &chars("")), Some(2));
    assert_eq!(find_last(&chars(""), &chars("")), Some(0));
}

#[test]
fn men_from_characters() {
    let mut pos = Position::new();
    assert!(place_men(&chars("4k3/8/8/8/8/8/8/4K2R"), &mut pos));
    assert_eq!(pos.find_piece(4), Some(Piece::DK));
    assert_eq!(pos.find_piece(60), Some(Piece::LK));
    assert_eq!(pos.find_piece(63), Some(Piece::LR));
    assert_eq!(pos.units[2].count_ones(), 3);
    assert!(!place_men(&chars("4k3/8/8/8/8/8/8/4K2"), &mut pos));
    assert!(!place_men(&chars(""), &mut pos));
}

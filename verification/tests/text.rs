use video_catalog::text::{
    chars_of, digit_test, lex_le_test, occurs_at, parse_numeral, push_int, push_nat, push_str,
    replace_all, same_text, split_words, string_of, trim_end_chars, whitespace_test,
};

fn chars(text: &str) -> Vec<char> {
    text.chars().collect()
}

#[test]
fn chars_and_back() {
    assert_eq!(chars_of("a\u{e9}z"), vec!['a', '\u{e9}', 'z']);
    assert_eq!(string_of(&vec!['a', '\u{e9}', 'z']), "a\u{e9}z");
    assert_eq!(string_of(&Vec::new()), "");
}

#[test]
fn push_str_appends() {
    let mut out = vec!['x'];
    push_str(&mut out, "yz");
    assert_eq!(out, vec!['x', 'y', 'z']);
}

#[test]
fn digits_are_ascii_only() {
    assert!(digit_test('0'));
    assert!(digit_test('9'));
    assert!(!digit_test('/'));
    assert!(!digit_test(':'));
    assert!(!digit_test('\u{0663}'));
}

#[test]
fn parse_numeral_values() {
    assert_eq!(parse_numeral(&chars("0")), Some(0));
    assert_eq!(parse_numeral(&chars("62")), Some(62));
    assert_eq!(parse_numeral(&chars("0042")), Some(42));
    assert_eq!(parse_numeral(&chars("9223372036854775807")), Some(i64::MAX));
}

#[test]
fn parse_numeral_refusals() {
    assert_eq!(parse_numeral(&chars("")), None);
    assert_eq!(parse_numeral(&chars("9223372036854775808")), None);
    assert_eq!(parse_numeral(&chars("92233720368547758070")), None);
    assert_eq!(parse_numeral(&chars("-1")), None);
    assert_eq!(parse_numeral(&chars("+1")), None);
    assert_eq!(parse_numeral(&chars("1 ")), None);
    assert_eq!(parse_numeral(&chars("1a")), None);
    assert_eq!(parse_numeral(&chars("99999999999999999999x")), None);
}

#[test]
fn push_nat_texts() {
    let mut out = Vec::new();
    push_nat(&mut out, 0);
    push_nat(&mut out, 7);
    push_nat(&mut out, 1050);
    assert_eq!(string_of(&out), "071050");
    let mut big = Vec::new();
    push_nat(&mut big, u128::MAX);
    assert_eq!(string_of(&big), "340282366920938463463374607431768211455");
}

#[test]
fn push_int_texts() {
    let mut out = Vec::new();
    push_int(&mut out, -12);
    push_int(&mut out, 34);
    assert_eq!(string_of(&out), "-1234");
    let mut least = Vec::new();
    push_int(&mut least, i128::MIN);
    assert_eq!(string_of(&least), "-170141183460469231731687303715884105728");
}

#[test]
fn rendered_numbers_read_back() {
    for n in [0i64, 1, 9, 10, 99, 100, 12345, i64::MAX] {
        let mut out = Vec::new();
        push_nat(&mut out, n as u128);
        assert_eq!(parse_numeral(&out), Some(n));
    }
}

#[test]
fn whitespace_is_unicode_white_space() {
    for c in ['\t', '\n', '\u{b}', '\u{c}', '\r', ' ', '\u{85}', '\u{a0}', '\u{1680}', '\u{2000}',
        '\u{200a}', '\u{2028}', '\u{2029}', '\u{202f}', '\u{205f}', '\u{3000}']
    {
        assert!(whitespace_test(c));
    }
    for c in ['a', '0', '\u{8}', '\u{e}', '\u{1f}', '\u{200b}', '\u{feff}', '\u{180e}'] {
        assert!(!whitespace_test(c));
    }
}

#[test]
fn whitespace_agrees_with_std_on_every_char() {
    let mut n: u32 = 0;
    while n <= 0x10FFFF {
        if let Some(c) = char::from_u32(n) {
            assert_eq!(whitespace_test(c), c.is_whitespace());
        }
        n += 1;
    }
}

#[test]
fn split_words_cases() {
    assert_eq!(split_words(&chars("")), Vec::<Vec<char>>::new());
    assert_eq!(split_words(&chars("   ")), Vec::<Vec<char>>::new());
    assert_eq!(split_words(&chars("ab")), vec![chars("ab")]);
    assert_eq!(split_words(&chars(" ab  c\td ")), vec![chars("ab"), chars("c"), chars("d")]);
}

#[test]
fn split_words_agrees_with_std() {
    for text in ["62m 3s", " a\u{a0}b\u{2003}c ", "x", "\n\n", "one two  three\r\nfour"] {
        let expected: Vec<Vec<char>> = text.split_whitespace().map(chars).collect();
        assert_eq!(split_words(&chars(text)), expected);
    }
}

#[test]
fn trim_end_chars_cases() {
    assert_eq!(trim_end_chars(&chars("12mmm"), 'm'), chars("12"));
    assert_eq!(trim_end_chars(&chars("m1m"), 'm'), chars("m1"));
    assert_eq!(trim_end_chars(&chars("mmm"), 'm'), chars(""));
    assert_eq!(trim_end_chars(&chars("12s"), 'm'), chars("12s"));
    assert_eq!(trim_end_chars(&chars(""), 'm'), chars(""));
}

#[test]
fn same_text_cases() {
    assert!(same_text("title", "title"));
    assert!(same_text("", ""));
    assert!(!same_text("title", "titles"));
    assert!(!same_text("title", "Title"));
    assert!(!same_text("abc", "abd"));
}

#[test]
fn dictionary_order_cases() {
    assert!(lex_le_test("", ""));
    assert!(lex_le_test("", "a"));
    assert!(!lex_le_test("a", ""));
    assert!(lex_le_test("a", "a"));
    assert!(lex_le_test("a", "ab"));
    assert!(!lex_le_test("ab", "a"));
    assert!(lex_le_test("Zebra", "apple"));
    assert!(!lex_le_test("apple", "Zebra"));
    assert!(lex_le_test("z", "\u{e9}"));
}

#[test]
fn dictionary_order_agrees_with_std() {
    let texts = ["", "a", "ab", "b", "B", "\u{e9}", "\u{1f600}", "\u{ffff}", "a\u{0}", "zz"];
    for a in texts {
        for b in texts {
            assert_eq!(lex_le_test(a, b), a <= b);
        }
    }
}

#[test]
fn occurs_at_cases() {
    let text = chars("abcabc");
    assert!(occurs_at(&text, 0, &chars("abc")));
    assert!(!occurs_at(&text, 1, &chars("abc")));
    assert!(occurs_at(&text, 3, &chars("abc")));
    assert!(!occurs_at(&text, 4, &chars("abc")));
    assert!(occurs_at(&text, 6, &chars("")));
    assert!(!occurs_at(&text, 6, &chars("a")));
}

#[test]
fn replace_all_cases() {
    assert_eq!(replace_all("aXbXc", "X", "--"), "a--b--c");
    assert_eq!(replace_all("aaa", "aa", "b"), "ba");
    assert_eq!(replace_all("abc", "abc", ""), "");
    assert_eq!(replace_all("abc", "d", "x"), "abc");
    assert_eq!(replace_all("", "d", "x"), "");
    assert_eq!(replace_all("abc", "", "x"), "abc");
    assert_eq!(replace_all("ababab", "ab", "ab"), "ababab");
}

#[test]
fn replace_all_agrees_with_std() {
    for (text, pattern, with) in
        [("aaaa", "aa", "a"), ("xyxyx", "xyx", "_"), ("h\u{e9}llo", "\u{e9}", "e"), ("abc", "bc", "bcbc")]
    {
        assert_eq!(replace_all(text, pattern, with), text.replace(pattern, with));
    }
}

use mihttp::chars::{digit, space, word_char, CharClass};
use mihttp::scan::{after_literal, scan, string_of, to_chars};

#[test]
fn space_is_one_of_four_characters() {
    for c in [' ', '\t', '\r', '\n'] {
        assert!(space(c));
        assert!(CharClass::Space.contains(c));
    }
    for c in ['\u{b}', '\u{c}', '\u{a0}', '\u{2003}', 'a', '0', ';', '\0'] {
        assert!(!space(c));
        assert!(!CharClass::Space.contains(c));
    }
}

#[test]
fn space_agrees_with_multispace0() {
    for code in 0u32..0x3000 {
        let c = char::from_u32(code).unwrap();
        let input = c.to_string();
        let taken: nom::IResult<&str, &str> = nom::character::complete::multispace0(input.as_str());
        assert_eq!(space(c), taken.unwrap().1.len() == input.len(), "{:?}", c);
    }
}

#[test]
fn word_characters_are_letters_digits_dot_and_colon() {
    for code in 0u32..=0x10ffff {
        if let Some(c) = char::from_u32(code) {
            assert_eq!(word_char(c), c.is_alphanumeric() || c == '.' || c == ':', "{:?}", c);
            assert_eq!(CharClass::Word.contains(c), word_char(c));
        }
    }
}

#[test]
fn word_characters_within_ascii() {
    let expected = "0123456789ABCDEFGHIJKLMNOPQRSTUVWXYZabcdefghijklmnopqrstuvwxyz.:";
    for code in 0u32..128 {
        let c = char::from_u32(code).unwrap();
        assert_eq!(word_char(c), expected.contains(c), "{:?}", c);
    }
}

#[test]
fn word_characters_beyond_ascii_follow_unicode() {
    for c in ['\u{e9}', '\u{4f8b}', '\u{661}', '\u{2160}', '\u{bd}'] {
        assert!(word_char(c), "{:?}", c);
    }
    for c in ['\u{2014}', '\u{a0}', '\u{1f600}', '\u{ff1a}', '\u{3002}'] {
        assert!(!word_char(c), "{:?}", c);
    }
}

#[test]
fn digits_are_the_ten_ascii_digits() {
    for code in 0u32..=0x10ffff {
        if let Some(c) = char::from_u32(code) {
            assert_eq!(digit(c), c.is_ascii_digit(), "{:?}", c);
        }
    }
}

#[test]
fn scan_runs_to_the_end_of_the_run() {
    let text: Vec<char> = "  \t\nabc.d:9 ;".chars().collect();
    assert_eq!(scan(&text, 0, CharClass::Space), 4);
    assert_eq!(scan(&text, 2, CharClass::Space), 4);
    assert_eq!(scan(&text, 4, CharClass::Space), 4);
    assert_eq!(scan(&text, 4, CharClass::Word), 11);
    assert_eq!(scan(&text, 0, CharClass::Word), 0);
    assert_eq!(scan(&text, 11, CharClass::Space), 12);
    assert_eq!(scan(&text, 13, CharClass::Space), 13);
    assert_eq!(scan(&text, 13, CharClass::Word), 13);
    assert_eq!(scan(&text, 40, CharClass::Word), 40);
    assert_eq!(scan(&[' ', ' '], 0, CharClass::Space), 2);
}

#[test]
fn after_literal_finds_whole_literals_only() {
    let text: Vec<char> = "a server {".chars().collect();
    assert_eq!(after_literal(&text, 2, "server"), Some(8));
    assert_eq!(after_literal(&text, 2, "serve"), Some(7));
    assert_eq!(after_literal(&text, 2, "servername"), None);
    assert_eq!(after_literal(&text, 1, "server"), None);
    assert_eq!(after_literal(&text, 9, "{"), Some(10));
    assert_eq!(after_literal(&text, 9, "{ "), None);
    assert_eq!(after_literal(&text, 10, "{"), None);
    assert_eq!(after_literal(&text, 10, ""), Some(10));
    assert_eq!(after_literal(&text, 11, ""), None);
    assert_eq!(after_literal(&text, usize::MAX, "x"), None);
}

#[test]
fn to_chars_gives_each_character() {
    assert_eq!(to_chars(""), Vec::<char>::new());
    assert_eq!(to_chars("a\u{e9}\u{4f8b}\u{1f600};"), vec!['a', '\u{e9}', '\u{4f8b}', '\u{1f600}', ';']);
}

#[test]
fn string_of_joins_the_characters() {
    let text: Vec<char> = "a\u{e9}\u{4f8b}b;".chars().collect();
    assert_eq!(string_of(&text), "a\u{e9}\u{4f8b}b;");
    assert_eq!(string_of(&text[1..3]), "\u{e9}\u{4f8b}");
    assert_eq!(string_of(&text[2..2]), "");
    assert_eq!(string_of(&[]), "");
}

#[test]
fn string_of_undoes_to_chars() {
    for text in ["", "example.com", "127.0.0.1:9000", "\u{1f600} \u{e9}\n"] {
        assert_eq!(string_of(&to_chars(text)), text);
    }
}

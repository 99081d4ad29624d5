use git_gamification::counter::add_capped;
use git_gamification::number::read_number;
use git_gamification::text::{
    chars_of, contains, is_whitespace, line_spans, past_spaces, past_word, string_of, trim, Span,
};

fn lines(text: &str) -> Vec<String> {
    let chars = chars_of(text);
    line_spans(&chars).iter().map(|span| string_of(&chars, span.start, span.end)).collect()
}

fn number(word: &str) -> Option<u32> {
    read_number(&chars_of(word))
}

fn holds(hay: &str, needle: &str) -> bool {
    contains(&chars_of(hay), &chars_of(needle))
}

#[test]
fn chars_and_back() {
    let chars = chars_of("añb");
    assert_eq!(chars, vec!['a', 'ñ', 'b']);
    assert_eq!(string_of(&chars, 0, 3), "añb");
    assert_eq!(string_of(&chars, 1, 2), "ñ");
    assert_eq!(string_of(&chars, 2, 2), "");
}

#[test]
fn capped_addition() {
    assert_eq!(add_capped(2, 3), 5);
    assert_eq!(add_capped(u64::MAX, 0), u64::MAX);
    assert_eq!(add_capped(u64::MAX - 1, 1), u64::MAX);
    assert_eq!(add_capped(u64::MAX - 1, 2), u64::MAX);
    assert_eq!(add_capped(u64::MAX, u64::MAX), u64::MAX);
}

#[test]
fn whitespace_characters() {
    for c in [' ', '\t', '\n', '\r', '\u{0B}', '\u{0C}', '\u{85}', '\u{A0}', '\u{1680}',
        '\u{2000}', '\u{200A}', '\u{2028}', '\u{2029}', '\u{202F}', '\u{205F}', '\u{3000}']
    {
        assert!(is_whitespace(c));
    }
    for c in ['a', '0', '-', '\u{08}', '\u{0E}', '\u{200B}', '\u{FEFF}', '\u{1F}'] {
        assert!(!is_whitespace(c));
    }
}

#[test]
fn whitespace_agrees_with_std_on_every_character() {
    for n in 0..=0x10FFFFu32 {
        if let Some(c) = char::from_u32(n) {
            assert_eq!(is_whitespace(c), c.is_whitespace());
        }
    }
}

#[test]
fn scanning_spaces_and_words() {
    let chars = chars_of("  ab \t cd");
    assert_eq!(past_spaces(&chars, 0), 2);
    assert_eq!(past_word(&chars, 2), 4);
    assert_eq!(past_spaces(&chars, 4), 7);
    assert_eq!(past_word(&chars, 7), 9);
    assert_eq!(past_spaces(&chars, 9), 9);
    assert_eq!(past_word(&chars, 9), 9);
    assert_eq!(past_word(&chars, 0), 0);
}

#[test]
fn trimming() {
    assert_eq!(trim("  alice \n"), "alice");
    assert_eq!(trim("alice"), "alice");
    assert_eq!(trim("a b"), "a b");
    assert_eq!(trim(" \t\n"), "");
    assert_eq!(trim(""), "");
    assert_eq!(trim("\u{3000}x\u{A0}"), "x");
}

#[test]
fn lines_of_a_text() {
    assert_eq!(lines(""), Vec::<String>::new());
    assert_eq!(lines("a"), vec!["a"]);
    assert_eq!(lines("a\n"), vec!["a"]);
    assert_eq!(lines("a\nb"), vec!["a", "b"]);
    assert_eq!(lines("a\n\nb\n"), vec!["a", "", "b"]);
    assert_eq!(lines("\n"), vec![""]);
    assert_eq!(lines("\n\n"), vec!["", ""]);
}

#[test]
fn lines_with_carriage_returns() {
    assert_eq!(lines("a\r\nb\r\n"), vec!["a", "b"]);
    assert_eq!(lines("a\rb\n"), vec!["a\rb"]);
    assert_eq!(lines("a\r"), vec!["a\r"]);
    assert_eq!(lines("\r\n"), vec![""]);
    assert_eq!(lines("a\r\r\n"), vec!["a\r"]);
}

#[test]
fn lines_agree_with_std() {
    for text in ["", "x", "x\n", "x\ny", "x\r\ny\r\n", "\n\nx", "x\r", "\r", "\r\n\r\n", "a\n\r\nb"] {
        let expected: Vec<String> = text.lines().map(|line| line.to_string()).collect();
        assert_eq!(lines(text), expected);
    }
}

#[test]
fn line_spans_are_positions() {
    let chars = chars_of("ab\r\n\ncd");
    assert_eq!(
        line_spans(&chars),
        vec![Span { start: 0, end: 2 }, Span { start: 4, end: 4 }, Span { start: 5, end: 7 }]
    );
}

#[test]
fn numbers_of_words() {
    assert_eq!(number("0"), Some(0));
    assert_eq!(number("42"), Some(42));
    assert_eq!(number("007"), Some(7));
    assert_eq!(number("+5"), Some(5));
    assert_eq!(number("+0"), Some(0));
    assert_eq!(number("4294967295"), Some(4294967295));
    assert_eq!(number("00000000000000000000000000012"), Some(12));
}

#[test]
fn words_that_write_no_number() {
    for word in [
        "", "-", "+", "-5", "-0", "++5", "5+", "1_000", "12a", "a12", "1.5", "٣", "４", " 1",
        "4294967296", "99999999999999999999999999",
    ] {
        assert_eq!(number(word), None, "{:?}", word);
    }
}

#[test]
fn numbers_agree_with_std() {
    for word in ["", "+", "-", "+0", "-0", "12", "+12", "4294967295", "4294967296", "x", "1x", "０"] {
        assert_eq!(number(word), word.parse::<u32>().ok());
    }
}

#[test]
fn finding_a_text_in_another() {
    assert!(holds("fix login bug", "fix"));
    assert!(holds("fix login bug", "bug"));
    assert!(holds("fix login bug", "x l"));
    assert!(holds("fix login bug", ""));
    assert!(holds("", ""));
    assert!(holds("abc", "abc"));
    assert!(!holds("fix login bug", "add"));
    assert!(!holds("ab", "abc"));
    assert!(!holds("", "a"));
    assert!(!holds("aab", "aba"));
    assert!(holds("aaab", "aab"));
}

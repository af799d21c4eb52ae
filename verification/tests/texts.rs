use hop::render::{
    count_text, decimal_text, glue, join, parse_count, push_left, push_number_right, push_right,
    stack,
};
use hop::text::{
    begins_with, blank, finishes_with, has_char, has_text, is_whitespace, list_contains, same_text,
    split_lines, split_words, trimmed,
};

fn strings(list: &[&str]) -> Vec<String> {
    list.iter().map(|s| s.to_string()).collect()
}

const TEXTS: [&str; 12] = [
    "",
    " ",
    "a",
    " a b ",
    "a\tb\nc",
    "\u{a0}x\u{3000}",
    "a\r\nb\r\n",
    "\n",
    "a\n\nb",
    "a\rb",
    "x\r",
    "é ü\u{2028}ß",
];

#[test]
fn white_space_is_that_of_unicode() {
    for c in '\0'..=char::MAX {
        assert_eq!(is_whitespace(c), c.is_whitespace(), "{:?}", c);
    }
}

#[test]
fn texts_are_trimmed_and_split_as_by_std() {
    for s in TEXTS {
        assert_eq!(trimmed(s), s.trim(), "{:?}", s);
        assert_eq!(blank(s), s.trim().is_empty(), "{:?}", s);
        let words: Vec<String> = s.split_whitespace().map(|w| w.to_string()).collect();
        assert_eq!(split_words(s), words, "{:?}", s);
        let lines: Vec<String> = s.lines().map(|l| l.to_string()).collect();
        assert_eq!(split_lines(s), lines, "{:?}", s);
    }
}

#[test]
fn texts_are_searched_as_by_std() {
    for s in TEXTS {
        for p in ["", "a", "b", " ", "a b", "\n", "é", "xyz"] {
            assert_eq!(has_text(s, p), s.contains(p), "{:?} {:?}", s, p);
            assert_eq!(begins_with(s, p), s.starts_with(p), "{:?} {:?}", s, p);
            assert_eq!(finishes_with(s, p), s.ends_with(p), "{:?} {:?}", s, p);
            assert_eq!(same_text(s, p), s == p);
        }
        assert_eq!(has_char(s, 'a'), s.contains('a'));
    }
    assert!(list_contains(&strings(&["x", "y"]), "y"));
    assert!(!list_contains(&strings(&["x", "y"]), "z"));
}

#[test]
fn numbers_are_written_as_by_std() {
    for n in [0, 7, 10, -1, 12345, i64::MAX, i64::MIN] {
        assert_eq!(decimal_text(n), n.to_string());
        for width in [0, 3, 8] {
            let mut out = String::from("x");
            push_number_right(&mut out, n, width);
            assert_eq!(out, format!("x{:>1$}", n, width));
        }
    }
    assert_eq!(count_text(usize::MAX), usize::MAX.to_string());
}

#[test]
fn columns_are_set_as_by_std() {
    for s in ["", "ab", "éü", "abcdef"] {
        let mut right = String::new();
        push_right(&mut right, s, 4);
        assert_eq!(right, format!("{:>4}", s));
        let mut left = String::new();
        push_left(&mut left, s, 4);
        assert_eq!(left, format!("{:4}", s));
    }
}

#[test]
fn counts_are_read_as_by_std() {
    for s in [
        "", "0", "7", "+7", "-7", "007", "+", "1a", " 1", "18446744073709551615",
        "18446744073709551616", "99999999999999999999999", "٣",
    ] {
        assert_eq!(parse_count(s), s.parse::<usize>().ok(), "{:?}", s);
    }
}

#[test]
fn lists_are_joined() {
    assert_eq!(join(&strings(&["a", "", "b"]), ", "), "a, , b");
    assert_eq!(join(&strings(&[]), ", "), "");
    assert_eq!(stack(&strings(&["a", "", "b"])), "a\n\nb\n");
    assert_eq!(stack(&strings(&[])), "");
    assert_eq!(glue("a", "b"), "ab");
}

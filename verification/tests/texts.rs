use tide::text::{
    byte_len, cat, cat3, chars_of, contains, decimal, ends_with, find_from, has_char, join, lines,
    parse_number, parse_usize, same, space, split, split_once, starts_with, string_of,
    strip_prefix, strip_suffix, trim, trim_end, trim_end_char, trim_start, words,
};

#[test]
fn trimming_takes_every_white_space() {
    assert_eq!(trim("  a b\t\n"), "a b");
    assert_eq!(trim_start("\u{a0}x "), "x ");
    assert_eq!(trim_end(" x\u{3000}"), " x");
    assert_eq!(trim(" \n "), "");
    for c in ['\u{85}', '\u{1680}', '\u{2028}', '\u{205f}', ' ', '\u{b}'] {
        assert!(space(c) && c.is_whitespace());
    }
    assert!(!space('\u{200b}'));
}

#[test]
fn trimming_agrees_with_std() {
    for c in (0u32..0x3100).filter_map(char::from_u32) {
        assert_eq!(space(c), c.is_whitespace(), "{:?}", c);
    }
}

#[test]
fn trimming_twice_is_trimming_once() {
    for s in ["", "  ", " a ", "\u{a0}é\t"] {
        assert_eq!(trim(&trim(s)), trim(s));
    }
}

#[test]
fn one_character_is_trimmed_from_the_end() {
    assert_eq!(trim_end_char("src//", '/'), "src");
    assert_eq!(trim_end_char("/src", '/'), "/src");
    assert_eq!(trim_end_char("//", '/'), "");
}

#[test]
fn lengths_count_bytes() {
    assert_eq!(byte_len("aé\u{1f512}"), 7);
    assert_eq!(chars_of("aé").len(), 2);
    let v = chars_of("héllo");
    assert_eq!(string_of(&v, 1, 3), "él");
    assert_eq!(string_of(&v, 0, 5), "héllo");
}

#[test]
fn prefixes_and_suffixes() {
    assert!(same("é", "é") && !same("e", "é"));
    assert!(starts_with("abc", "") && starts_with("abc", "ab") && !starts_with("a", "ab"));
    assert!(ends_with("abc", "bc") && !ends_with("c", "bc"));
    assert_eq!(strip_prefix("refs/x", "refs/"), Some("x".to_string()));
    assert_eq!(strip_prefix("x", "refs/"), None);
    assert_eq!(strip_suffix("repo.git", ".git"), Some("repo".to_string()));
    assert_eq!(strip_suffix("repo", ".git"), None);
    assert!(contains("abcabd", "abd") && !contains("abcab", "abd") && contains("", ""));
    assert!(has_char("a:b", ':') && !has_char("ab", ':'));
    assert_eq!(find_from(&chars_of("abcabc"), &chars_of("bc"), 2), Some(4));
    assert_eq!(find_from(&chars_of("abc"), &chars_of("x"), 0), None);
}

#[test]
fn splitting_and_joining() {
    assert_eq!(split("a::b:", ':'), vec!["a", "", "b", ""]);
    assert_eq!(split("", ':'), vec![""]);
    assert_eq!(split_once("k=v=w", '='), Some(("k".to_string(), "v=w".to_string())));
    assert_eq!(split_once("kv", '='), None);
    let v = split("a/b//c", '/');
    assert_eq!(join(&v, "/"), "a/b//c");
    assert_eq!(join(&Vec::new(), ", "), "");
    assert_eq!(cat("a", "b"), "ab");
    assert_eq!(cat3("a", "-", "b"), "a-b");
}

#[test]
fn lines_are_those_of_std() {
    for s in ["", "\n", "a", "a\n", "a\r\nb\r", "a\n\nb", "\r\n", "a\n\r", "x\ny\r\n\r\n"] {
        let want: Vec<String> = s.lines().map(|l| l.to_string()).collect();
        assert_eq!(lines(s), want, "{:?}", s);
    }
}

#[test]
fn words_are_those_of_std() {
    for s in ["", "  ", "a  b\tc ", "\u{a0}é x"] {
        let want: Vec<String> = s.split_whitespace().map(|l| l.to_string()).collect();
        assert_eq!(words(s), want, "{:?}", s);
    }
}

#[test]
fn numbers_are_read_as_std_reads_them() {
    for s in ["0", "42", "+7", "-1", "", "+", " 3", "007", "18446744073709551615", "18446744073709551616", "1x"] {
        assert_eq!(parse_number(s, u64::MAX), s.parse::<u64>().ok(), "{:?}", s);
        assert_eq!(parse_usize(s), s.parse::<usize>().ok(), "{:?}", s);
    }
    assert_eq!(parse_number("256", 255), None);
    assert_eq!(parse_number("255", 255), Some(255));
}

#[test]
fn numbers_are_written_as_std_writes_them() {
    for n in [0u64, 9, 10, 1024, u64::MAX] {
        assert_eq!(decimal(n), n.to_string());
        assert_eq!(parse_number(&decimal(n), u64::MAX), Some(n));
    }
}

use dtbh::text::{
    chars_of, contains, decimal_string, lines, parse_usize, split_chars, starts_with, to_ascii_lowercase,
    to_ascii_uppercase, trim, trim_chars, trim_start_matching, TrimSet,
};

fn s(cs: &[char]) -> String {
    cs.iter().collect()
}

#[test]
fn trim_removes_unicode_whitespace_at_both_ends() {
    assert_eq!(trim("  github.com\t\r\n"), "github.com");
    assert_eq!(trim("\u{3000}a b\u{a0}"), "a b");
    assert_eq!(trim("   "), "");
    assert_eq!(trim(""), "");
}

#[test]
fn trim_path_strips_spaces_and_slashes() {
    let cs = chars_of(" //scan/ ");
    assert_eq!(s(&trim_chars(&cs, TrimSet::SpaceOrSlash)), "scan");
    let cs = chars_of("/a/b/");
    assert_eq!(s(&trim_chars(&cs, TrimSet::SpaceOrSlash)), "a/b");
}

#[test]
fn split_keeps_empty_pieces() {
    let pieces = split_chars(&chars_of("a\n\nb\n"), '\n');
    let pieces: Vec<String> = pieces.iter().map(|p| s(p)).collect();
    assert_eq!(pieces, vec!["a", "", "b", ""]);
    let pieces = split_chars(&chars_of(""), '\n');
    assert_eq!(pieces.len(), 1);
    assert!(pieces[0].is_empty());
}

#[test]
fn lines_match_std_lines() {
    for text in ["a\nb", "a\r\nb\r\n", "", "\n", "x\n\ny", "tail\r", "a\n\r\n"] {
        let expected: Vec<String> = text.lines().map(|l| l.to_string()).collect();
        assert_eq!(lines(text), expected, "input {:?}", text);
    }
}

#[test]
fn substring_and_prefix() {
    let hay = chars_of("my jwt=abc");
    assert!(contains(&hay, &chars_of("jwt=")));
    assert!(!contains(&hay, &chars_of("JWT=")));
    assert!(contains(&hay, &chars_of("")));
    assert!(starts_with(&hay, &chars_of("my ")));
    assert!(!starts_with(&hay, &chars_of("jwt")));
}

#[test]
fn trim_start_matching_removes_repeated_prefixes() {
    let out = trim_start_matching(&chars_of("jwt=jwt=abc"), &chars_of("jwt="));
    assert_eq!(s(&out), "abc");
    let out = trim_start_matching(&chars_of("abcjwt="), &chars_of("jwt="));
    assert_eq!(s(&out), "abcjwt=");
}

#[test]
fn ascii_case_mapping() {
    assert_eq!(s(&to_ascii_uppercase(&chars_of("post/é"))), "POST/é");
    assert_eq!(s(&to_ascii_lowercase(&chars_of("SQL Syntax É"))), "sql syntax É");
}

#[test]
fn decimal_rendering() {
    assert_eq!(decimal_string(0), "0");
    assert_eq!(decimal_string(8000), "8000");
    assert_eq!(decimal_string(u64::MAX), u64::MAX.to_string());
}

#[test]
fn parse_usize_matches_std() {
    for text in ["1", "+7", "0042", "", "+", "-1", "12a", " 3", "18446744073709551615", "18446744073709551616"] {
        assert_eq!(parse_usize(text), text.parse::<usize>().ok(), "input {:?}", text);
    }
}

#[test]
fn parse_decimal_roundtrip_on_values() {
    for n in [0usize, 1, 9, 10, 99, 100, 65535, 100_000] {
        assert_eq!(parse_usize(&decimal_string(n as u64)), Some(n));
    }
}

#[test]
fn trim_start_matching_with_an_empty_pattern_keeps_the_text() {
    let cs = chars_of("abc");
    assert_eq!(s(&trim_start_matching(&cs, &[])), "abc");
    assert_eq!("abc".trim_start_matches(""), "abc");
}

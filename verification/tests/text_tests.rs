use repo_sync::text::{
    decimal_text, less_text, pad2_text, parse_u32_text, reverse_texts, sort_texts, split_lines,
    split_once_text, strip_suffix_text, trim_text,
};

#[test]
fn trimming_matches_str_trim() {
    for s in ["", "  ", " a b ", "\u{3000}x\u{a0}", "\r\nline\n", "abc"] {
        assert_eq!(trim_text(s), s.trim());
    }
}

#[test]
fn lines_match_str_lines() {
    for s in ["", "\n", "a", "a\n", "a\n\n", "foo\r\nbar\n\nbaz\r", "x\r\ny"] {
        let expected: Vec<String> = s.lines().map(|l| l.to_string()).collect();
        assert_eq!(split_lines(s), expected);
    }
}

#[test]
fn numbers_parse_and_render() {
    let s = "+12";
    assert_eq!(parse_u32_text(s, 0, 3), Some(12));
    assert_eq!(parse_u32_text("007", 0, 3), Some(7));
    assert_eq!(parse_u32_text("1x", 0, 2), None);
    assert_eq!(parse_u32_text("+", 0, 1), None);
    assert_eq!(decimal_text(0), "0");
    assert_eq!(decimal_text(4294967295), "4294967295");
    assert_eq!(pad2_text(7), "07");
    assert_eq!(pad2_text(42), "42");
}

#[test]
fn ordering_and_sorting_match_string_ord() {
    assert!(less_text("a", "b"));
    assert!(less_text("ab", "abc"));
    assert!(!less_text("b", "ab"));
    assert!(less_text("Z", "a"));
    let v: Vec<String> = ["b", "a", "c", "a", "é", "z"].iter().map(|s| s.to_string()).collect();
    let mut expected = v.clone();
    expected.sort();
    assert_eq!(sort_texts(v.clone()), expected);
    expected.reverse();
    assert_eq!(reverse_texts(sort_texts(v)), expected);
}

#[test]
fn splitting_and_suffixes() {
    assert_eq!(split_once_text("a|b|c", '|'), ("a".to_string(), "b|c".to_string()));
    assert_eq!(split_once_text("abc", '|'), ("abc".to_string(), "".to_string()));
    assert_eq!(strip_suffix_text("2024-01-02.json", ".json"), Some("2024-01-02".to_string()));
    assert_eq!(strip_suffix_text("notes.txt", ".json"), None);
}

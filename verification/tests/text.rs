use untrickystore::text::{
    chars_of, join_strings, lines_of, replace_first_str, str_contains, str_starts_with, trim_str,
    words_of,
};

#[test]
fn lines_follow_str_lines() {
    for s in ["", "a", "a\n", "a\r\nb\n", "a\n\nb", "a\r", "\n", "\r\n", "x\r\r\ny"] {
        let expected: Vec<String> = s.lines().map(String::from).collect();
        assert_eq!(lines_of(s), expected, "input {:?}", s);
    }
}

#[test]
fn words_follow_split_whitespace() {
    for s in ["", "  ", "a b", " a\tb\n c ", "x\u{3000}y\u{a0}z"] {
        let expected: Vec<String> = s.split_whitespace().map(String::from).collect();
        assert_eq!(words_of(s), expected, "input {:?}", s);
    }
}

#[test]
fn trim_follows_str_trim() {
    for s in ["", "  a  ", "\t\r\n a b \u{2003}", "\u{85}x\u{2029}", "x"] {
        assert_eq!(trim_str(s), s.trim());
    }
}

#[test]
fn replace_first_only() {
    assert_eq!(replace_first_str("Multi: %s and %s", "%s", "A"), "Multi: A and %s");
    assert_eq!(replace_first_str("none", "%s", "A"), "none");
    assert_eq!(replace_first_str("%s", "%s", ""), "");
}

#[test]
fn search_helpers() {
    assert!(str_contains("hello zh_CN", "zh"));
    assert!(!str_contains("en-US", "zh"));
    assert!(str_contains("x", ""));
    assert!(str_starts_with("description=abc", "description="));
    assert!(!str_starts_with("descr", "description="));
    assert_eq!(chars_of("añb"), vec!['a', 'ñ', 'b']);
    assert_eq!(join_strings(&vec!["a".to_string(), "b".to_string()], ','), "a,b");
    assert_eq!(join_strings(&vec![], ','), "");
}

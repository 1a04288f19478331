use sound_link::text::{chars_of, contains_chars, is_whitespace, remove_pattern, split_lines, str_eq};

#[test]
fn whitespace_follows_the_unicode_property() {
    for c in ['\t', '\n', '\r', ' ', '\u{85}', '\u{a0}', '\u{2003}', '\u{3000}', 'a', '_', '\u{200b}'] {
        assert_eq!(is_whitespace(c), c.is_whitespace(), "{:?}", c);
    }
}

#[test]
fn lines_split_at_line_feeds() {
    assert_eq!(split_lines("a\nb\n"), vec!["a", "b"]);
    assert_eq!(split_lines("a\n\nb"), vec!["a", "", "b"]);
    assert_eq!(split_lines(""), Vec::<String>::new());
    assert_eq!(split_lines("\n"), vec![""]);
    assert_eq!(split_lines("x\r\ny"), vec!["x\r", "y"]);
}

#[test]
fn pattern_removal_matches_replace() {
    for (s, p) in [("aXXbXXXc", "XX"), ("扬声器扬声器", "扬声器"), ("abc", ""), ("", "x")] {
        assert_eq!(remove_pattern(s, &chars_of(p)), s.replace(p, ""));
    }
}

#[test]
fn substring_search_and_equality() {
    assert!(contains_chars(&chars_of("hello world"), &chars_of("o w")));
    assert!(!contains_chars(&chars_of("hello"), &chars_of("hello!")));
    assert!(contains_chars(&chars_of(""), &chars_of("")));
    assert!(str_eq("耳机", "耳机"));
    assert!(!str_eq("a", "ab"));
}

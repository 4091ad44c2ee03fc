use meetclaw::text;

#[test]
fn white_space_is_what_char_says() {
    for u in 0..=0x10ffffu32 {
        if let Some(c) = char::from_u32(u) {
            assert_eq!(text::is_whitespace(c), c.is_whitespace(), "{u:x}");
        }
    }
}

#[test]
fn trimming_agrees_with_str() {
    for s in ["", " ", "a", "  a b \n", "\u{a0}x\u{3000}", "\t\r\n", "é ", " 漢字 ", "a\u{85}"] {
        assert_eq!(text::trim(s), s.trim());
        assert_eq!(text::trim_end(s), s.trim_end());
        assert_eq!(text::blank(s), s.trim().is_empty());
        assert_eq!(text::trim_char(s, 'a'), s.trim_matches('a'));
    }
    assert_eq!(text::trim_char("\"\"q\"\"", '"'), "q");
}

#[test]
fn splitting_and_joining_agree_with_str() {
    for s in ["", " ", "gh", " gh  run\tlist ", "a\u{2003}b\nc"] {
        let words: Vec<&str> = s.split_whitespace().collect();
        assert_eq!(text::split_words(s), words);
    }
    let parts = vec!["a".to_string(), "".to_string(), "b".to_string()];
    assert_eq!(text::join(&parts, ", "), parts.join(", "));
    assert_eq!(text::join(&Vec::new(), ", "), "");
}

#[test]
fn lines_prefixes_and_parts_agree_with_str() {
    for s in ["", "a", "a\nb", "a\r\nb", "\nb", "a\r", "a\rb\n"] {
        assert_eq!(text::first_line(s), s.lines().next().unwrap_or(s), "{s:?}");
    }
    assert_eq!(text::strip_prefix("run_command:gh", "run_command:"), Some("gh".to_string()));
    assert_eq!(text::strip_prefix("run_command", "run_command:"), None);
    assert!(text::contains("abcabd", "abd"));
    assert!(text::contains("abc", ""));
    assert!(!text::contains("abc", "abcd"));
    assert!(!text::contains("ababac", "abc"));
    assert!(text::same("ä", "ä"));
    assert!(!text::same("ä", "a"));
}

#[test]
fn characters_are_counted_not_bytes() {
    assert_eq!(text::take_chars("äöü", 2), "äö");
    assert_eq!(text::take_chars("äöü", 9), "äöü");
    assert_eq!(text::keep_last_chars("äöü", 2), "öü");
    assert_eq!(text::keep_last_chars("äöü", 0), "");
    assert_eq!(text::byte_count("aä漢😀"), "aä漢😀".len() as u128);
    assert_eq!(text::byte_count(""), 0);
}

#[test]
fn numbers_are_written_in_decimal() {
    for n in [0u128, 7, 10, 1700000000000, u128::MAX] {
        assert_eq!(text::decimal_of(n), n.to_string());
    }
    for n in [0i32, -1, 127, i32::MIN, i32::MAX] {
        assert_eq!(text::decimal_of_signed(n), n.to_string());
    }
}

#[test]
fn text_is_cut_on_a_character_boundary() {
    assert_eq!(text::truncate("hello", 5), "hello");
    assert_eq!(text::truncate("hello!", 5), "hello\n… (truncated)");
    assert_eq!(text::truncate("aäö", 2), "a\n… (truncated)");
    assert_eq!(text::truncate("aäö", 3), "aä\n… (truncated)");
    assert_eq!(text::truncate("ä", 0), "\n… (truncated)");
    assert_eq!(text::truncate("", 0), "");
}

#[test]
fn blank_text_counts_as_none() {
    assert_eq!(text::unless_blank(Some(" \n".to_string())), None);
    assert_eq!(text::unless_blank(Some(" k ".to_string())), Some(" k ".to_string()));
    assert_eq!(text::unless_blank(None), None);
}

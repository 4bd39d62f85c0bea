use ssm_moe::text::{
    char_is_whitespace, str_contains, str_count_char, str_eq, str_lowered, str_nonblank_lines,
    str_starts_with, str_strip_prefix, str_strip_suffix, str_trim, str_trim_end_char,
    str_trim_start_char, to_decimal, to_lower_hex,
};

#[test]
fn whitespace_is_that_of_unicode() {
    for u in 0u32..=0x10FFFF {
        if let Some(c) = char::from_u32(u) {
            assert_eq!(char_is_whitespace(c), c.is_whitespace(), "{u:x}");
        }
    }
}

#[test]
fn trimming_agrees_with_std() {
    for s in ["", " ", "a", "  a b\t\n", "\u{a0}\u{e9} \u{2009}", "\u{200b}x"] {
        assert_eq!(str_trim(s), s.trim());
        assert_eq!(str_trim_end_char(s, 'b'), s.trim_end_matches('b'));
        assert_eq!(str_trim_start_char(s, ' '), s.trim_start_matches(' '));
    }
}

#[test]
fn affixes_agree_with_std() {
    for s in ["", "and", "band", "bandand", "\u{e9}and", "an"] {
        assert_eq!(str_strip_suffix(s, "and"), s.strip_suffix("and"));
        assert_eq!(str_strip_prefix(s, "b"), s.strip_prefix("b"));
        assert_eq!(str_starts_with(s, "band"), s.starts_with("band"));
        assert_eq!(str_contains(s, "an"), s.contains("an"));
        assert_eq!(str_contains(s, ""), s.contains(""));
        assert_eq!(str_count_char(s, 'n'), s.matches('n').count());
    }
}

#[test]
fn lines_agree_with_std() {
    for s in ["", "\n", "a\r\n\r\n b \nc", "a\rb\n", "\u{85}\nx\n\n"] {
        let expected: Vec<String> = s
            .lines()
            .map(str::trim)
            .filter(|l| !l.is_empty())
            .map(String::from)
            .collect();
        assert_eq!(str_nonblank_lines(s), expected);
    }
}

#[test]
fn equality_and_lower_case() {
    assert!(str_eq("abc", "abc"));
    assert!(!str_eq("abc", "abd"));
    assert!(!str_eq("abc", "ab"));
    assert_eq!(str_lowered("Hello, WORLD [Z]@"), "hello, world [z]@");
}

#[test]
fn numbers_are_written_as_std_does() {
    for n in [0u128, 7, 9, 10, 999, 8100, u64::MAX as u128, u128::MAX] {
        assert_eq!(to_decimal(n), n.to_string());
        assert_eq!(to_lower_hex(n), format!("{n:x}"));
    }
}

use factory_droid::text::{
    base_name, bytes_less, chars_of, contains, eq_ignore_ascii_case, first_line, lower_chars_of,
    line_ranges, push_decimal, push_signed_decimal, starts_with, str_eq, str_less, strip_suffix, trim,
    trim_start_matches, truncate, white_space,
};

#[test]
fn base_name_handles_windows_and_posix_paths() {
    assert_eq!(base_name("C:\\project"), "project");
    assert_eq!(base_name("C:\\project\\sub"), "sub");
    assert_eq!(base_name("/home/u/proj"), "proj");
    assert_eq!(base_name("C:\\"), "C:");
    assert_eq!(base_name(""), "?");
}

#[test]
fn base_name_skips_separators_at_the_end() {
    assert_eq!(base_name("/a/b\\/\\"), "b");
    assert_eq!(base_name("//"), "?");
    assert_eq!(base_name("caf\u{e9}"), "caf\u{e9}");
}

#[test]
fn truncate_cuts_at_character_boundaries() {
    assert_eq!(truncate("hello", 5), "hello");
    assert_eq!(truncate("hello", 4), "hell");
    assert_eq!(truncate("h\u{e9}llo", 2), "h");
    assert_eq!(truncate("h\u{e9}llo", 3), "h\u{e9}");
    assert_eq!(truncate("\u{1d11e}x", 3), "");
    assert_eq!(truncate("\u{1d11e}x", 4), "\u{1d11e}");
    assert_eq!(truncate("abc", 0), "");
    assert_eq!(truncate("", 0), "");
}

#[test]
fn trim_takes_unicode_white_space() {
    assert_eq!(trim("\u{a0} a b\t\u{3000}"), "a b");
    assert_eq!(trim(" \n"), "");
    assert_eq!(trim("\u{200b}"), "\u{200b}");
    assert_eq!(trim(""), "");
}

#[test]
fn white_space_agrees_with_the_standard_library() {
    for n in 0u32..0x11_0000 {
        if let Some(c) = char::from_u32(n) {
            assert_eq!(white_space(c), c.is_whitespace(), "{n:#x}");
        }
    }
}

#[test]
fn trim_start_matches_takes_leading_marks() {
    assert_eq!(trim_start_matches("## Title #", '#'), " Title #");
    assert_eq!(trim_start_matches("###", '#'), "");
    assert_eq!(trim_start_matches("Title", '#'), "Title");
}

#[test]
fn first_line_drops_the_line_ending() {
    assert_eq!(first_line(""), None);
    assert_eq!(first_line("\n"), Some(""));
    assert_eq!(first_line("\r\nb"), Some(""));
    assert_eq!(first_line("a\r\nb"), Some("a"));
    assert_eq!(first_line("a\nb"), Some("a"));
    assert_eq!(first_line("a\r"), Some("a\r"));
    assert_eq!(first_line("a\r\r\n"), Some("a\r"));
    assert_eq!(first_line("a"), Some("a"));
}

#[test]
fn lines_lie_between_their_endings() {
    let lines = |s: &str| -> Vec<String> {
        let chars = chars_of(s);
        line_ranges(&chars).into_iter().map(|(a, b)| chars[a..b].iter().collect()).collect()
    };
    for s in ["", "a", "a\n", "\n", "a\r\n\r\nb\r", "\u{e9}\n\u{1d11e}\r\r\n x", "\r\n"] {
        let expected: Vec<String> = s.lines().map(|l| l.to_string()).collect();
        assert_eq!(lines(s), expected, "{s:?}");
    }
}

#[test]
fn case_is_ignored_for_ascii_only() {
    assert!(eq_ignore_ascii_case("NEW session", "New Session"));
    assert!(!eq_ignore_ascii_case("\u{c9}", "\u{e9}"));
    assert!(!eq_ignore_ascii_case("New", "New "));
    assert!(!eq_ignore_ascii_case("@", "`"));
    assert_eq!(lower_chars_of("AZ[az\u{c9}"), vec!['a', 'z', '[', 'a', 'z', '\u{c9}']);
}

#[test]
fn searching_and_comparing() {
    assert!(contains(&chars_of("a droid"), &chars_of("droid")));
    assert!(contains(&chars_of("x"), &chars_of("")));
    assert!(!contains(&chars_of("droi"), &chars_of("droid")));
    assert!(!contains(&chars_of("drroid"), &chars_of("droid")));
    assert!(starts_with("custom:a", "custom:"));
    assert!(starts_with("custom:", "custom:"));
    assert!(!starts_with("custom", "custom:"));
    assert!(!starts_with("xcustom:", "custom:"));
    assert_eq!(strip_suffix("a.settings.json", ".settings.json"), Some("a"));
    assert_eq!(strip_suffix("a.settings.json.bak", ".settings.json"), None);
    assert_eq!(strip_suffix("x", "xx"), None);
    assert!(str_eq("caf\u{e9}", "caf\u{e9}"));
    assert!(!str_eq("caf\u{e9}", "cafe"));
    assert!(!str_eq("a", "ab"));
}

#[test]
fn strings_are_ordered_by_their_bytes() {
    assert!(str_less("Z", "a"));
    assert!(str_less("a", "aa"));
    assert!(str_less("", "a"));
    assert!(str_less("z", "\u{e9}"));
    assert!(!str_less("a", "a"));
    assert!(!str_less("b", "ab"));
    assert!(bytes_less(&[1, 255], &[2]));
    assert!(!bytes_less(&[2], &[1, 255]));
}

#[test]
fn numbers_are_written_in_decimal() {
    let mut s = "n=".to_string();
    push_decimal(&mut s, 0);
    assert_eq!(s, "n=0");
    let mut s = String::new();
    push_decimal(&mut s, u64::MAX);
    assert_eq!(s, "18446744073709551615");
    let mut s = String::new();
    push_signed_decimal(&mut s, i64::MIN);
    push_signed_decimal(&mut s, 10);
    assert_eq!(s, "-922337203685477580810");
}

use aicommit::text::{contains_str, decimal_string, is_blank_str, lines_of, trim_str};

#[test]
fn lines_match_std_lines() {
    for s in ["", "a", "a\n", "a\r\nb", "foo\nbar\n\r\nbaz\r", "\n\n", "x\ny"] {
        let expected: Vec<String> = s.lines().map(str::to_owned).collect();
        assert_eq!(lines_of(s), expected, "lines of {s:?}");
    }
}

#[test]
fn trim_matches_std_trim() {
    for s in ["", "  a ", "\u{3000}x\u{85}", "\t\n", "a b", "\u{200b}z"] {
        assert_eq!(trim_str(s), s.trim(), "trim of {s:?}");
        assert_eq!(is_blank_str(s), s.trim().is_empty());
    }
}

#[test]
fn decimal_matches_display() {
    for n in [0usize, 7, 10, 99, 100, 12345, usize::MAX] {
        assert_eq!(decimal_string(n), n.to_string());
    }
}

#[test]
fn contains_matches_std_contains() {
    for (h, n) in [("abc", "b"), ("abc", ""), ("", ""), ("ab", "abc"), ("aab", "ab"), ("x", "y")] {
        assert_eq!(contains_str(h, n), h.contains(n));
    }
}

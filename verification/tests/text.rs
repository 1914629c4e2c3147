use fab_line::text::{
    bool_text, decimal_text, find_text, has_text, head_text, hex_text, join_texts, parse_usize,
    part_before, replace_all, replace_first, signed_decimal_text, split_lines, starts_with_text,
    text_eq, text_precedes,
};

#[test]
fn numbers_are_written_out() {
    for n in [0u64, 7, 10, 99, 100, 65_536, u64::MAX] {
        assert_eq!(decimal_text(n), n.to_string());
    }
    for n in [0i64, -1, 42, -60_000, i64::MIN, i64::MAX] {
        assert_eq!(signed_decimal_text(n), n.to_string());
    }
    assert_eq!(hex_text(0xbeef, 8), "0000beef");
    assert_eq!(hex_text(0xa, 4), "000a");
    assert_eq!(bool_text(true), "true");
    assert_eq!(bool_text(false), "false");
}

#[test]
fn a_number_reads_back() {
    for n in [0usize, 1, 100, 1_048_576, usize::MAX] {
        assert_eq!(parse_usize(&decimal_text(n as u64)), Some(n));
    }
    for s in ["", "+", "-1", "1 ", " 1", "0x10", "1e3", "18446744073709551616", "+7", "007"] {
        assert_eq!(parse_usize(s), s.parse::<usize>().ok(), "{s:?}");
    }
}

#[test]
fn texts_are_searched_as_std_does() {
    let cases = [
        ("x-dlq-reason", "reason"),
        ("reason", "reason"),
        ("", "a"),
        ("", ""),
        ("abc", ""),
        ("aab", "ab"),
        ("§·±", "·"),
    ];
    for (s, needle) in cases {
        assert_eq!(has_text(s, needle), s.contains(needle), "{s:?} {needle:?}");
        assert_eq!(starts_with_text(s, needle), s.starts_with(needle), "{s:?} {needle:?}");
        assert_eq!(find_text(s, needle).is_some(), s.contains(needle));
        assert_eq!(replace_first(s, needle, "<>"), s.replacen(needle, "<>", 1));
        if !needle.is_empty() {
            assert_eq!(replace_all(s, needle, "<>"), s.replace(needle, "<>"));
        }
    }
    assert_eq!(replace_all("aaaa", "aa", "a"), "aa");
    assert_eq!(replace_first("a.b.c", ".", "~"), "a~b.c");
    assert_eq!(find_text("·±abc", "abc"), Some(2));
}

#[test]
fn texts_are_taken_apart_and_put_together() {
    assert_eq!(part_before("/validate?x=1?y", '?'), "/validate");
    assert_eq!(part_before("/validate", '?'), "/validate");
    assert_eq!(head_text("·±abc", 3), "·±a");
    assert_eq!(head_text("ab", 3), "ab");
    let parts: Vec<String> = vec!["ok".to_string(), "ok".to_string(), "Timeout".to_string()];
    assert_eq!(join_texts(&parts, "\n"), "ok\nok\nTimeout");
    assert_eq!(join_texts(&Vec::new(), "; "), "");
    for s in ["", "a", "a\n", "a\nb", "a\r\nb\r\n", "\n\n", "a\rb", "a\n\nb", "a\r"] {
        let want: Vec<String> = s.lines().map(|l| l.to_string()).collect();
        assert_eq!(split_lines(s), want, "{s:?}");
    }
}

#[test]
fn texts_are_ordered_as_std_orders_them() {
    let xs = ["", "a", "ab", "b", "st06", "st06twin", "±", "\u{ffff}", "\u{10000}"];
    for a in xs {
        for b in xs {
            assert_eq!(text_precedes(a, b), a < b, "{a:?} {b:?}");
            assert_eq!(text_eq(a, b), a == b);
        }
    }
}

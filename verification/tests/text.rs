use govdoc::number::{
    parse_bounded, parse_u64, parse_usize, show_i64, show_padded, show_padded_i64, show_u64,
    show_usize,
};
use govdoc::text::{
    byte_len, contains, count_matches, ends_with, find, is_ascii_digit, is_control, is_whitespace,
    join, lines, nonblank_lines, split, split_whitespace, starts_with, strip_prefix, trim,
    trim_end_matches, trim_start_matches, truncate_chars,
};
use govdoc::pages::rendered_count;

const SAMPLES: [&str; 14] = [
    "",
    " ",
    "\n",
    "\r\n",
    "หนังสือ ภายนอก",
    "  a\tb  c\n",
    "line one\r\nline two\n\nline four",
    "aaaa",
    "ababab",
    "a\u{a0}b\u{3000}c\u{2028}",
    "```json\n{}\n```",
    "|a|b|",
    "trailing\r",
    "\u{85}x\u{1680}",
];

#[test]
fn characters_are_classed_as_in_the_standard_library() {
    for code in 0..=0x10FFFFu32 {
        if let Some(c) = char::from_u32(code) {
            assert_eq!(is_whitespace(c), c.is_whitespace(), "{code:x}");
            assert_eq!(is_control(c), c.is_control(), "{code:x}");
            assert_eq!(is_ascii_digit(c), c.is_ascii_digit(), "{code:x}");
        }
    }
}

#[test]
fn texts_are_cut_as_in_the_standard_library() {
    for s in SAMPLES {
        assert_eq!(trim(s), s.trim());
        assert_eq!(lines(s), s.lines().map(str::to_string).collect::<Vec<_>>());
        assert_eq!(
            split_whitespace(s),
            s.split_whitespace().map(str::to_string).collect::<Vec<_>>()
        );
        assert_eq!(byte_len(s), s.len());
        for p in ["a", "ab", "\n\n", "|", "aa", "ไม่มี", "```"] {
            assert_eq!(split(s, p), s.split(p).map(str::to_string).collect::<Vec<_>>());
            assert_eq!(count_matches(s, p), s.matches(p).count());
            assert_eq!(contains(s, p), s.contains(p));
            assert_eq!(starts_with(s, p), s.starts_with(p));
            assert_eq!(ends_with(s, p), s.ends_with(p));
            assert_eq!(strip_prefix(s, p), s.strip_prefix(p).map(str::to_string));
            assert_eq!(trim_start_matches(s, p), s.trim_start_matches(p));
            assert_eq!(trim_end_matches(s, p), s.trim_end_matches(p));
            assert_eq!(
                find(s, p),
                s.find(p).map(|at| s[..at].chars().count())
            );
        }
    }
}

#[test]
fn texts_are_joined_and_shortened() {
    let list = vec!["ก".to_string(), "".to_string(), "ข".to_string()];
    assert_eq!(join(&list, " | "), "ก |  | ข");
    assert_eq!(join(&Vec::new(), ","), "");
    assert_eq!(truncate_chars("กขคง", 2), "กข");
    assert_eq!(truncate_chars("กข", 5), "กข");
    assert_eq!(
        nonblank_lines(" one \n\n \n two"),
        vec!["one".to_string(), "two".to_string()]
    );
}

#[test]
fn numbers_are_shown_as_in_the_standard_library() {
    for n in [0u64, 7, 10, 99, 100, 1234567890, u64::MAX] {
        assert_eq!(show_u64(n), n.to_string());
        assert_eq!(show_padded(n, 10), format!("{n:010}"));
    }
    assert_eq!(show_usize(20), "20");
    for n in [0i64, 1, -1, 42, -100, i64::MAX, i64::MIN] {
        assert_eq!(show_i64(n), n.to_string());
        assert_eq!(show_padded_i64(n, 3), format!("{n:03}"));
    }
}

#[test]
fn numbers_are_read_as_in_the_standard_library() {
    for s in [
        "", "0", "007", "+5", "-5", "+", "12a", " 1", "18446744073709551615",
        "18446744073709551616", "99999999999999999999999", "๑",
    ] {
        assert_eq!(parse_u64(s), s.parse::<u64>().ok(), "{s}");
        assert_eq!(parse_usize(s), s.parse::<usize>().ok(), "{s}");
    }
    assert_eq!(parse_bounded("20", 20), Some(20));
    assert_eq!(parse_bounded("21", 20), None);
}

#[test]
fn bytes_are_read_leniently() {
    assert_eq!(rendered_count(b" 7\n"), 7);
    assert_eq!(rendered_count("\u{3000}12\u{3000}".as_bytes()), 12);
    assert_eq!(rendered_count(b"7\xff"), 0);
    assert_eq!(rendered_count(b""), 0);
}

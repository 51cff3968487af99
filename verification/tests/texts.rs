use git_bulk_clean::report::{format_timestamp, log_line, sanitize_for_log};
use git_bulk_clean::text::{
    comma_list, decode, eq_ignore_ascii_case, is_control, is_white_space, join, lines, number, padded,
    parse_unsigned, same, split, starts_with_char, strip_prefix, trim,
};

const SAMPLES: &[&str] = &[
    "",
    " ",
    "a",
    "  a b\t",
    "\u{3000}é\u{85}",
    "a\nb",
    "a\r\nb\r\n",
    "\n",
    "\r",
    "a\n\n\rb\r",
    "a,b,,c,",
    ",",
    "→ x",
];

fn all_chars() -> impl Iterator<Item = char> {
    (0..=0x10FFFFu32).filter_map(char::from_u32)
}

#[test]
fn white_space_is_unicode_white_space() {
    for c in all_chars() {
        assert_eq!(is_white_space(c), c.is_whitespace(), "{c:?}");
    }
}

#[test]
fn control_is_unicode_control() {
    for c in all_chars() {
        assert_eq!(is_control(c), c.is_control(), "{c:?}");
    }
}

#[test]
fn trim_takes_white_space_off_both_ends() {
    for s in SAMPLES {
        assert_eq!(trim(s), s.trim(), "{s:?}");
    }
    assert_eq!(trim("\u{a0} x y \u{2029}"), "x y");
}

#[test]
fn lines_end_at_line_feeds() {
    for s in SAMPLES {
        let expected: Vec<&str> = s.lines().collect();
        assert_eq!(lines(s), expected, "{s:?}");
    }
    assert_eq!(lines("a\r\nb\n\nc"), ["a", "b", "", "c"]);
}

#[test]
fn split_keeps_empty_pieces() {
    for s in SAMPLES {
        let expected: Vec<&str> = s.split(',').collect();
        assert_eq!(split(s, ','), expected, "{s:?}");
    }
    assert_eq!(split("a,,b", ','), ["a", "", "b"]);
}

#[test]
fn comma_lists_hold_trimmed_items() {
    assert_eq!(comma_list(" a , ,b c,,"), ["a", "b c"]);
    assert!(comma_list("").is_empty());
}

#[test]
fn join_puts_the_separator_between() {
    let parts = vec!["a".to_string(), "".to_string(), "b".to_string()];
    assert_eq!(join(&parts, ", "), "a, , b");
    assert_eq!(join(&Vec::new(), ", "), "");
}

#[test]
fn prefixes_are_found_and_taken_off() {
    assert_eq!(strip_prefix("packs: 3", "packs: "), Some("3".to_string()));
    assert_eq!(strip_prefix("packs:", "packs: "), None);
    assert_eq!(strip_prefix("x", ""), Some("x".to_string()));
    assert!(starts_with_char("*x", '*'));
    assert!(!starts_with_char("", '*'));
}

#[test]
fn texts_are_compared_exactly_or_without_case() {
    assert!(same("éa", "éa"));
    assert!(!same("a", "A"));
    assert!(!same("a", "ab"));
    assert!(eq_ignore_ascii_case("NeVeR", "never"));
    assert!(!eq_ignore_ascii_case("É", "é"));
    assert!(!eq_ignore_ascii_case("never", "neve"));
}

#[test]
fn numbers_are_written_in_decimal() {
    for n in [0u128, 7, 10, 99, 1234567890, u128::MAX] {
        assert_eq!(number(n), n.to_string());
    }
    assert_eq!(padded(7), "07");
    assert_eq!(padded(59), "59");
}

#[test]
fn numbers_are_read_as_unsigned_integers() {
    for s in [
        "0",
        "7",
        "+7",
        "-7",
        "",
        "+",
        "007",
        " 7",
        "7 ",
        "1_000",
        "18446744073709551615",
        "18446744073709551616",
        "99999999999999999999999999999999999999999999",
        "٣",
    ] {
        assert_eq!(parse_unsigned(s, u64::MAX), s.parse::<u64>().ok(), "{s:?}");
        assert_eq!(
            parse_unsigned(s, u32::MAX as u64),
            s.parse::<u32>().ok().map(u64::from),
            "{s:?}"
        );
    }
}

#[test]
fn written_text_reads_back() {
    for s in SAMPLES {
        assert_eq!(decode(&s.as_bytes().to_vec()), *s);
    }
    assert_eq!(decode(&b"a\xffb\xc0\x80".to_vec()), "a\u{fffd}b\u{fffd}\u{fffd}");
}

#[test]
fn decimals_read_back() {
    for n in [0u64, 1, 42, 65536, u64::MAX] {
        assert_eq!(parse_unsigned(&number(n as u128), u64::MAX), Some(n));
    }
}

#[test]
fn the_clock_repeats_daily() {
    for secs in [0u64, 59, 3599, 86399, 45296] {
        assert_eq!(format_timestamp(secs), format_timestamp(secs + 3 * 86400));
    }
    assert_eq!(format_timestamp(86399), "23:59:59");
    assert_eq!(format_timestamp(u64::MAX), clock(u64::MAX));
}

fn clock(secs: u64) -> String {
    let s = secs % 86400;
    format!("{:02}:{:02}:{:02}", s / 3600, s / 60 % 60, s % 60)
}

#[test]
fn sanitized_text_stays_as_it_is() {
    let once = sanitize_for_log("a\u{7}b\u{9f}c→");
    assert_eq!(once, "a?b?c→");
    assert_eq!(sanitize_for_log(&once), once);
}

#[test]
fn log_lines_have_a_name_and_a_time() {
    assert_eq!(log_line(3661, "hello"), "[git-bulk-clean 01:01:01] hello");
}

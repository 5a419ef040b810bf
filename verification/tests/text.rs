//! Text, numbers, prompts and lines of the log.
use ami_s3_archive::log::Logger;
use ami_s3_archive::number::{decimal_text, parse_i64, parse_u64, signed_text, NumberError};
use ami_s3_archive::prompt::{is_yes, question};
use ami_s3_archive::text::{
    contains, find_from, is_before, is_white_space, join, lower_char, replace, same, same_but_case,
    split, starts_with, to_chars, to_lower, trim, words,
};

#[test]
fn white_space_is_that_of_char() {
    for n in 0..=0x10FFFFu32 {
        if let Some(c) = char::from_u32(n) {
            assert_eq!(is_white_space(c), c.is_whitespace(), "{n:x}");
            assert_eq!(lower_char(c), c.to_ascii_lowercase(), "{n:x}");
        }
    }
}

#[test]
fn text_functions_agree_with_str() {
    let samples = [
        "", " ", "a", "  a b ", "ééé", "\u{2003}x\u{3000}", "a,b,,c,", ",", "aXbXXc", "Ünïcode\r\n",
        "aaa", "aa", "The quick  brown\tfox",
    ];
    for s in samples {
        assert_eq!(trim(s), s.trim());
        assert_eq!(to_lower(s), s.to_ascii_lowercase());
        assert_eq!(split(s, ','), s.split(',').collect::<Vec<_>>());
        assert_eq!(words(s), s.split_whitespace().collect::<Vec<_>>());
        for t in samples {
            assert_eq!(contains(s, t), s.contains(t));
            assert_eq!(starts_with(s, t), s.starts_with(t));
            assert_eq!(same(s, t), s == t);
            assert_eq!(is_before(s, t), s < t);
            assert_eq!(same_but_case(s, t), s.eq_ignore_ascii_case(t));
            if !t.is_empty() {
                assert_eq!(replace(s, t, "<>"), s.replace(t, "<>"));
            }
        }
    }
    assert_eq!(find_from(&to_chars("abcabc"), &to_chars("bc"), 2), Some(4));
    assert_eq!(find_from(&to_chars("abcabc"), &to_chars("bd"), 0), None);
    let parts = vec!["a".to_string(), String::new(), "b".to_string()];
    assert_eq!(join(&parts, "; "), "a; ; b");
    assert_eq!(join(&Vec::new(), "; "), "");
}

#[test]
fn numbers_are_written_as_by_to_string() {
    for n in [0u64, 7, 10, 99, 100, 1234567890, u64::MAX] {
        assert_eq!(decimal_text(n), n.to_string());
        assert_eq!(parse_u64(&n.to_string()), Ok(n));
    }
    for n in [0i64, 7, -7, i64::MAX, i64::MIN] {
        assert_eq!(signed_text(n), n.to_string());
        assert_eq!(parse_i64(&n.to_string()), Some(n));
    }
}

#[test]
fn numbers_are_read_as_by_parse() {
    let samples = [
        "", "+", "-", "0", "007", "+5", "-5", "5 ", " 5", "1x", "x1", "18446744073709551615",
        "18446744073709551616", "99999999999999999999x", "9223372036854775807",
        "9223372036854775808", "-9223372036854775808", "-9223372036854775809", "++1", "١",
    ];
    for s in samples {
        assert_eq!(parse_u64(s).ok(), s.parse::<u64>().ok(), "{s}");
        assert_eq!(parse_i64(s), s.parse::<i64>().ok(), "{s}");
    }
    assert_eq!(parse_u64(""), Err(NumberError::Empty));
    assert_eq!(parse_u64("+"), Err(NumberError::InvalidDigit));
    assert_eq!(parse_u64("-5"), Err(NumberError::InvalidDigit));
    assert_eq!(parse_u64("18446744073709551616"), Err(NumberError::TooLarge));
}

#[test]
fn answers_are_yes_or_no() {
    for line in ["y\n", " YES \r\n", "o", "Oui\n"] {
        assert!(is_yes(line, false));
        assert!(is_yes(line, true));
    }
    for line in ["n\n", "no", "yeah", "ja", "y y"] {
        assert!(!is_yes(line, false));
        assert!(!is_yes(line, true));
    }
    assert!(is_yes("\n", true));
    assert!(!is_yes("  \n", false));
    assert_eq!(question("Go?", true), "Go? [Y/n]: ");
    assert_eq!(question("Go?", false), "Go? [y/N]: ");
}

#[test]
fn log_lines_show_time_level_and_message() {
    let quiet = Logger { verbose: false };
    let loud = Logger { verbose: true };
    assert_eq!(quiet.info("T", "m"), "T INFO  m");
    assert_eq!(quiet.warn("T", "m"), "T WARN  m");
    assert_eq!(quiet.error("T", "m"), "T ERROR m");
    assert_eq!(quiet.debug("T", "m"), None);
    assert_eq!(loud.debug("T", "m"), Some("T DEBUG m".to_string()));
}

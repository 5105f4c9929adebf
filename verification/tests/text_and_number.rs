//! Text and numbers, held against the standard library.

use rtsp_client::number::{decimal, parse_number};
use rtsp_client::text::{
    find, is_whitespace, join_from, same_text, split, starts_with, strip_prefixes, trim, words,
};

const SAMPLES: [&str; 10] = [
    "",
    " ",
    "a",
    "  a b\tc ",
    "a\r\nb\r\n\r\n",
    "\r\r\n\n",
    "a;b;;c;",
    "\u{3000}x\u{2003}y\u{200b}",
    "timeout=timeout=5",
    "\u{e4}\u{f6};\u{fc}",
];

#[test]
fn white_space_is_that_of_char() {
    for code in 0..=0x10ffffu32 {
        if let Some(c) = char::from_u32(code) {
            assert_eq!(is_whitespace(c), c.is_whitespace(), "{:x}", code);
        }
    }
}

#[test]
fn text_functions_do_what_str_does() {
    for s in SAMPLES {
        assert_eq!(trim(s), s.trim());
        assert_eq!(words(s), s.split_whitespace().collect::<Vec<_>>());
        for pattern in [";", "\r\n", "timeout=", "a"] {
            assert_eq!(split(s, pattern), s.split(pattern).collect::<Vec<_>>());
            assert_eq!(starts_with(s, pattern), s.starts_with(pattern));
            assert_eq!(strip_prefixes(s, pattern), s.trim_start_matches(pattern));
            assert_eq!(join_from(&split(s, pattern), 0, pattern), s);
            let at = s.find(pattern).map(|i| s[..i].chars().count());
            assert_eq!(find(s, pattern), at);
        }
        for t in SAMPLES {
            assert_eq!(same_text(s, t), s == t);
        }
    }
    assert_eq!(join_from(&vec!["a", "b", "c"], 1, "--"), "b--c");
    assert_eq!(join_from(&vec!["a", "b", "c"], 0, " "), "a b c");
}

#[test]
fn numbers_are_read_as_str_parse_reads_them() {
    for s in ["", "+", "0", "00", "7", "+7", "-7", "65535", "65536", " 1", "1 ", "1a", "++1",
        "000000000000000000000000000065535", "18446744073709551615", "18446744073709551616"]
    {
        assert_eq!(parse_number(s, u16::MAX as u64), s.parse::<u16>().ok().map(u64::from), "{}", s);
        assert_eq!(parse_number(s, u64::MAX), s.parse::<u64>().ok(), "{}", s);
    }
}

#[test]
fn numbers_are_written_in_decimal() {
    for n in [0, 1, 9, 10, 554, 65535, 4294967295, u64::MAX] {
        assert_eq!(decimal(n), format!("{}", n));
        assert_eq!(parse_number(&decimal(n), u64::MAX), Some(n));
    }
}

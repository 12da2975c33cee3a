//! Numbers in decimal, alignment, splitting and joining.
use stt_bench::text::{
    align_left, align_right, blank, chars_of, decimal_of, filled, parse_i32, signed_of,
    split_once, split_white_space, string_of, trim, trim_end, trim_start, white_space, zero_filled_of,
};

const SAMPLES: [&str; 10] = [
    "",
    " ",
    "один",
    "  два  слова ",
    "a\tb\nc",
    "\u{a0}не\u{2003}разрывный\u{3000}",
    "\u{200b}",
    "x",
    "\r\n",
    "вице-президент сказал",
];

#[test]
fn white_space_is_that_of_unicode() {
    for u in 0..=0x10ffffu32 {
        if let Some(c) = char::from_u32(u) {
            assert_eq!(white_space(c), c.is_whitespace(), "{u:x}");
        }
    }
}

#[test]
fn splitting_and_trimming() {
    for s in SAMPLES {
        assert_eq!(trim(s), s.trim());
        assert_eq!(trim_start(s), s.trim_start());
        assert_eq!(trim_end(s), s.trim_end());
        assert_eq!(blank(s), s.trim().is_empty());
        let words: Vec<&str> = s.split_whitespace().collect();
        assert_eq!(split_white_space(s), words);
        assert_eq!(split_white_space(s).concat(), s.split_whitespace().collect::<String>());
        for c in ['\t', ' ', 'о'] {
            let expected = s.split_once(c).map(|(a, b)| (a.to_string(), b.to_string()));
            assert_eq!(split_once(s, c), expected);
        }
        assert_eq!(string_of(&chars_of(s)), s);
    }
}

#[test]
fn fields() {
    for s in SAMPLES {
        for w in [0usize, 1, 5, 24] {
            assert_eq!(align_left(s, w), format!("{s:<w$}"));
            assert_eq!(align_right(s, w), format!("{s:>w$}"));
        }
    }
    assert_eq!(filled('─', 3), "───");
}

#[test]
fn integers() {
    for i in [0, 1, 9, 10, 42, 12345, 123456, -1, -9, -42, -123456, i32::MAX, i32::MIN] {
        assert_eq!(signed_of(i), i.to_string());
        assert_eq!(zero_filled_of(i, 5), format!("{i:05}"));
        assert_eq!(zero_filled_of(i, 0), format!("{i}"));
        assert_eq!(parse_i32(&signed_of(i)), Some(i));
    }
    for n in [0u64, 7, 10, 999, 1000, u64::MAX] {
        assert_eq!(decimal_of(n), n.to_string());
    }
}

#[test]
fn parsing_integers() {
    for s in [
        "", "+", "-", "+5", "-0", "007", "2147483647", "2147483648", "-2147483648",
        "-2147483649", "99999999999999999999999", "00000000000000000000012", "1_000", " 1", "1 ",
        "٣", "--1", "+-1", "12a",
    ] {
        assert_eq!(parse_i32(s), s.parse::<i32>().ok(), "{s:?}");
    }
}

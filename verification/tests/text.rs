use animaksm::text;
use animaksm::text::{
    chars_of, decimal_text, find_char, parse_hex_u64, parse_i64, parse_u32, parse_u64,
    signed_text, split_char, split_lines, split_words, string_of, strip_leading, strip_suffixes,
    text_contains, trim_text,
};

const SAMPLES: [&str; 24] = [
    "",
    " ",
    "a",
    "  a b\t c \n",
    "one\ntwo\r\nthree",
    "one\n\n\r\n",
    "\r\n",
    "x\r",
    "-",
    "--",
    "a-b-c",
    "-a-",
    "\u{85}next\u{a0}line\u{2003}wide\u{3000}",
    "\u{200b}zero",
    "0",
    "+7",
    "-7",
    "+",
    "007",
    "18446744073709551615",
    "18446744073709551616",
    "-9223372036854775808",
    "fF09",
    "[none] scan-time",
];

#[test]
fn texts_survive_their_characters() {
    for s in SAMPLES {
        assert_eq!(string_of(&chars_of(s)), s);
        assert_eq!(text::concat(s, "!"), format!("{s}!"));
    }
}

#[test]
fn white_space_is_trimmed_and_split_at() {
    for s in SAMPLES {
        assert_eq!(trim_text(s), s.trim(), "{s:?}");
        let chars = chars_of(s);
        let words: Vec<String> = split_words(&chars).iter().map(|w| string_of(w)).collect();
        assert_eq!(words, s.split_whitespace().collect::<Vec<_>>(), "{s:?}");
        let lines: Vec<String> = split_lines(&chars).iter().map(|l| string_of(l)).collect();
        assert_eq!(lines, s.lines().collect::<Vec<_>>(), "{s:?}");
    }
}

#[test]
fn separators_split_and_are_found() {
    for s in SAMPLES {
        let chars = chars_of(s);
        let parts: Vec<String> = split_char(&chars, '-')
            .iter()
            .map(|p| string_of(p))
            .collect();
        assert_eq!(parts, s.split('-').collect::<Vec<_>>(), "{s:?}");
        assert_eq!(
            find_char(&chars, '-'),
            s.chars().position(|c| c == '-'),
            "{s:?}"
        );
        assert_eq!(
            string_of(strip_leading(&chars, '[')),
            s.trim_start_matches('[')
        );
        assert_eq!(string_of(strip_suffixes(&chars, "-")), s.trim_end_matches("-"));
        assert_eq!(text_contains(s, "e"), s.contains("e"));
    }
}

#[test]
fn numbers_are_parsed_within_their_type() {
    for s in SAMPLES {
        let chars = chars_of(s);
        assert_eq!(parse_u64(&chars), s.parse::<u64>().ok(), "{s:?}");
        assert_eq!(parse_u32(&chars), s.parse::<u32>().ok(), "{s:?}");
        assert_eq!(parse_i64(&chars), s.parse::<i64>().ok(), "{s:?}");
        assert_eq!(
            parse_hex_u64(&chars),
            u64::from_str_radix(s, 16).ok(),
            "{s:?}"
        );
    }
}

#[test]
fn numbers_are_read_back_from_their_text() {
    for n in [0, 1, 9, 10, 99, 100, 4096, u64::MAX - 1, u64::MAX] {
        let text = decimal_text(n);
        assert_eq!(text, n.to_string());
        assert_eq!(parse_u64(&chars_of(&text)), Some(n));
    }
    for n in [0, 7, -7, i64::MAX, i64::MIN] {
        assert_eq!(signed_text(n), n.to_string());
        assert_eq!(parse_i64(&chars_of(&signed_text(n))), Some(n));
    }
}

use openssl_classifier::numeral::{append_lower_hex, digit_of, digit_str, hex_digit, parse_range};
use openssl_classifier::text::{chars_of, find_sep, starts_with, trim_range, whitespace};
use openssl_classifier::version::token_of;

#[test]
fn chars_of_gives_every_character() {
    assert_eq!(chars_of("a\u{e9}\u{1f600}z"), vec!['a', '\u{e9}', '\u{1f600}', 'z']);
    assert_eq!(chars_of(""), Vec::<char>::new());
}

#[test]
fn whitespace_is_what_the_standard_library_calls_white_space() {
    for code in 0..=0x10_ffffu32 {
        if let Some(c) = char::from_u32(code) {
            assert_eq!(whitespace(c), c.is_whitespace(), "U+{:04X}", code);
        }
    }
}

#[test]
fn digits_are_what_the_standard_library_calls_digits() {
    for code in 0..=0x10_ffffu32 {
        if let Some(c) = char::from_u32(code) {
            assert_eq!(digit_of(c), c.to_digit(16).map(u64::from), "U+{:04X}", code);
            assert_eq!(hex_digit(c), c.is_ascii_hexdigit(), "U+{:04X}", code);
        }
    }
}

#[test]
fn trim_range_trims_as_the_standard_library_trims() {
    let samples = [
        "", " ", "  a  ", "a", "\t\r\n a b \u{b}\u{c}", "\u{a0}x\u{3000}", "\u{2003}\u{85}",
        "x\u{200b}", "\u{feff}x", "  \u{1680}RUST_CONF_X\u{2028}\u{2029}\u{202f}\u{205f}",
    ];
    for sample in samples {
        let chars = chars_of(sample);
        let (from, to) = trim_range(&chars, 0, chars.len());
        let trimmed: String = chars[from..to].iter().collect();
        assert_eq!(trimmed, sample.trim(), "sample {:?}", sample);
    }
}

#[test]
fn trim_range_stays_within_its_range() {
    let chars = chars_of("  ab  cd  ");
    assert_eq!(trim_range(&chars, 0, 10), (2, 8));
    assert_eq!(trim_range(&chars, 3, 7), (3, 7));
    assert_eq!(trim_range(&chars, 4, 6), (6, 6));
    assert_eq!(trim_range(&chars, 4, 5), (5, 5));
    assert_eq!(trim_range(&chars, 5, 5), (5, 5));
}

#[test]
fn starts_with_compares_within_the_range() {
    let chars = chars_of("xxRUST_CONF_Ayy");
    let marker = chars_of("RUST_CONF_");
    assert!(starts_with(&chars, 2, 15, &marker));
    assert!(starts_with(&chars, 2, 12, &marker));
    assert!(!starts_with(&chars, 2, 11, &marker));
    assert!(!starts_with(&chars, 0, 15, &marker));
    assert!(!starts_with(&chars, 3, 15, &marker));
    assert!(starts_with(&chars, 7, 7, &Vec::new()));
}

#[test]
fn find_sep_finds_the_next_separator_or_the_end() {
    let chars = chars_of("ab\ncd\n\nef");
    assert_eq!(find_sep(&chars, '\n', 0), 2);
    assert_eq!(find_sep(&chars, '\n', 2), 2);
    assert_eq!(find_sep(&chars, '\n', 3), 5);
    assert_eq!(find_sep(&chars, '\n', 6), 6);
    assert_eq!(find_sep(&chars, '\n', 7), 9);
    assert_eq!(find_sep(&chars, '\n', 9), 9);
}

#[test]
fn token_of_copies_the_range() {
    let chars = chars_of("abcdef");
    assert_eq!(token_of(&chars, 2, 5), vec!['c', 'd', 'e']);
    assert_eq!(token_of(&chars, 3, 3), Vec::<char>::new());
}

fn digits_only(numeral: &str, radix: u32) -> Option<u64> {
    if numeral.is_empty() || !numeral.chars().all(|c| c.is_ascii() && c.is_digit(radix)) {
        return None;
    }
    u64::from_str_radix(numeral, radix).ok()
}

#[test]
fn numerals_are_digits_that_the_standard_library_reads() {
    let samples = [
        "", "+", "-", "0", "+0", "-0", "7", "42", "+42", "++42", "4+2", "0042", "ff", "FF", "fF",
        "+ff", "g", "9a", "18446744073709551615", "18446744073709551616", "ffffffffffffffff",
        "10000000000000000", "99999999999999999999", " 1", "1 ", "1_0", "١",
    ];
    for sample in samples {
        let chars = chars_of(sample);
        assert_eq!(
            parse_range(&chars, 0, chars.len(), 10),
            digits_only(sample, 10),
            "base ten, {:?}",
            sample
        );
        assert_eq!(
            parse_range(&chars, 0, chars.len(), 16),
            digits_only(sample, 16),
            "base sixteen, {:?}",
            sample
        );
    }
}

#[test]
fn numerals_take_no_sign() {
    for sample in ["+", "-", "+0", "-0", "+42", "-42", "+ff", "4+2", "42+"] {
        let chars = chars_of(sample);
        assert_eq!(parse_range(&chars, 0, chars.len(), 10), None, "{:?}", sample);
        assert_eq!(parse_range(&chars, 0, chars.len(), 16), None, "{:?}", sample);
    }
    let chars = chars_of("+42");
    assert_eq!(parse_range(&chars, 1, 3, 10), Some(42));
}

#[test]
fn numerals_are_read_within_their_range() {
    let chars = chars_of("ab123cd");
    assert_eq!(parse_range(&chars, 2, 5, 10), Some(123));
    assert_eq!(parse_range(&chars, 0, 7, 16), Some(0xab_123c_d));
    assert_eq!(parse_range(&chars, 0, 7, 10), None);
    assert_eq!(parse_range(&chars, 3, 3, 10), None);
}

#[test]
fn lower_hex_is_written_as_the_standard_library_writes_it() {
    let samples: [u64; 10] =
        [0, 1, 9, 10, 15, 16, 255, 0x3010_0000, 0x1000_20cf, u64::MAX];
    for n in samples {
        let mut text = String::from("v=");
        append_lower_hex(&mut text, n);
        assert_eq!(text, format!("v={:x}", n));
    }
    for d in 0..16u64 {
        assert_eq!(digit_str(d), format!("{:x}", d));
    }
}

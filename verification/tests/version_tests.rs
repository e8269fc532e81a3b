use openssl_classifier::error::Error;
use openssl_classifier::version::{
    fix, major, minor, parse_new_version, parse_version, patch, status,
};

fn digits_only(numeral: &str, radix: u32) -> Option<u64> {
    if numeral.is_empty() || !numeral.chars().all(|c| c.is_ascii() && c.is_digit(radix)) {
        return None;
    }
    u64::from_str_radix(numeral, radix).ok()
}

fn reference_hex(version: &str) -> Option<u64> {
    let rest = version.strip_prefix("0x")?;
    let rest = rest.trim_end_matches(|c: char| !c.is_ascii_hexdigit());
    digits_only(rest, 16)
}

fn reference_dotted(version: &str) -> Option<u64> {
    let mut it = version.split('_');
    let major = digits_only(it.next()?, 10)?;
    let minor = digits_only(it.next()?, 10)?;
    let patch = digits_only(it.next()?, 10)?;
    Some((major << 28) | (minor << 20) | (patch << 4))
}

#[test]
fn hex_token_with_type_suffix() {
    assert_eq!(parse_version("0x100020cfL"), Ok(0x1000_20cf));
}

#[test]
fn hex_token_without_suffix() {
    assert_eq!(parse_version("0x30000000"), Ok(0x3000_0000));
    assert_eq!(parse_version("0x0"), Ok(0));
}

#[test]
fn hex_token_loses_every_trailing_character_that_is_no_digit() {
    assert_eq!(parse_version("0x1010107fUL"), Ok(0x1010_107f));
    assert_eq!(parse_version("0x2090100fL;  "), Ok(0x2090_100f));
}

#[test]
fn hex_token_in_upper_case() {
    assert_eq!(parse_version("0xABCDEF"), Ok(0xab_cdef));
    assert_eq!(parse_version("0xAbCdEfL"), Ok(0xab_cdef));
}

#[test]
fn hex_token_needs_its_marker() {
    assert_eq!(parse_version("100020cfL"), Err(Error::MalformedVersionToken));
    assert_eq!(parse_version("0X100020cf"), Err(Error::MalformedVersionToken));
    assert_eq!(parse_version(""), Err(Error::MalformedVersionToken));
    assert_eq!(parse_version("0"), Err(Error::MalformedVersionToken));
    assert_eq!(parse_version(" 0x10"), Err(Error::MalformedVersionToken));
}

#[test]
fn hex_token_needs_digits() {
    assert_eq!(parse_version("0x"), Err(Error::MalformedVersionToken));
    assert_eq!(parse_version("0xL"), Err(Error::MalformedVersionToken));
    assert_eq!(parse_version("0xzz"), Err(Error::MalformedVersionToken));
}

#[test]
fn hex_token_with_something_between_the_digits() {
    assert_eq!(parse_version("0x10 20"), Err(Error::MalformedVersionToken));
    assert_eq!(parse_version("0x10L0"), Err(Error::MalformedVersionToken));
    assert_eq!(parse_version("0x10_20"), Err(Error::MalformedVersionToken));
}

#[test]
fn hex_token_with_a_sign_is_malformed() {
    assert_eq!(parse_version("0x+1f"), Err(Error::MalformedVersionToken));
    assert_eq!(parse_version("0x+30100000"), Err(Error::MalformedVersionToken));
    assert_eq!(parse_version("0x+30100000L"), Err(Error::MalformedVersionToken));
    assert_eq!(parse_version("0x+"), Err(Error::MalformedVersionToken));
    assert_eq!(parse_version("0x++1"), Err(Error::MalformedVersionToken));
    assert_eq!(parse_version("0x-1"), Err(Error::MalformedVersionToken));
    assert_eq!(parse_version("0x1+"), Ok(1));
    assert_eq!(parse_version("0x1+2"), Err(Error::MalformedVersionToken));
}

#[test]
fn hex_token_at_the_limit_of_sixty_four_bits() {
    assert_eq!(parse_version("0xffffffffffffffff"), Ok(u64::MAX));
    assert_eq!(parse_version("0x10000000000000000"), Err(Error::MalformedVersionToken));
    assert_eq!(parse_version("0x00000000000000000001"), Ok(1));
    assert_eq!(parse_version("0x0000000000000000ffffffffffffffffL"), Ok(u64::MAX));
}

#[test]
fn hex_groups_come_back_by_masking() {
    let samples: [u64; 9] = [0x00, 0x01, 0x0f, 0x10, 0x7f, 0x80, 0xc0, 0xfe, 0xff];
    for a in samples {
        for b in samples {
            for c in samples {
                for d in samples {
                    let token = format!("0x{:02x}{:02x}{:02x}{:02x}L", a, b, c, d);
                    let version = parse_version(&token).unwrap();
                    assert_eq!((version >> 24) & 0xff, a);
                    assert_eq!((version >> 16) & 0xff, b);
                    assert_eq!((version >> 8) & 0xff, c);
                    assert_eq!(version & 0xff, d);
                }
            }
        }
    }
}

#[test]
fn dotted_token() {
    assert_eq!(parse_new_version("3_0_0"), Ok(0x3000_0000));
    assert_eq!(parse_new_version("3_1_0"), Ok(0x3010_0000));
    assert_eq!(parse_new_version("3_2_1"), Ok(0x3020_0010));
    assert_eq!(parse_new_version("1_1_1"), Ok(0x1010_0010));
    assert_eq!(parse_new_version("0_0_0"), Ok(0));
}

#[test]
fn dotted_token_needs_three_components() {
    assert_eq!(parse_new_version("3_0"), Err(Error::MalformedVersionToken));
    assert_eq!(parse_new_version("3"), Err(Error::MalformedVersionToken));
    assert_eq!(parse_new_version(""), Err(Error::MalformedVersionToken));
    assert_eq!(parse_new_version("3_0_"), Err(Error::MalformedVersionToken));
    assert_eq!(parse_new_version("3__0"), Err(Error::MalformedVersionToken));
    assert_eq!(parse_new_version("_3_0_0"), Err(Error::MalformedVersionToken));
}

#[test]
fn dotted_token_needs_numbers() {
    assert_eq!(parse_new_version("a_b_c"), Err(Error::MalformedVersionToken));
    assert_eq!(parse_new_version("3_0_x"), Err(Error::MalformedVersionToken));
    assert_eq!(parse_new_version("3_0_-1"), Err(Error::MalformedVersionToken));
    assert_eq!(parse_new_version("3.0.0"), Err(Error::MalformedVersionToken));
    assert_eq!(parse_new_version("3_0_0L"), Err(Error::MalformedVersionToken));
    assert_eq!(parse_new_version("3_0_f"), Err(Error::MalformedVersionToken));
}

#[test]
fn dotted_token_with_more_than_three_components() {
    assert_eq!(parse_new_version("3_0_0_9"), Ok(0x3000_0000));
    assert_eq!(parse_new_version("3_0_0_"), Ok(0x3000_0000));
    assert_eq!(parse_new_version("3_0_0_x"), Ok(0x3000_0000));
}

#[test]
fn dotted_token_with_a_sign_is_malformed() {
    assert_eq!(parse_new_version("+3_0_0"), Err(Error::MalformedVersionToken));
    assert_eq!(parse_new_version("3_+0_0"), Err(Error::MalformedVersionToken));
    assert_eq!(parse_new_version("3_0_+0"), Err(Error::MalformedVersionToken));
    assert_eq!(parse_new_version("+3_+0_+0"), Err(Error::MalformedVersionToken));
    assert_eq!(parse_new_version("-3_0_0"), Err(Error::MalformedVersionToken));
    assert_eq!(parse_new_version("+_0_0"), Err(Error::MalformedVersionToken));
    assert_eq!(parse_new_version("3_0_0_+1"), Ok(0x3000_0000));
}

#[test]
fn dotted_token_with_leading_zeros() {
    assert_eq!(parse_new_version("03_000_00"), Ok(0x3000_0000));
    assert_eq!(parse_new_version("000000000000000000000003_1_0"), Ok(0x3010_0000));
}

#[test]
fn dotted_token_at_the_limit_of_sixty_four_bits() {
    assert_eq!(
        parse_new_version("18446744073709551616_0_0"),
        Err(Error::MalformedVersionToken)
    );
    assert_eq!(parse_new_version("18446744073709551615_0_0"), Ok(0xffff_ffff_f000_0000));
    assert_eq!(parse_new_version("0_0_18446744073709551615"), Ok(0xffff_ffff_ffff_fff0));
}

#[test]
fn dotted_triples_up_to_255_pack_as_shifts() {
    let samples: [u64; 12] = [0, 1, 2, 9, 10, 11, 99, 100, 127, 128, 254, 255];
    for a in samples {
        for b in samples {
            for c in samples {
                let token = format!("{}_{}_{}", a, b, c);
                assert_eq!(parse_new_version(&token), Ok((a << 28) | (b << 20) | (c << 4)));
            }
        }
    }
    for n in 0..=255u64 {
        assert_eq!(parse_new_version(&format!("{}_0_0", n)), Ok(n << 28));
        assert_eq!(parse_new_version(&format!("0_{}_0", n)), Ok(n << 20));
        assert_eq!(parse_new_version(&format!("0_0_{}", n)), Ok(n << 4));
    }
}

#[test]
fn dotted_version_has_status_zero_and_compares_with_hex_versions() {
    let dotted = parse_new_version("3_0_0").unwrap();
    let hex = parse_version("0x1010117fL").unwrap();
    assert_eq!(status(dotted), 0);
    assert_eq!(status(hex), 0xf);
    assert!(hex < dotted);
}

#[test]
fn fields_of_an_encoded_version() {
    let version: u64 = 0x1000_20cf;
    assert_eq!(major(version), 1);
    assert_eq!(minor(version), 0);
    assert_eq!(fix(version), 2);
    assert_eq!(patch(version), 0x0c);
    assert_eq!(status(version), 0xf);
    let fork: u64 = 0x2090_100f;
    assert_eq!((major(fork), minor(fork), fix(fork)), (2, 9, 1));
}

#[test]
fn versions_are_ordered_as_their_fields() {
    let versions: [u64; 8] = [
        0x0090_80ff,
        0x1000_100f,
        0x1000_20cf,
        0x1010_0000,
        0x1010_107f,
        0x3000_0000,
        0x3000_0010,
        0x3020_0000,
    ];
    for a in versions {
        for b in versions {
            let fields_a = (major(a), minor(a), fix(a), patch(a), status(a));
            let fields_b = (major(b), minor(b), fix(b), patch(b), status(b));
            assert_eq!(a < b, fields_a < fields_b);
            assert_eq!(a == b, fields_a == fields_b);
        }
    }
}

#[test]
fn hex_tokens_read_as_digits_that_the_standard_library_reads() {
    let tokens = [
        "0x100020cfL", "0x30000000", "0x", "0xL", "0x+1", "0x+", "0x-1", "0x 1", "0x1 ", "0x1L2",
        "0xffffffffffffffffL", "0x1ffffffffffffffffL", "0xg", "0x0g0", "1x10", "0x１２", "0x1fé",
        "0xé1f", "", "0", "0x0", "0x00000000000000000000000000000000000000001UL", "0xDEADbeef",
        "0x+ff__", "0x٣", "x0", "0x\u{a0}", "0x+30100000", "0x-30100000", "0x30100000+",
    ];
    for token in tokens {
        assert_eq!(parse_version(token).ok(), reference_hex(token), "token {:?}", token);
    }
}

#[test]
fn dotted_tokens_read_as_digits_that_the_standard_library_reads() {
    let tokens = [
        "3_0_0", "3_0", "3", "", "_", "__", "___", "3_0_0_0", "1_2_3_x", "x_1_2_3", "+1_+2_+3",
        "-1_2_3", "1_2_3 ", " 1_2_3", "01_02_03", "18446744073709551615_1_1",
        "18446744073709551616_1_1", "1_18446744073709551615_1", "255_255_255", "256_256_256",
        "٣_0_0", "3_0_0é", "é_3_0_0", "3_0_0_é", "1__2_3", "1_2__3", "4294967296_4294967296_1",
    ];
    for token in tokens {
        assert_eq!(parse_new_version(token).ok(), reference_dotted(token), "token {:?}", token);
    }
}

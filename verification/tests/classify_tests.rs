use openssl_classifier::classify::{classify, observe, ClassificationResult, Markers, Observation};
use openssl_classifier::error::Error;
use openssl_classifier::text::chars_of;
use openssl_classifier::variant::Variant;

fn found(variant: Variant, version: Option<u64>, tokens: &[&str]) -> ClassificationResult {
    ClassificationResult {
        variant,
        encoded_version: version,
        config_tokens: tokens.iter().map(|t| t.to_string()).collect(),
    }
}

fn digits_only(numeral: &str, radix: u32) -> Option<u64> {
    if numeral.is_empty() || !numeral.chars().all(|c| c.is_ascii() && c.is_digit(radix)) {
        return None;
    }
    u64::from_str_radix(numeral, radix).ok()
}

fn reference_hex(version: &str) -> Option<u64> {
    let rest = version.strip_prefix("0x")?;
    let rest = rest.trim_end_matches(|c: char| !c.is_ascii_hexdigit());
    digits_only(rest, 16)
}

fn reference_dotted(version: &str) -> Option<u64> {
    let mut it = version.split('_');
    let major = digits_only(it.next()?, 10)?;
    let minor = digits_only(it.next()?, 10)?;
    let patch = digits_only(it.next()?, 10)?;
    Some((major << 28) | (minor << 20) | (patch << 4))
}

fn reference_classify(expanded: &str) -> Result<ClassificationResult, Error> {
    let mut enabled = vec![];
    let mut openssl_version = None;
    let mut libressl_version = None;
    let mut is_boringssl = false;
    for line in expanded.lines() {
        let line = line.trim();
        if let Some(version) = line.strip_prefix("RUST_VERSION_OPENSSL_") {
            openssl_version = Some(reference_hex(version).ok_or(Error::MalformedVersionToken)?);
        } else if let Some(version) = line.strip_prefix("RUST_VERSION_NEW_OPENSSL_") {
            openssl_version = Some(reference_dotted(version).ok_or(Error::MalformedVersionToken)?);
        } else if let Some(version) = line.strip_prefix("RUST_VERSION_LIBRESSL_") {
            libressl_version = Some(reference_hex(version).ok_or(Error::MalformedVersionToken)?);
        } else if line.starts_with("RUST_OPENSSL_IS_BORINGSSL") {
            is_boringssl = true;
        } else if let Some(conf) = line.strip_prefix("RUST_CONF_") {
            enabled.push(conf.to_string());
        }
    }
    if is_boringssl {
        Ok(ClassificationResult {
            variant: Variant::ForkB,
            encoded_version: None,
            config_tokens: enabled,
        })
    } else if let Some(version) = libressl_version {
        Ok(ClassificationResult {
            variant: Variant::ForkA,
            encoded_version: Some(version),
            config_tokens: enabled,
        })
    } else if let Some(version) = openssl_version {
        let variant = if version >= 0x3000_0000 {
            Variant::MainlineModern
        } else {
            Variant::MainlineLegacy
        };
        Ok(ClassificationResult {
            variant,
            encoded_version: Some(version),
            config_tokens: enabled,
        })
    } else {
        Err(Error::NoVersionFound)
    }
}

#[test]
fn modern_mainline_from_a_dotted_version() {
    let text = "# 1 \"build/expando.c\"\n\nRUST_VERSION_NEW_OPENSSL_3_0_0\n";
    assert_eq!(classify(text), Ok(found(Variant::MainlineModern, Some(0x3000_0000), &[])));
}

#[test]
fn legacy_mainline_from_a_hex_version() {
    let text = "RUST_VERSION_OPENSSL_0x100020cfL\n";
    assert_eq!(classify(text), Ok(found(Variant::MainlineLegacy, Some(0x1000_20cf), &[])));
}

#[test]
fn modern_mainline_from_a_hex_version() {
    let text = "RUST_VERSION_OPENSSL_0x30100000L";
    assert_eq!(classify(text), Ok(found(Variant::MainlineModern, Some(0x3010_0000), &[])));
}

#[test]
fn fork_b_overrides_the_versions_in_the_text() {
    let text = "RUST_VERSION_OPENSSL_0x1010107fL\nRUST_OPENSSL_IS_BORINGSSL\nRUST_VERSION_NEW_OPENSSL_3_0_0\nRUST_VERSION_LIBRESSL_0x2090100fL\n";
    assert_eq!(classify(text), Ok(found(Variant::ForkB, None, &[])));
    assert_eq!(
        classify("RUST_OPENSSL_IS_BORINGSSL"),
        Ok(found(Variant::ForkB, None, &[]))
    );
    assert_eq!(
        classify("RUST_OPENSSL_IS_BORINGSSL_AND_MORE\nRUST_CONF_A"),
        Ok(found(Variant::ForkB, None, &["A"]))
    );
}

#[test]
fn fork_a_goes_before_mainline() {
    let first = "RUST_VERSION_LIBRESSL_0x2090500fL\nRUST_VERSION_OPENSSL_0x20000000L\n";
    let second = "RUST_VERSION_OPENSSL_0x20000000L\nRUST_VERSION_LIBRESSL_0x2090500fL\n";
    assert_eq!(classify(first), Ok(found(Variant::ForkA, Some(0x2090_500f), &[])));
    assert_eq!(classify(second), Ok(found(Variant::ForkA, Some(0x2090_500f), &[])));
}

#[test]
fn nothing_recognised() {
    assert_eq!(classify(""), Err(Error::NoVersionFound));
    assert_eq!(classify("\n\n\n"), Err(Error::NoVersionFound));
    assert_eq!(classify("int main(void) { return 0; }\n"), Err(Error::NoVersionFound));
    assert_eq!(classify("RUST_CONF_OPENSSL_NO_SSL3\n"), Err(Error::NoVersionFound));
    assert_eq!(classify("rust_version_openssl_0x10L\n"), Err(Error::NoVersionFound));
    assert_eq!(classify("x RUST_VERSION_OPENSSL_0x10L\n"), Err(Error::NoVersionFound));
    assert_eq!(classify("RUST_VERSION_OPENSSL\n"), Err(Error::NoVersionFound));
}

#[test]
fn malformed_version_is_fatal_wherever_it_stands() {
    assert_eq!(classify("RUST_VERSION_OPENSSL_"), Err(Error::MalformedVersionToken));
    assert_eq!(classify("RUST_VERSION_OPENSSL_100020cfL"), Err(Error::MalformedVersionToken));
    assert_eq!(classify("RUST_VERSION_NEW_OPENSSL_3_0"), Err(Error::MalformedVersionToken));
    assert_eq!(classify("RUST_VERSION_LIBRESSL_0x"), Err(Error::MalformedVersionToken));
    assert_eq!(
        classify("RUST_VERSION_OPENSSL_0x10L\nRUST_VERSION_OPENSSL_bad\nRUST_VERSION_OPENSSL_0x20L"),
        Err(Error::MalformedVersionToken)
    );
    assert_eq!(
        classify("RUST_OPENSSL_IS_BORINGSSL\nRUST_VERSION_NEW_OPENSSL_x_y_z\n"),
        Err(Error::MalformedVersionToken)
    );
    assert_eq!(
        classify("RUST_VERSION_NEW_OPENSSL_x_y_z\nRUST_OPENSSL_IS_BORINGSSL\n"),
        Err(Error::MalformedVersionToken)
    );
}

#[test]
fn a_version_with_a_sign_is_malformed() {
    assert_eq!(classify("RUST_VERSION_OPENSSL_0x+30100000"), Err(Error::MalformedVersionToken));
    assert_eq!(classify("RUST_VERSION_OPENSSL_0x+30100000L\n"), Err(Error::MalformedVersionToken));
    assert_eq!(classify("RUST_VERSION_LIBRESSL_0x+2090100fL\n"), Err(Error::MalformedVersionToken));
    assert_eq!(classify("RUST_VERSION_NEW_OPENSSL_+3_1_0\n"), Err(Error::MalformedVersionToken));
    assert_eq!(classify("RUST_VERSION_NEW_OPENSSL_3_1_-0\n"), Err(Error::MalformedVersionToken));
}

#[test]
fn the_last_version_of_a_kind_counts() {
    let text = "RUST_VERSION_OPENSSL_0x1000100fL\nRUST_VERSION_NEW_OPENSSL_3_2_0\nRUST_VERSION_OPENSSL_0x1010100fL\n";
    assert_eq!(classify(text), Ok(found(Variant::MainlineLegacy, Some(0x1010_100f), &[])));
    let fork = "RUST_VERSION_LIBRESSL_0x2050000fL\nRUST_VERSION_LIBRESSL_0x3090000fL";
    assert_eq!(classify(fork), Ok(found(Variant::ForkA, Some(0x3090_000f), &[])));
}

#[test]
fn options_keep_their_order_and_their_repeats() {
    let text = "RUST_CONF_OPENSSL_NO_SSL3\nRUST_VERSION_NEW_OPENSSL_3_1_0\nRUST_CONF_OPENSSL_NO_BF\nRUST_CONF_OPENSSL_NO_SSL3\nRUST_CONF_\nRUST_CONF_a b\u{e9}\n";
    assert_eq!(
        classify(text),
        Ok(found(
            Variant::MainlineModern,
            Some(0x3010_0000),
            &["OPENSSL_NO_SSL3", "OPENSSL_NO_BF", "OPENSSL_NO_SSL3", "", "a b\u{e9}"]
        ))
    );
}

#[test]
fn lines_are_trimmed_before_they_are_read() {
    let text = "  \t RUST_VERSION_NEW_OPENSSL_3_0_0 \r\n\u{a0}RUST_CONF_A\u{3000}\r\n\u{b}RUST_CONF_B B \u{c}";
    assert_eq!(
        classify(text),
        Ok(found(Variant::MainlineModern, Some(0x3000_0000), &["A", "B B"]))
    );
}

#[test]
fn a_carriage_return_alone_ends_no_line() {
    let text = "RUST_CONF_A\rRUST_VERSION_OPENSSL_0x10L\n";
    assert_eq!(classify(text), Err(Error::NoVersionFound));
    let text = "RUST_VERSION_OPENSSL_0x10L\rRUST_CONF_A\n";
    assert_eq!(classify(text), Err(Error::MalformedVersionToken));
}

#[test]
fn what_follows_the_type_suffix_on_the_line_is_dropped() {
    let text = "RUST_VERSION_OPENSSL_0x1010107fL /* 1.1.1g */\n";
    assert_eq!(classify(text), Err(Error::MalformedVersionToken));
    let text = "RUST_VERSION_OPENSSL_0x1010107fL;\n";
    assert_eq!(classify(text), Ok(found(Variant::MainlineLegacy, Some(0x1010_107f), &[])));
}

#[test]
fn classifying_twice_gives_the_same() {
    let texts = [
        "",
        "RUST_VERSION_NEW_OPENSSL_3_0_0\nRUST_CONF_A\nRUST_CONF_B\n",
        "RUST_OPENSSL_IS_BORINGSSL\nRUST_CONF_A\n",
        "RUST_VERSION_LIBRESSL_0x2090500fL\n",
        "RUST_VERSION_OPENSSL_zzz\n",
    ];
    for text in texts {
        let first = classify(text);
        let second = classify(&text.to_string());
        assert_eq!(first, second);
        assert_eq!(format!("{:?}", first), format!("{:?}", second));
    }
}

#[test]
fn texts_are_classified_as_line_by_line_reading_classifies_them() {
    let pieces = [
        "", " ", "\n", "\r\n", "\r", "\t", "\u{a0}", "\u{2028}", "\u{85}", "\u{b}",
        "RUST_VERSION_OPENSSL_0x100020cfL", "RUST_VERSION_OPENSSL_0x30000000",
        "RUST_VERSION_OPENSSL_", "RUST_VERSION_OPENSSL_0x", "RUST_VERSION_NEW_OPENSSL_3_0_0",
        "RUST_VERSION_OPENSSL_0x+30100000L", "RUST_VERSION_NEW_OPENSSL_+3_1_0",
        "RUST_VERSION_NEW_OPENSSL_3_2_1_7", "RUST_VERSION_NEW_OPENSSL_3_2",
        "RUST_VERSION_LIBRESSL_0x2090100fL", "RUST_VERSION_LIBRESSL_0x3090000fL",
        "RUST_VERSION_LIBRESSL_nope", "RUST_OPENSSL_IS_BORINGSSL", "RUST_OPENSSL_IS_BORINGSSLX",
        "RUST_OPENSSL_IS_BORING", "RUST_CONF_OPENSSL_NO_SSL3", "RUST_CONF_", "RUST_CONF",
        "RUST_", "# 1 \"expando.c\"", "é",
    ];
    let mut checked = 0;
    for a in pieces {
        assert_eq!(classify(a), reference_classify(a), "text {:?}", a);
        for b in pieces {
            for sep in ["\n", "\r\n", " ", ""] {
                let text = format!("{}{}{}", a, sep, b);
                assert_eq!(classify(&text), reference_classify(&text), "text {:?}", text);
                let text = format!("{}{}{}{}RUST_CONF_Z\n", a, sep, b, sep);
                assert_eq!(classify(&text), reference_classify(&text), "text {:?}", text);
                checked += 2;
            }
        }
    }
    assert_eq!(checked, 2 * 4 * pieces.len() * pieces.len());
}

#[test]
fn observe_reads_one_line() {
    let markers = Markers::new();
    let chars = chars_of("ab  RUST_CONF_X Y  cd");
    assert_eq!(
        observe(&chars, 2, 19, &markers),
        Observation::Config { from: 14, to: 17 }
    );
    assert_eq!(observe(&chars, 0, 21, &markers), Observation::Nothing);
    let chars = chars_of(" RUST_VERSION_OPENSSL_0x10L ");
    assert_eq!(observe(&chars, 0, chars.len(), &markers), Observation::Mainline(0x10));
    assert_eq!(observe(&chars, 0, 24, &markers), Observation::Malformed);
    let chars = chars_of("RUST_VERSION_LIBRESSL_0x2090100fL");
    assert_eq!(observe(&chars, 0, chars.len(), &markers), Observation::ForkA(0x2090_100f));
    let chars = chars_of("RUST_VERSION_NEW_OPENSSL_3_1_4");
    assert_eq!(observe(&chars, 0, chars.len(), &markers), Observation::Mainline(0x3010_0040));
    let chars = chars_of("RUST_OPENSSL_IS_BORINGSSL");
    assert_eq!(observe(&chars, 0, chars.len(), &markers), Observation::ForkB);
    assert_eq!(observe(&chars, 0, chars.len() - 1, &markers), Observation::Nothing);
    assert_eq!(observe(&chars, 3, 3, &markers), Observation::Nothing);
}

#[test]
fn the_markers_are_spelled_as_the_headers_spell_them() {
    let markers = Markers::new();
    let spell = |chars: &Vec<char>| chars.iter().collect::<String>();
    assert_eq!(spell(&markers.mainline_hex), "RUST_VERSION_OPENSSL_");
    assert_eq!(spell(&markers.mainline_dotted), "RUST_VERSION_NEW_OPENSSL_");
    assert_eq!(spell(&markers.fork_a), "RUST_VERSION_LIBRESSL_");
    assert_eq!(spell(&markers.fork_b), "RUST_OPENSSL_IS_BORINGSSL");
    assert_eq!(spell(&markers.config), "RUST_CONF_");
}

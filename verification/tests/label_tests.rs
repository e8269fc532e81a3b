use openssl_classifier::error::{Error, SupportWindow};
use openssl_classifier::label::{label_entries, resolve_label, search, LabelEntry};

#[test]
fn release_with_a_row_of_its_own() {
    assert_eq!(resolve_label(2, 5, 0), Ok("250"));
    assert_eq!(resolve_label(2, 5, 2), Ok("252"));
    assert_eq!(resolve_label(2, 9, 0), Ok("290"));
    assert_eq!(resolve_label(3, 7, 1), Ok("371"));
    assert_eq!(resolve_label(3, 9, 0), Ok("390"));
}

#[test]
fn release_of_a_known_line_without_a_row_of_its_own() {
    assert_eq!(resolve_label(2, 9, 5), Ok("29x"));
    assert_eq!(resolve_label(2, 5, 3), Ok("25x"));
    assert_eq!(resolve_label(2, 7, 0), Ok("27x"));
    assert_eq!(resolve_label(3, 5, 0), Ok("35x"));
    assert_eq!(resolve_label(3, 9, 255), Ok("39x"));
    assert_eq!(resolve_label(3, 0, u64::MAX), Ok("30x"));
}

#[test]
fn release_of_an_unknown_line() {
    assert_eq!(
        resolve_label(4, 0, 0),
        Err(Error::UnsupportedVersion {
            detected: 0x4000_0000,
            supported: SupportWindow::LabelTable
        })
    );
    assert_eq!(
        resolve_label(2, 4, 1),
        Err(Error::UnsupportedVersion {
            detected: 0x2040_1000,
            supported: SupportWindow::LabelTable
        })
    );
    assert!(resolve_label(2, 10, 0).is_err());
    assert!(resolve_label(3, 10, 0).is_err());
    assert!(resolve_label(1, 5, 0).is_err());
    assert!(resolve_label(0, 0, 0).is_err());
    assert!(resolve_label(0x102, 5, 0).is_err());
}

#[test]
fn every_release_of_a_listed_line_resolves() {
    let table = label_entries();
    for entry in &table {
        for patch in (0..=300u64).chain([u64::MAX]) {
            let label = resolve_label(entry.major, entry.minor, patch).unwrap();
            let line = format!("{}{}", entry.major, entry.minor);
            assert!(
                label == format!("{}{}", line, patch) || label == format!("{}x", line),
                "{}.{}.{} gave {}",
                entry.major,
                entry.minor,
                patch,
                label
            );
        }
    }
}

#[test]
fn a_line_resolves_only_if_it_is_listed() {
    let table = label_entries();
    for major in 0..=5u64 {
        for minor in 0..=12u64 {
            let listed = table.iter().any(|e| e.major == major && e.minor == minor);
            for patch in 0..=4u64 {
                assert_eq!(resolve_label(major, minor, patch).is_ok(), listed);
            }
        }
    }
}

#[test]
fn labels_have_three_characters_and_spell_their_row() {
    let table = label_entries();
    assert_eq!(table.len(), 38);
    for entry in &table {
        let expected = match entry.patch {
            Some(patch) => format!("{}{}{}", entry.major, entry.minor, patch),
            None => format!("{}{}x", entry.major, entry.minor),
        };
        assert_eq!(entry.label, expected);
        assert_eq!(entry.label.chars().count(), 3);
    }
}

#[test]
fn every_listed_line_has_its_wildcard_and_no_row_twice() {
    let table = label_entries();
    for (i, entry) in table.iter().enumerate() {
        assert!(table
            .iter()
            .any(|e| e.major == entry.major && e.minor == entry.minor && e.patch.is_none()));
        assert!(table[..i].iter().all(|e| (e.major, e.minor, e.patch)
            != (entry.major, entry.minor, entry.patch)));
    }
}

#[test]
fn search_prefers_the_row_of_the_release_to_the_wildcard() {
    let table = vec![
        LabelEntry { major: 1, minor: 2, patch: None, label: "12x" },
        LabelEntry { major: 1, minor: 2, patch: Some(3), label: "123" },
        LabelEntry { major: 1, minor: 2, patch: Some(3), label: "later" },
        LabelEntry { major: 1, minor: 3, patch: Some(0), label: "130" },
    ];
    assert_eq!(search(&table, 1, 2, 3), Some("123"));
    assert_eq!(search(&table, 1, 2, 4), Some("12x"));
    assert_eq!(search(&table, 1, 3, 0), Some("130"));
    assert_eq!(search(&table, 1, 3, 1), None);
    assert_eq!(search(&table, 2, 2, 3), None);
    assert_eq!(search(&Vec::new(), 1, 2, 3), None);
}

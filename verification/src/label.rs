//! The legacy label table: display labels for the releases of the
//! LibreSSL-like fork.
//!
//! A release is named by three numbers: major, minor and patch. Releases
//! that the table lists have a label of their own; any other release of a
//! listed line has the label of the line, which ends in `x`.

use crate::error::{Error, SupportWindow};
use vstd::prelude::*;

verus! {

/// One row of the label table. A row without a patch number stands for
/// every release of its line that has no row of its own.
#[derive(Clone, Copy, Debug)]
pub struct LabelEntry {
    pub major: u64,
    pub minor: u64,
    pub patch: Option<u64>,
    pub label: &'static str,
}

/// A row of the label table, with the label as its characters.
pub struct LabelRow {
    pub major: u64,
    pub minor: u64,
    pub patch: Option<u64>,
    pub label: Seq<char>,
}

impl View for LabelEntry {
    type V = LabelRow;

    open spec fn view(&self) -> LabelRow {
        LabelRow { major: self.major, minor: self.minor, patch: self.patch, label: self.label@ }
    }
}

/// The rows of an executable table.
pub open spec fn label_rows(table: Seq<LabelEntry>) -> Seq<LabelRow> {
    table.map_values(|entry: LabelEntry| entry@)
}

/// A row for one release.
pub open spec fn exact(major: u64, minor: u64, patch: u64, label: Seq<char>) -> LabelRow {
    LabelRow { major, minor, patch: Some(patch), label }
}

/// A row for the other releases of a line.
pub open spec fn wildcard(major: u64, minor: u64, label: Seq<char>) -> LabelRow {
    LabelRow { major, minor, patch: None, label }
}

/// The label table.
pub open spec fn label_table() -> Seq<LabelRow> {
    seq![
        exact(2, 5, 0, "250"@),
        exact(2, 5, 1, "251"@),
        exact(2, 5, 2, "252"@),
        wildcard(2, 5, "25x"@),
        exact(2, 6, 0, "260"@),
        exact(2, 6, 1, "261"@),
        exact(2, 6, 2, "262"@),
        wildcard(2, 6, "26x"@),
        wildcard(2, 7, "27x"@),
        exact(2, 8, 0, "280"@),
        exact(2, 8, 1, "281"@),
        wildcard(2, 8, "28x"@),
        exact(2, 9, 0, "290"@),
        wildcard(2, 9, "29x"@),
        exact(3, 0, 0, "300"@),
        exact(3, 0, 1, "301"@),
        wildcard(3, 0, "30x"@),
        exact(3, 1, 0, "310"@),
        wildcard(3, 1, "31x"@),
        exact(3, 2, 0, "320"@),
        exact(3, 2, 1, "321"@),
        wildcard(3, 2, "32x"@),
        exact(3, 3, 0, "330"@),
        exact(3, 3, 1, "331"@),
        wildcard(3, 3, "33x"@),
        exact(3, 4, 0, "340"@),
        wildcard(3, 4, "34x"@),
        wildcard(3, 5, "35x"@),
        exact(3, 6, 0, "360"@),
        wildcard(3, 6, "36x"@),
        exact(3, 7, 0, "370"@),
        exact(3, 7, 1, "371"@),
        wildcard(3, 7, "37x"@),
        exact(3, 8, 0, "380"@),
        exact(3, 8, 1, "381"@),
        wildcard(3, 8, "38x"@),
        exact(3, 9, 0, "390"@),
        wildcard(3, 9, "39x"@),
    ]
}

/// The label of the first row of `table` for exactly this release.
pub open spec fn find_exact(table: Seq<LabelRow>, major: u64, minor: u64, patch: u64) -> Option<
    Seq<char>,
>
    decreases table.len(),
{
    if table.len() == 0 {
        None
    } else if table.first().major == major && table.first().minor == minor
        && table.first().patch == Some(patch) {
        Some(table.first().label)
    } else {
        find_exact(table.drop_first(), major, minor, patch)
    }
}

/// The label of the first wildcard row of `table` for this line.
pub open spec fn find_wildcard(table: Seq<LabelRow>, major: u64, minor: u64) -> Option<Seq<char>>
    decreases table.len(),
{
    if table.len() == 0 {
        None
    } else if table.first().major == major && table.first().minor == minor
        && table.first().patch is None {
        Some(table.first().label)
    } else {
        find_wildcard(table.drop_first(), major, minor)
    }
}

/// The label that `table` gives a release: that of its own row if it has
/// one, else that of its line's wildcard row, else none.
pub open spec fn lookup(table: Seq<LabelRow>, major: u64, minor: u64, patch: u64) -> Option<
    Seq<char>,
> {
    match find_exact(table, major, minor, patch) {
        Some(label) => Some(label),
        None => find_wildcard(table, major, minor),
    }
}

/// The encoded version of the release `major.minor.fix`, with patch and
/// status zero.
pub open spec fn release_version(major: u64, minor: u64, fix: u64) -> u64 {
    (major << 28) | (minor << 20) | (fix << 12)
}

/// The label of a release, line by line: what the label table gives it.
pub open spec fn release_label(major: u64, minor: u64, patch: u64) -> Option<Seq<char>> {
    if major == 2 {
        if minor == 5 {
            if patch == 0 {
                Some("250"@)
            } else if patch == 1 {
                Some("251"@)
            } else if patch == 2 {
                Some("252"@)
            } else {
                Some("25x"@)
            }
        } else if minor == 6 {
            if patch == 0 {
                Some("260"@)
            } else if patch == 1 {
                Some("261"@)
            } else if patch == 2 {
                Some("262"@)
            } else {
                Some("26x"@)
            }
        } else if minor == 7 {
            Some("27x"@)
        } else if minor == 8 {
            if patch == 0 {
                Some("280"@)
            } else if patch == 1 {
                Some("281"@)
            } else {
                Some("28x"@)
            }
        } else if minor == 9 {
            if patch == 0 {
                Some("290"@)
            } else {
                Some("29x"@)
            }
        } else {
            None
        }
    } else if major == 3 {
        if minor == 0 {
            if patch == 0 {
                Some("300"@)
            } else if patch == 1 {
                Some("301"@)
            } else {
                Some("30x"@)
            }
        } else if minor == 1 {
            if patch == 0 {
                Some("310"@)
            } else {
                Some("31x"@)
            }
        } else if minor == 2 {
            if patch == 0 {
                Some("320"@)
            } else if patch == 1 {
                Some("321"@)
            } else {
                Some("32x"@)
            }
        } else if minor == 3 {
            if patch == 0 {
                Some("330"@)
            } else if patch == 1 {
                Some("331"@)
            } else {
                Some("33x"@)
            }
        } else if minor == 4 {
            if patch == 0 {
                Some("340"@)
            } else {
                Some("34x"@)
            }
        } else if minor == 5 {
            Some("35x"@)
        } else if minor == 6 {
            if patch == 0 {
                Some("360"@)
            } else {
                Some("36x"@)
            }
        } else if minor == 7 {
            if patch == 0 {
                Some("370"@)
            } else if patch == 1 {
                Some("371"@)
            } else {
                Some("37x"@)
            }
        } else if minor == 8 {
            if patch == 0 {
                Some("380"@)
            } else if patch == 1 {
                Some("381"@)
            } else {
                Some("38x"@)
            }
        } else if minor == 9 {
            if patch == 0 {
                Some("390"@)
            } else {
                Some("39x"@)
            }
        } else {
            None
        }
    } else {
        None
    }
}

/// The label of a release, or the failure of a release that the table does
/// not cover.
pub open spec fn label_of(major: u64, minor: u64, patch: u64) -> Result<Seq<char>, Error> {
    match release_label(major, minor, patch) {
        Some(label) => Ok(label),
        None => Err(
            Error::UnsupportedVersion {
                detected: release_version(major, minor, patch),
                supported: SupportWindow::LabelTable,
            },
        ),
    }
}

fn exact_entry(major: u64, minor: u64, patch: u64, label: &'static str) -> (entry: LabelEntry)
    ensures
        entry@ == exact(major, minor, patch, label@),
{
    LabelEntry { major, minor, patch: Some(patch), label }
}

fn wildcard_entry(major: u64, minor: u64, label: &'static str) -> (entry: LabelEntry)
    ensures
        entry@ == wildcard(major, minor, label@),
{
    LabelEntry { major, minor, patch: None, label }
}

/// Builds the label table.
pub fn label_entries() -> (table: Vec<LabelEntry>)
    ensures
        label_rows(table@) == label_table(),
{
    let mut table: Vec<LabelEntry> = Vec::new();
    table.push(exact_entry(2, 5, 0, "250"));
    table.push(exact_entry(2, 5, 1, "251"));
    table.push(exact_entry(2, 5, 2, "252"));
    table.push(wildcard_entry(2, 5, "25x"));
    table.push(exact_entry(2, 6, 0, "260"));
    table.push(exact_entry(2, 6, 1, "261"));
    table.push(exact_entry(2, 6, 2, "262"));
    table.push(wildcard_entry(2, 6, "26x"));
    table.push(wildcard_entry(2, 7, "27x"));
    table.push(exact_entry(2, 8, 0, "280"));
    table.push(exact_entry(2, 8, 1, "281"));
    table.push(wildcard_entry(2, 8, "28x"));
    table.push(exact_entry(2, 9, 0, "290"));
    table.push(wildcard_entry(2, 9, "29x"));
    table.push(exact_entry(3, 0, 0, "300"));
    table.push(exact_entry(3, 0, 1, "301"));
    table.push(wildcard_entry(3, 0, "30x"));
    table.push(exact_entry(3, 1, 0, "310"));
    table.push(wildcard_entry(3, 1, "31x"));
    table.push(exact_entry(3, 2, 0, "320"));
    table.push(exact_entry(3, 2, 1, "321"));
    table.push(wildcard_entry(3, 2, "32x"));
    table.push(exact_entry(3, 3, 0, "330"));
    table.push(exact_entry(3, 3, 1, "331"));
    table.push(wildcard_entry(3, 3, "33x"));
    table.push(exact_entry(3, 4, 0, "340"));
    table.push(wildcard_entry(3, 4, "34x"));
    table.push(wildcard_entry(3, 5, "35x"));
    table.push(exact_entry(3, 6, 0, "360"));
    table.push(wildcard_entry(3, 6, "36x"));
    table.push(exact_entry(3, 7, 0, "370"));
    table.push(exact_entry(3, 7, 1, "371"));
    table.push(wildcard_entry(3, 7, "37x"));
    table.push(exact_entry(3, 8, 0, "380"));
    table.push(exact_entry(3, 8, 1, "381"));
    table.push(wildcard_entry(3, 8, "38x"));
    table.push(exact_entry(3, 9, 0, "390"));
    table.push(wildcard_entry(3, 9, "39x"));
    assert(label_rows(table@) =~= label_table());
    table
}

/// Looks a release up in `table`: first among the rows for single
/// releases, then among the wildcard rows.
pub fn search(table: &Vec<LabelEntry>, major: u64, minor: u64, patch: u64) -> (found: Option<
    &'static str,
>)
    ensures
        match found {
            Some(label) => lookup(label_rows(table@), major, minor, patch) == Some(label@),
            None => lookup(label_rows(table@), major, minor, patch) is None,
        },
{
    let ghost all = label_rows(table@);
    proof {
        assert(all.skip(0) =~= all);
    }
    let mut i: usize = 0;
    while i < table.len()
        invariant
            i <= table.len(),
            all == label_rows(table@),
            find_exact(all, major, minor, patch) == find_exact(
                all.skip(i as int),
                major,
                minor,
                patch,
            ),
        decreases table.len() - i,
    {
        let entry = table[i];
        proof {
            assert(all.skip(i as int).first() == entry@);
            assert(all.skip(i as int).drop_first() =~= all.skip(i + 1));
        }
        if entry.major == major && entry.minor == minor {
            match entry.patch {
                Some(p) => {
                    if p == patch {
                        return Some(entry.label);
                    }
                },
                None => {},
            }
        }
        i += 1;
    }
    let mut j: usize = 0;
    while j < table.len()
        invariant
            j <= table.len(),
            all == label_rows(table@),
            find_exact(all, major, minor, patch) is None,
            find_wildcard(all, major, minor) == find_wildcard(all.skip(j as int), major, minor),
        decreases table.len() - j,
    {
        let entry = table[j];
        proof {
            assert(all.skip(j as int).first() == entry@);
            assert(all.skip(j as int).drop_first() =~= all.skip(j + 1));
        }
        if entry.major == major && entry.minor == minor && entry.patch.is_none() {
            return Some(entry.label);
        }
        j += 1;
    }
    None
}

/// Resolves the display label of the release `major.minor.patch`. The
/// third number of a release of this fork is what its encoded version holds
/// in the fix field.
pub fn resolve_label(major: u64, minor: u64, patch: u64) -> (resolved: Result<&'static str, Error>)
    ensures
        match resolved {
            Ok(label) => label_of(major, minor, patch) == Ok::<Seq<char>, Error>(label@),
            Err(e) => label_of(major, minor, patch) == Err::<Seq<char>, Error>(e),
        },
{
    let table = label_entries();
    proof {
        lemma_table_gives_release_label(major, minor, patch);
    }
    match search(&table, major, minor, patch) {
        Some(label) => Ok(label),
        None => Err(
            Error::UnsupportedVersion {
                detected: (major << 28) | (minor << 20) | (patch << 12),
                supported: SupportWindow::LabelTable,
            },
        ),
    }
}

/// A release whose first row in `table` is row `i` has the label of that row.
pub proof fn lemma_exact_row(table: Seq<LabelRow>, i: int)
    requires
        0 <= i < table.len(),
        table[i].patch is Some,
        forall|j: int|
            0 <= j < i ==> !((#[trigger] table[j]).major == table[i].major && table[j].minor
                == table[i].minor && table[j].patch == table[i].patch),
    ensures
        find_exact(table, table[i].major, table[i].minor, table[i].patch->0) == Some(
            table[i].label,
        ),
        lookup(table, table[i].major, table[i].minor, table[i].patch->0) == Some(table[i].label),
    decreases i,
{
    if i > 0 {
        let rest = table.drop_first();
        assert(rest[i - 1] == table[i]);
        assert forall|j: int| 0 <= j < i - 1 implies !((#[trigger] rest[j]).major == rest[i
            - 1].major && rest[j].minor == rest[i - 1].minor && rest[j].patch == rest[i
            - 1].patch) by {
            assert(rest[j] == table[j + 1]);
        }
        assert(!(table[0].major == table[i].major && table[0].minor == table[i].minor
            && table[0].patch == table[i].patch));
        lemma_exact_row(rest, i - 1);
    }
}

/// A release without a row of its own, whose line has its first wildcard
/// row at `i`, has the label of that row.
pub proof fn lemma_wildcard_row(table: Seq<LabelRow>, i: int, patch: u64)
    requires
        0 <= i < table.len(),
        table[i].patch is None,
        forall|j: int|
            0 <= j < i ==> !((#[trigger] table[j]).major == table[i].major && table[j].minor
                == table[i].minor && table[j].patch is None),
        forall|j: int|
            0 <= j < table.len() ==> !((#[trigger] table[j]).major == table[i].major
                && table[j].minor == table[i].minor && table[j].patch == Some(patch)),
    ensures
        lookup(table, table[i].major, table[i].minor, patch) == Some(table[i].label),
{
    lemma_no_exact_row(table, table[i].major, table[i].minor, patch);
    lemma_first_wildcard(table, i);
}

/// Where no row is for exactly this release, none is found.
pub proof fn lemma_no_exact_row(table: Seq<LabelRow>, major: u64, minor: u64, patch: u64)
    requires
        forall|j: int|
            0 <= j < table.len() ==> !((#[trigger] table[j]).major == major && table[j].minor
                == minor && table[j].patch == Some(patch)),
    ensures
        find_exact(table, major, minor, patch) is None,
    decreases table.len(),
{
    if table.len() > 0 {
        let rest = table.drop_first();
        assert forall|j: int| 0 <= j < rest.len() implies !((#[trigger] rest[j]).major == major
            && rest[j].minor == minor && rest[j].patch == Some(patch)) by {
            assert(rest[j] == table[j + 1]);
        }
        assert(!(table[0].major == major && table[0].minor == minor && table[0].patch == Some(
            patch,
        )));
        lemma_no_exact_row(rest, major, minor, patch);
    }
}

/// The first wildcard row of a line is the one that is found for it.
pub proof fn lemma_first_wildcard(table: Seq<LabelRow>, i: int)
    requires
        0 <= i < table.len(),
        table[i].patch is None,
        forall|j: int|
            0 <= j < i ==> !((#[trigger] table[j]).major == table[i].major && table[j].minor
                == table[i].minor && table[j].patch is None),
    ensures
        find_wildcard(table, table[i].major, table[i].minor) == Some(table[i].label),
    decreases i,
{
    if i > 0 {
        let rest = table.drop_first();
        assert(rest[i - 1] == table[i]);
        assert forall|j: int| 0 <= j < i - 1 implies !((#[trigger] rest[j]).major == rest[i
            - 1].major && rest[j].minor == rest[i - 1].minor && rest[j].patch is None) by {
            assert(rest[j] == table[j + 1]);
        }
        assert(!(table[0].major == table[i].major && table[0].minor == table[i].minor
            && table[0].patch is None));
        lemma_first_wildcard(rest, i - 1);
    }
}

/// The label table read row by row is `release_label`: a release with a
/// row of its own has the label of that row, any other release of a listed
/// line has the label of the line, and no other release has a label.
pub proof fn lemma_table_gives_release_label(major: u64, minor: u64, patch: u64)
    ensures
        lookup(label_table(), major, minor, patch) == release_label(major, minor, patch),
{
    let table = label_table();
    if major == 2 && minor == 5 {
        if patch == 0 {
            lemma_exact_row(table, 0);
        } else if patch == 1 {
            lemma_exact_row(table, 1);
        } else if patch == 2 {
            lemma_exact_row(table, 2);
        } else {
            lemma_wildcard_row(table, 3, patch);
        }
    } else if major == 2 && minor == 6 {
        if patch == 0 {
            lemma_exact_row(table, 4);
        } else if patch == 1 {
            lemma_exact_row(table, 5);
        } else if patch == 2 {
            lemma_exact_row(table, 6);
        } else {
            lemma_wildcard_row(table, 7, patch);
        }
    } else if major == 2 && minor == 7 {
        lemma_wildcard_row(table, 8, patch);
    } else if major == 2 && minor == 8 {
        if patch == 0 {
            lemma_exact_row(table, 9);
        } else if patch == 1 {
            lemma_exact_row(table, 10);
        } else {
            lemma_wildcard_row(table, 11, patch);
        }
    } else if major == 2 && minor == 9 {
        if patch == 0 {
            lemma_exact_row(table, 12);
        } else {
            lemma_wildcard_row(table, 13, patch);
        }
    } else if major == 3 && minor == 0 {
        if patch == 0 {
            lemma_exact_row(table, 14);
        } else if patch == 1 {
            lemma_exact_row(table, 15);
        } else {
            lemma_wildcard_row(table, 16, patch);
        }
    } else if major == 3 && minor == 1 {
        if patch == 0 {
            lemma_exact_row(table, 17);
        } else {
            lemma_wildcard_row(table, 18, patch);
        }
    } else if major == 3 && minor == 2 {
        if patch == 0 {
            lemma_exact_row(table, 19);
        } else if patch == 1 {
            lemma_exact_row(table, 20);
        } else {
            lemma_wildcard_row(table, 21, patch);
        }
    } else if major == 3 && minor == 3 {
        if patch == 0 {
            lemma_exact_row(table, 22);
        } else if patch == 1 {
            lemma_exact_row(table, 23);
        } else {
            lemma_wildcard_row(table, 24, patch);
        }
    } else if major == 3 && minor == 4 {
        if patch == 0 {
            lemma_exact_row(table, 25);
        } else {
            lemma_wildcard_row(table, 26, patch);
        }
    } else if major == 3 && minor == 5 {
        lemma_wildcard_row(table, 27, patch);
    } else if major == 3 && minor == 6 {
        if patch == 0 {
            lemma_exact_row(table, 28);
        } else {
            lemma_wildcard_row(table, 29, patch);
        }
    } else if major == 3 && minor == 7 {
        if patch == 0 {
            lemma_exact_row(table, 30);
        } else if patch == 1 {
            lemma_exact_row(table, 31);
        } else {
            lemma_wildcard_row(table, 32, patch);
        }
    } else if major == 3 && minor == 8 {
        if patch == 0 {
            lemma_exact_row(table, 33);
        } else if patch == 1 {
            lemma_exact_row(table, 34);
        } else {
            lemma_wildcard_row(table, 35, patch);
        }
    } else if major == 3 && minor == 9 {
        if patch == 0 {
            lemma_exact_row(table, 36);
        } else {
            lemma_wildcard_row(table, 37, patch);
        }
    } else {
        lemma_unlisted_line_misses(table, major, minor, patch);
    }
}

/// Whether `table` has a row, of either kind, for the line `major.minor`.
pub open spec fn line_listed(table: Seq<LabelRow>, major: u64, minor: u64) -> bool {
    exists|i: int|
        0 <= i < table.len() && (#[trigger] table[i]).major == major && table[i].minor == minor
}

/// Whether `table` has a wildcard row for the line `major.minor`.
pub open spec fn has_wildcard(table: Seq<LabelRow>, major: u64, minor: u64) -> bool {
    exists|i: int|
        0 <= i < table.len() && (#[trigger] table[i]).major == major && table[i].minor == minor
            && table[i].patch is None
}

/// A wildcard row that is there is found.
pub proof fn lemma_wildcard_found(table: Seq<LabelRow>, major: u64, minor: u64)
    requires
        has_wildcard(table, major, minor),
    ensures
        find_wildcard(table, major, minor) is Some,
    decreases table.len(),
{
    let i = choose|i: int|
        0 <= i < table.len() && (#[trigger] table[i]).major == major && table[i].minor == minor
            && table[i].patch is None;
    if i > 0 {
        assert(table.drop_first()[i - 1] == table[i]);
        lemma_wildcard_found(table.drop_first(), major, minor);
    }
}

/// A lookup finds nothing for a line that has no row.
pub proof fn lemma_unlisted_line_misses(table: Seq<LabelRow>, major: u64, minor: u64, patch: u64)
    requires
        !line_listed(table, major, minor),
    ensures
        lookup(table, major, minor, patch) is None,
    decreases table.len(),
{
    if table.len() > 0 {
        assert(table[0].major != major || table[0].minor != minor);
        assert forall|i: int| 0 <= i < table.drop_first().len() implies !((
        #[trigger] table.drop_first()[i]).major == major && table.drop_first()[i].minor
            == minor) by {
            assert(table.drop_first()[i] == table[i + 1]);
        }
        lemma_unlisted_line_misses(table.drop_first(), major, minor, patch);
    }
}

/// Every line of the label table has its wildcard row.
pub proof fn lemma_lines_have_wildcards()
    ensures
        forall|major: u64, minor: u64|
            line_listed(label_table(), major, minor) ==> has_wildcard(
                label_table(),
                major,
                minor,
            ),
{
    let table = label_table();
    assert forall|major: u64, minor: u64| line_listed(table, major, minor) implies has_wildcard(
        table,
        major,
        minor,
    ) by {
        let i = choose|i: int|
            0 <= i < table.len() && (#[trigger] table[i]).major == major && table[i].minor
                == minor;
        let w: int = if major == 2 {
            if minor == 5 {
                3
            } else if minor == 6 {
                7
            } else if minor == 7 {
                8
            } else if minor == 8 {
                11
            } else {
                13
            }
        } else {
            if minor == 0 {
                16
            } else if minor == 1 {
                18
            } else if minor == 2 {
                21
            } else if minor == 3 {
                24
            } else if minor == 4 {
                26
            } else if minor == 5 {
                27
            } else if minor == 6 {
                29
            } else if minor == 7 {
                32
            } else if minor == 8 {
                35
            } else {
                37
            }
        };
        assert(table[w].major == major && table[w].minor == minor && table[w].patch is None);
    }
}

/// The lookup is total over the lines that the table lists: every release
/// of such a line resolves, to the label of its own row where it has one
/// and to the label of the line's wildcard row where it has none. A release
/// of any other line does not resolve.
pub proof fn lemma_listed_lines_resolve(major: u64, minor: u64, patch: u64)
    ensures
        line_listed(label_table(), major, minor) ==> label_of(major, minor, patch) is Ok,
        line_listed(label_table(), major, minor) ==> label_of(major, minor, patch) == match find_exact(
            label_table(),
            major,
            minor,
            patch,
        ) {
            Some(label) => Ok::<Seq<char>, Error>(label),
            None => Ok(find_wildcard(label_table(), major, minor)->0),
        },
        !line_listed(label_table(), major, minor) ==> label_of(major, minor, patch) is Err,
{
    lemma_table_gives_release_label(major, minor, patch);
    if line_listed(label_table(), major, minor) {
        lemma_lines_have_wildcards();
        lemma_wildcard_found(label_table(), major, minor);
    } else {
        lemma_unlisted_line_misses(label_table(), major, minor, patch);
    }
}

/// Every label of the table has three characters.
pub proof fn lemma_labels_have_three_characters()
    ensures
        forall|i: int| 0 <= i < label_table().len() ==> (#[trigger] label_table()[i]).label.len() == 3,
{
    reveal_strlit("250");
    reveal_strlit("251");
    reveal_strlit("252");
    reveal_strlit("25x");
    reveal_strlit("260");
    reveal_strlit("261");
    reveal_strlit("262");
    reveal_strlit("26x");
    reveal_strlit("27x");
    reveal_strlit("280");
    reveal_strlit("281");
    reveal_strlit("28x");
    reveal_strlit("290");
    reveal_strlit("29x");
    reveal_strlit("300");
    reveal_strlit("301");
    reveal_strlit("30x");
    reveal_strlit("310");
    reveal_strlit("31x");
    reveal_strlit("320");
    reveal_strlit("321");
    reveal_strlit("32x");
    reveal_strlit("330");
    reveal_strlit("331");
    reveal_strlit("33x");
    reveal_strlit("340");
    reveal_strlit("34x");
    reveal_strlit("35x");
    reveal_strlit("360");
    reveal_strlit("36x");
    reveal_strlit("370");
    reveal_strlit("371");
    reveal_strlit("37x");
    reveal_strlit("380");
    reveal_strlit("381");
    reveal_strlit("38x");
    reveal_strlit("390");
    reveal_strlit("39x");
}

} // verus!

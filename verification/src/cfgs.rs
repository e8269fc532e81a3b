//! Threshold tables: which capability flags a version enables.

use vstd::prelude::*;

verus! {

/// One row of a threshold table: the flag `name` is enabled for every
/// version that is at least `min`.
#[derive(Clone, Copy, Debug)]
pub struct Threshold {
    pub min: u64,
    pub name: &'static str,
}

impl View for Threshold {
    type V = (u64, Seq<char>);

    open spec fn view(&self) -> (u64, Seq<char>) {
        (self.min, self.name@)
    }
}

/// The rows of an executable table as pairs of threshold and name.
pub open spec fn rows(table: Seq<Threshold>) -> Seq<(u64, Seq<char>)> {
    table.map_values(|t: Threshold| t@)
}

/// The characters of each name in a list of flag names.
pub open spec fn names_of(flags: Seq<&'static str>) -> Seq<Seq<char>> {
    flags.map_values(|name: &'static str| name@)
}

/// The names of the rows whose threshold `version` has reached, in table order.
pub open spec fn enabled(table: Seq<(u64, Seq<char>)>, version: u64) -> Seq<Seq<char>>
    decreases table.len(),
{
    if table.len() == 0 {
        Seq::empty()
    } else {
        let earlier = enabled(table.drop_last(), version);
        if table.last().0 <= version {
            earlier.push(table.last().1)
    } else {
            earlier
        }
    }
}

/// A table is ordered when its thresholds never decrease from one row to the next.
pub open spec fn ordered(table: Seq<(u64, Seq<char>)>) -> bool {
    forall|i: int, j: int| 0 <= i <= j < table.len() ==> table[i].0 <= table[j].0
}

/// How many rows of `table` have a threshold that `version` has reached.
pub open spec fn reached(table: Seq<(u64, Seq<char>)>, version: u64) -> nat
    decreases table.len(),
{
    if table.len() == 0 {
        0
    } else {
        reached(table.drop_last(), version) + if table.last().0 <= version {
            1nat
    } else {
            0nat
        }
    }
}

/// The thresholds of the mainline library, oldest first.
pub open spec fn mainline_thresholds() -> Seq<(u64, Seq<char>)> {
    seq![
        (0x1000_1000u64, "ossl101"@),
        (0x1000_2000u64, "ossl102"@),
        (0x1000_2060u64, "ossl102f"@),
        (0x1000_2080u64, "ossl102h"@),
        (0x1010_0000u64, "ossl110"@),
        (0x1010_0060u64, "ossl110f"@),
        (0x1010_0070u64, "ossl110g"@),
        (0x1010_0080u64, "ossl110h"@),
        (0x1010_1000u64, "ossl111"@),
        (0x1010_1020u64, "ossl111b"@),
        (0x1010_1030u64, "ossl111c"@),
        (0x1010_1040u64, "ossl111d"@),
        (0x3000_0000u64, "ossl300"@),
        (0x3020_0000u64, "ossl320"@),
    ]
}

/// Builds the mainline table.
pub fn mainline_table() -> (table: Vec<Threshold>)
    ensures
        rows(table@) == mainline_thresholds(),
{
    let mut table: Vec<Threshold> = Vec::new();
    table.push(Threshold { min: 0x1000_1000, name: "ossl101" });
    table.push(Threshold { min: 0x1000_2000, name: "ossl102" });
    table.push(Threshold { min: 0x1000_2060, name: "ossl102f" });
    table.push(Threshold { min: 0x1000_2080, name: "ossl102h" });
    table.push(Threshold { min: 0x1010_0000, name: "ossl110" });
    table.push(Threshold { min: 0x1010_0060, name: "ossl110f" });
    table.push(Threshold { min: 0x1010_0070, name: "ossl110g" });
    table.push(Threshold { min: 0x1010_0080, name: "ossl110h" });
    table.push(Threshold { min: 0x1010_1000, name: "ossl111" });
    table.push(Threshold { min: 0x1010_1020, name: "ossl111b" });
    table.push(Threshold { min: 0x1010_1030, name: "ossl111c" });
    table.push(Threshold { min: 0x1010_1040, name: "ossl111d" });
    table.push(Threshold { min: 0x3000_0000, name: "ossl300" });
    table.push(Threshold { min: 0x3020_0000, name: "ossl320" });
    assert(rows(table@) =~= mainline_thresholds());
    table
}

/// The thresholds of the LibreSSL-like fork, oldest first. The first row
/// applies to every version: it marks the fork itself.
pub open spec fn fork_a_thresholds() -> Seq<(u64, Seq<char>)> {
    seq![
        (0x0000_0000u64, "libressl"@),
        (0x2050_1000u64, "libressl251"@),
        (0x2050_2000u64, "libressl252"@),
        (0x2060_1000u64, "libressl261"@),
        (0x2070_0000u64, "libressl270"@),
        (0x2070_1000u64, "libressl271"@),
        (0x2070_3000u64, "libressl273"@),
        (0x2080_0000u64, "libressl280"@),
        (0x2080_1000u64, "libressl281"@),
        (0x2090_0000u64, "libressl290"@),
        (0x2090_1000u64, "libressl291"@),
        (0x3010_0000u64, "libressl310"@),
        (0x3020_1000u64, "libressl321"@),
        (0x3030_2000u64, "libressl332"@),
        (0x3040_0000u64, "libressl340"@),
        (0x3050_0000u64, "libressl350"@),
        (0x3060_0000u64, "libressl360"@),
        (0x3060_1000u64, "libressl361"@),
        (0x3070_0000u64, "libressl370"@),
        (0x3080_0000u64, "libressl380"@),
        (0x3080_1000u64, "libressl381"@),
        (0x3080_2000u64, "libressl382"@),
        (0x3090_0000u64, "libressl390"@),
    ]
}

/// Builds the table of the LibreSSL-like fork.
pub fn fork_a_table() -> (table: Vec<Threshold>)
    ensures
        rows(table@) == fork_a_thresholds(),
{
    let mut table: Vec<Threshold> = Vec::new();
    table.push(Threshold { min: 0x0000_0000, name: "libressl" });
    table.push(Threshold { min: 0x2050_1000, name: "libressl251" });
    table.push(Threshold { min: 0x2050_2000, name: "libressl252" });
    table.push(Threshold { min: 0x2060_1000, name: "libressl261" });
    table.push(Threshold { min: 0x2070_0000, name: "libressl270" });
    table.push(Threshold { min: 0x2070_1000, name: "libressl271" });
    table.push(Threshold { min: 0x2070_3000, name: "libressl273" });
    table.push(Threshold { min: 0x2080_0000, name: "libressl280" });
    table.push(Threshold { min: 0x2080_1000, name: "libressl281" });
    table.push(Threshold { min: 0x2090_0000, name: "libressl290" });
    table.push(Threshold { min: 0x2090_1000, name: "libressl291" });
    table.push(Threshold { min: 0x3010_0000, name: "libressl310" });
    table.push(Threshold { min: 0x3020_1000, name: "libressl321" });
    table.push(Threshold { min: 0x3030_2000, name: "libressl332" });
    table.push(Threshold { min: 0x3040_0000, name: "libressl340" });
    table.push(Threshold { min: 0x3050_0000, name: "libressl350" });
    table.push(Threshold { min: 0x3060_0000, name: "libressl360" });
    table.push(Threshold { min: 0x3060_1000, name: "libressl361" });
    table.push(Threshold { min: 0x3070_0000, name: "libressl370" });
    table.push(Threshold { min: 0x3080_0000, name: "libressl380" });
    table.push(Threshold { min: 0x3080_1000, name: "libressl381" });
    table.push(Threshold { min: 0x3080_2000, name: "libressl382" });
    table.push(Threshold { min: 0x3090_0000, name: "libressl390" });
    assert(rows(table@) =~= fork_a_thresholds());
    table
}

/// The thresholds that the safe bindings on top of the raw ones look at,
/// oldest first.
pub open spec fn binding_thresholds() -> Seq<(u64, Seq<char>)> {
    seq![
        (0x1000_1000u64, "ossl101"@),
        (0x1000_2000u64, "ossl102"@),
        (0x1010_0000u64, "ossl110"@),
        (0x1010_0070u64, "ossl110g"@),
        (0x1010_0080u64, "ossl110h"@),
        (0x1010_1000u64, "ossl111"@),
        (0x3000_0000u64, "ossl300"@),
        (0x3010_0000u64, "ossl310"@),
        (0x3020_0000u64, "ossl320"@),
    ]
}

/// Builds the table of the safe bindings.
pub fn binding_table() -> (table: Vec<Threshold>)
    ensures
        rows(table@) == binding_thresholds(),
{
    let mut table: Vec<Threshold> = Vec::new();
    table.push(Threshold { min: 0x1000_1000, name: "ossl101" });
    table.push(Threshold { min: 0x1000_2000, name: "ossl102" });
    table.push(Threshold { min: 0x1010_0000, name: "ossl110" });
    table.push(Threshold { min: 0x1010_0070, name: "ossl110g" });
    table.push(Threshold { min: 0x1010_0080, name: "ossl110h" });
    table.push(Threshold { min: 0x1010_1000, name: "ossl111" });
    table.push(Threshold { min: 0x3000_0000, name: "ossl300" });
    table.push(Threshold { min: 0x3010_0000, name: "ossl310" });
    table.push(Threshold { min: 0x3020_0000, name: "ossl320" });
    assert(rows(table@) =~= binding_thresholds());
    table
}

/// Evaluates every row of `table` against `version` and collects the names
/// of the rows that apply, in table order.
pub fn evaluate(table: &Vec<Threshold>, version: u64) -> (flags: Vec<&'static str>)
    ensures
        names_of(flags@) == enabled(rows(table@), version),
{
    let mut flags: Vec<&'static str> = Vec::new();
    let mut i: usize = 0;
    while i < table.len()
        invariant
            i <= table.len(),
            names_of(flags@) == enabled(rows(table@).take(i as int), version),
        decreases table.len() - i,
    {
        let row = table[i];
        proof {
            let done = rows(table@).take(i as int);
            let next = rows(table@).take(i + 1);
            assert(next.drop_last() =~= done);
            assert(next.last() == row@);
        }
        if row.min <= version {
            proof {
                assert(names_of(flags@.push(row.name)) =~= names_of(flags@).push(row.name@));
            }
            flags.push(row.name);
        }
        i += 1;
    }
    proof {
        assert(rows(table@).take(table.len() as int) =~= rows(table@));
    }
    flags
}

/// The capability flags of the mainline library at `openssl_version`.
pub fn get(openssl_version: Option<u64>) -> (cfgs: Vec<&'static str>)
    requires
        openssl_version is Some,
    ensures
        names_of(cfgs@) == enabled(mainline_thresholds(), openssl_version->0),
        cfgs@.len() == mainline_reached(openssl_version->0),
        forall|i: int|
            0 <= i < cfgs@.len() ==> (#[trigger] cfgs@[i])@ == mainline_thresholds()[i].1,
{
    let table = mainline_table();
    match openssl_version {
        Some(version) => {
            let cfgs = evaluate(&table, version);
            proof {
                lemma_mainline_reached(version);
                lemma_first_names(cfgs@, mainline_thresholds(), mainline_reached(version) as int);
            }
            cfgs
        },
        None => Vec::new(),
    }
}

/// The capability flags of the LibreSSL-like fork at `version`.
pub fn get_fork_a(version: u64) -> (cfgs: Vec<&'static str>)
    ensures
        names_of(cfgs@) == enabled(fork_a_thresholds(), version),
        cfgs@.len() == fork_a_reached(version),
        forall|i: int|
            0 <= i < cfgs@.len() ==> (#[trigger] cfgs@[i])@ == fork_a_thresholds()[i].1,
{
    let table = fork_a_table();
    let cfgs = evaluate(&table, version);
    proof {
        lemma_fork_a_reached(version);
        lemma_first_names(cfgs@, fork_a_thresholds(), fork_a_reached(version) as int);
    }
    cfgs
}

/// The flags that the safe bindings derive from the version number that
/// the raw bindings publish.
pub fn binding_cfgs(version: u64) -> (cfgs: Vec<&'static str>)
    ensures
        names_of(cfgs@) == enabled(binding_thresholds(), version),
        cfgs@.len() == binding_reached(version),
        forall|i: int|
            0 <= i < cfgs@.len() ==> (#[trigger] cfgs@[i])@ == binding_thresholds()[i].1,
{
    let table = binding_table();
    let cfgs = evaluate(&table, version);
    proof {
        lemma_binding_reached(version);
        lemma_first_names(cfgs@, binding_thresholds(), binding_reached(version) as int);
    }
    cfgs
}

/// The names of all rows, in table order.
pub open spec fn names(table: Seq<(u64, Seq<char>)>) -> Seq<Seq<char>> {
    table.map_values(|row: (u64, Seq<char>)| row.1)
}

/// A name is enabled exactly when some row carries it with a threshold that
/// the version has reached.
pub proof fn lemma_enabled_contains(table: Seq<(u64, Seq<char>)>, version: u64, name: Seq<char>)
    ensures
        enabled(table, version).contains(name) <==> exists|i: int|
            0 <= i < table.len() && (#[trigger] table[i]).1 == name && table[i].0 <= version,
    decreases table.len(),
{
    if table.len() == 0 {
    } else {
        let earlier = table.drop_last();
        let last = table.len() - 1;
        lemma_enabled_contains(earlier, version, name);
        if enabled(table, version).contains(name) {
            if enabled(earlier, version).contains(name) {
                let i = choose|i: int|
                    0 <= i < earlier.len() && (#[trigger] earlier[i]).1 == name && earlier[i].0
                        <= version;
                assert(table[i] == earlier[i]);
            } else {
                let k = choose|k: int|
                    0 <= k < enabled(table, version).len() && enabled(table, version)[k] == name;
                assert(k == enabled(earlier, version).len());
                assert(table[last].1 == name && table[last].0 <= version);
            }
        }
        if exists|i: int|
            0 <= i < table.len() && (#[trigger] table[i]).1 == name && table[i].0 <= version {
            let i = choose|i: int|
                0 <= i < table.len() && (#[trigger] table[i]).1 == name && table[i].0 <= version;
            if i < last {
                assert(earlier[i] == table[i]);
                let k = choose|k: int|
                    0 <= k < enabled(earlier, version).len() && enabled(earlier, version)[k]
                        == name;
                assert(enabled(table, version)[k] == name);
            } else {
                let k = enabled(earlier, version).len() as int;
                assert(enabled(table, version)[k] == name);
            }
        }
    }
}

/// Flags never turn off: whatever a version enables, every later version
/// enables too.
pub proof fn lemma_enabled_monotonic(table: Seq<(u64, Seq<char>)>, v1: u64, v2: u64)
    requires
        v1 <= v2,
    ensures
        forall|name: Seq<char>|
            enabled(table, v1).contains(name) ==> #[trigger] enabled(table, v2).contains(name),
{
    assert forall|name: Seq<char>| enabled(table, v1).contains(name) implies #[trigger] enabled(
        table,
        v2,
    ).contains(name) by {
        lemma_enabled_contains(table, v1, name);
        lemma_enabled_contains(table, v2, name);
        let i = choose|i: int|
            0 <= i < table.len() && (#[trigger] table[i]).1 == name && table[i].0 <= v1;
        assert(table[i].0 <= v2);
    }
}

/// In an ordered table the enabled names are a prefix of the table's names:
/// the rows that apply are the first `reached(table, version)` rows.
pub proof fn lemma_enabled_prefix(table: Seq<(u64, Seq<char>)>, version: u64)
    requires
        ordered(table),
    ensures
        reached(table, version) <= table.len(),
        enabled(table, version) == names(table).take(reached(table, version) as int),
        forall|i: int| 0 <= i < reached(table, version) ==> (#[trigger] table[i]).0 <= version,
        forall|i: int|
            reached(table, version) <= i < table.len() ==> (#[trigger] table[i]).0 > version,
    decreases table.len(),
{
    if table.len() == 0 {
        assert(enabled(table, version) =~= names(table).take(0));
    } else {
        let earlier = table.drop_last();
        let last = table.len() - 1;
        assert forall|i: int, j: int| 0 <= i <= j < earlier.len() implies earlier[i].0
            <= earlier[j].0 by {
            assert(earlier[i] == table[i] && earlier[j] == table[j]);
        }
        lemma_enabled_prefix(earlier, version);
        let k = reached(earlier, version) as int;
        assert forall|i: int| 0 <= i < k implies (#[trigger] table[i]).0 <= version by {
            assert(earlier[i] == table[i]);
        }
        if table[last].0 <= version {
            if k < last {
                assert(earlier[k] == table[k]);
                assert(table[k].0 <= table[last].0);
            }
            assert(k == last);
            assert(enabled(table, version) =~= names(table).take(k + 1));
    } else {
            assert forall|i: int| k <= i < table.len() implies (#[trigger] table[i]).0
                > version by {
                if i < last {
                    assert(earlier[i] == table[i]);
                }
            }
            assert(enabled(table, version) =~= names(table).take(k));
        }
    }
}

/// The mainline table is ordered from the oldest milestone to the newest.
pub proof fn lemma_mainline_ordered()
    ensures
        ordered(mainline_thresholds()),
{
}

/// The table of the LibreSSL-like fork is ordered from the oldest
/// milestone to the newest.
pub proof fn lemma_fork_a_ordered()
    ensures
        ordered(fork_a_thresholds()),
{
}

/// The table of the safe bindings is ordered from the oldest milestone to
/// the newest.
pub proof fn lemma_binding_ordered()
    ensures
        ordered(binding_thresholds()),
{
}

/// Flags whose names are those of the first `count` rows of a table are
/// `count` flags, each with the name of its row.
pub proof fn lemma_first_names(flags: Seq<&'static str>, table: Seq<(u64, Seq<char>)>, count: int)
    requires
        0 <= count <= table.len(),
        names_of(flags) == names(table).take(count),
    ensures
        flags.len() == count,
        forall|i: int| 0 <= i < count ==> (#[trigger] flags[i])@ == table[i].1,
{
    assert(names_of(flags).len() == flags.len());
    assert forall|i: int| 0 <= i < count implies (#[trigger] flags[i])@ == table[i].1 by {
        assert(names_of(flags)[i] == flags[i]@);
        assert(names(table).take(count)[i] == table[i].1);
    }
}

/// How many milestones of the mainline library `version` has reached,
/// milestone by milestone.
pub open spec fn mainline_reached(version: u64) -> nat {
    if version < 0x1000_1000 {
        0
    } else if version < 0x1000_2000 {
        1
    } else if version < 0x1000_2060 {
        2
    } else if version < 0x1000_2080 {
        3
    } else if version < 0x1010_0000 {
        4
    } else if version < 0x1010_0060 {
        5
    } else if version < 0x1010_0070 {
        6
    } else if version < 0x1010_0080 {
        7
    } else if version < 0x1010_1000 {
        8
    } else if version < 0x1010_1020 {
        9
    } else if version < 0x1010_1030 {
        10
    } else if version < 0x1010_1040 {
        11
    } else if version < 0x3000_0000 {
        12
    } else if version < 0x3020_0000 {
        13
    } else {
        14
    }
}

/// The table of the mainline library read row by row is `mainline_reached`: the flags
/// of a version are the names of that many rows from the top.
pub proof fn lemma_mainline_reached(version: u64)
    ensures
        reached(mainline_thresholds(), version) == mainline_reached(version),
        enabled(mainline_thresholds(), version) == names(mainline_thresholds()).take(
            mainline_reached(version) as int,
        ),
{
    let table = mainline_thresholds();
    lemma_enabled_prefix(table, version);
    assert(table[0].0 == 0x1000_1000);
    assert(table[1].0 == 0x1000_2000);
    assert(table[2].0 == 0x1000_2060);
    assert(table[3].0 == 0x1000_2080);
    assert(table[4].0 == 0x1010_0000);
    assert(table[5].0 == 0x1010_0060);
    assert(table[6].0 == 0x1010_0070);
    assert(table[7].0 == 0x1010_0080);
    assert(table[8].0 == 0x1010_1000);
    assert(table[9].0 == 0x1010_1020);
    assert(table[10].0 == 0x1010_1030);
    assert(table[11].0 == 0x1010_1040);
    assert(table[12].0 == 0x3000_0000);
    assert(table[13].0 == 0x3020_0000);
}

/// How many milestones of the LibreSSL-like fork `version` has reached,
/// milestone by milestone.
pub open spec fn fork_a_reached(version: u64) -> nat {
    if version < 0x2050_1000 {
        1
    } else if version < 0x2050_2000 {
        2
    } else if version < 0x2060_1000 {
        3
    } else if version < 0x2070_0000 {
        4
    } else if version < 0x2070_1000 {
        5
    } else if version < 0x2070_3000 {
        6
    } else if version < 0x2080_0000 {
        7
    } else if version < 0x2080_1000 {
        8
    } else if version < 0x2090_0000 {
        9
    } else if version < 0x2090_1000 {
        10
    } else if version < 0x3010_0000 {
        11
    } else if version < 0x3020_1000 {
        12
    } else if version < 0x3030_2000 {
        13
    } else if version < 0x3040_0000 {
        14
    } else if version < 0x3050_0000 {
        15
    } else if version < 0x3060_0000 {
        16
    } else if version < 0x3060_1000 {
        17
    } else if version < 0x3070_0000 {
        18
    } else if version < 0x3080_0000 {
        19
    } else if version < 0x3080_1000 {
        20
    } else if version < 0x3080_2000 {
        21
    } else if version < 0x3090_0000 {
        22
    } else {
        23
    }
}

/// The table of the LibreSSL-like fork read row by row is `fork_a_reached`: the flags
/// of a version are the names of that many rows from the top.
pub proof fn lemma_fork_a_reached(version: u64)
    ensures
        reached(fork_a_thresholds(), version) == fork_a_reached(version),
        enabled(fork_a_thresholds(), version) == names(fork_a_thresholds()).take(
            fork_a_reached(version) as int,
        ),
{
    let table = fork_a_thresholds();
    lemma_enabled_prefix(table, version);
    assert(table[0].0 == 0x0000_0000);
    assert(table[1].0 == 0x2050_1000);
    assert(table[2].0 == 0x2050_2000);
    assert(table[3].0 == 0x2060_1000);
    assert(table[4].0 == 0x2070_0000);
    assert(table[5].0 == 0x2070_1000);
    assert(table[6].0 == 0x2070_3000);
    assert(table[7].0 == 0x2080_0000);
    assert(table[8].0 == 0x2080_1000);
    assert(table[9].0 == 0x2090_0000);
    assert(table[10].0 == 0x2090_1000);
    assert(table[11].0 == 0x3010_0000);
    assert(table[12].0 == 0x3020_1000);
    assert(table[13].0 == 0x3030_2000);
    assert(table[14].0 == 0x3040_0000);
    assert(table[15].0 == 0x3050_0000);
    assert(table[16].0 == 0x3060_0000);
    assert(table[17].0 == 0x3060_1000);
    assert(table[18].0 == 0x3070_0000);
    assert(table[19].0 == 0x3080_0000);
    assert(table[20].0 == 0x3080_1000);
    assert(table[21].0 == 0x3080_2000);
    assert(table[22].0 == 0x3090_0000);
}

/// How many milestones of the safe bindings `version` has reached,
/// milestone by milestone.
pub open spec fn binding_reached(version: u64) -> nat {
    if version < 0x1000_1000 {
        0
    } else if version < 0x1000_2000 {
        1
    } else if version < 0x1010_0000 {
        2
    } else if version < 0x1010_0070 {
        3
    } else if version < 0x1010_0080 {
        4
    } else if version < 0x1010_1000 {
        5
    } else if version < 0x3000_0000 {
        6
    } else if version < 0x3010_0000 {
        7
    } else if version < 0x3020_0000 {
        8
    } else {
        9
    }
}

/// The table of the safe bindings read row by row is `binding_reached`: the flags
/// of a version are the names of that many rows from the top.
pub proof fn lemma_binding_reached(version: u64)
    ensures
        reached(binding_thresholds(), version) == binding_reached(version),
        enabled(binding_thresholds(), version) == names(binding_thresholds()).take(
            binding_reached(version) as int,
        ),
{
    let table = binding_thresholds();
    lemma_enabled_prefix(table, version);
    assert(table[0].0 == 0x1000_1000);
    assert(table[1].0 == 0x1000_2000);
    assert(table[2].0 == 0x1010_0000);
    assert(table[3].0 == 0x1010_0070);
    assert(table[4].0 == 0x1010_0080);
    assert(table[5].0 == 0x1010_1000);
    assert(table[6].0 == 0x3000_0000);
    assert(table[7].0 == 0x3010_0000);
    assert(table[8].0 == 0x3020_0000);
}

/// Whether `c` may stand in an identifier: an ASCII letter, an ASCII digit
/// or `_`.
pub open spec fn identifier_char(c: char) -> bool {
    'a' <= c <= 'z' || 'A' <= c <= 'Z' || '0' <= c <= '9' || c == '_'
}

/// Whether `name` can be used as an identifier in conditional compilation.
pub open spec fn is_identifier(name: Seq<char>) -> bool {
    name.len() > 0 && forall|i: int| 0 <= i < name.len() ==> identifier_char(#[trigger] name[i])
}

/// Whether every name in `table` is an identifier.
pub open spec fn names_are_identifiers(table: Seq<(u64, Seq<char>)>) -> bool {
    forall|i: int| 0 <= i < table.len() ==> is_identifier((#[trigger] table[i]).1)
}

/// Every name in the three tables can be used as an identifier in
/// conditional compilation.
pub proof fn lemma_names_are_identifiers()
    ensures
        names_are_identifiers(mainline_thresholds()),
        names_are_identifiers(fork_a_thresholds()),
        names_are_identifiers(binding_thresholds()),
{
    reveal_strlit("ossl101");
    reveal_strlit("ossl102");
    reveal_strlit("ossl102f");
    reveal_strlit("ossl102h");
    reveal_strlit("ossl110");
    reveal_strlit("ossl110f");
    reveal_strlit("ossl110g");
    reveal_strlit("ossl110h");
    reveal_strlit("ossl111");
    reveal_strlit("ossl111b");
    reveal_strlit("ossl111c");
    reveal_strlit("ossl111d");
    reveal_strlit("ossl300");
    reveal_strlit("ossl320");
    reveal_strlit("libressl");
    reveal_strlit("libressl251");
    reveal_strlit("libressl252");
    reveal_strlit("libressl261");
    reveal_strlit("libressl270");
    reveal_strlit("libressl271");
    reveal_strlit("libressl273");
    reveal_strlit("libressl280");
    reveal_strlit("libressl281");
    reveal_strlit("libressl290");
    reveal_strlit("libressl291");
    reveal_strlit("libressl310");
    reveal_strlit("libressl321");
    reveal_strlit("libressl332");
    reveal_strlit("libressl340");
    reveal_strlit("libressl350");
    reveal_strlit("libressl360");
    reveal_strlit("libressl361");
    reveal_strlit("libressl370");
    reveal_strlit("libressl380");
    reveal_strlit("libressl381");
    reveal_strlit("libressl382");
    reveal_strlit("libressl390");
    reveal_strlit("ossl310");
}

} // verus!

//! The capability flag deriver: from variant, version and configuration
//! options to the flags that conditional compilation sees.

use crate::cfgs::{
    enabled, evaluate, fork_a_reached, fork_a_table, fork_a_thresholds, lemma_enabled_monotonic,
    lemma_fork_a_reached, lemma_mainline_reached, mainline_reached, mainline_table,
    mainline_thresholds, names, names_of,
};
use crate::classify::texts;
use crate::error::{Error, SupportWindow};
use crate::gate::version_error;
use crate::label::{label_of, resolve_label};
use crate::variant::Variant;
use crate::version::{fix, fix_of, major, major_of, minor, minor_of};
use vstd::prelude::*;

verus! {

/// One derived flag. The three kinds are kept apart, so that the name of a
/// configuration option can never pass for a capability.
#[derive(Clone, Debug, PartialEq, Eq)]
pub enum Flag {
    /// A capability that the version has reached.
    Capability(&'static str),
    /// The display label of a release of the LibreSSL-like fork.
    DisplayLabel(&'static str),
    /// A configuration option that the library was built with.
    ConfigOption(String),
}

/// A flag, with its text as characters.
pub enum FlagView {
    Capability(Seq<char>),
    DisplayLabel(Seq<char>),
    ConfigOption(Seq<char>),
}

impl View for Flag {
    type V = FlagView;

    open spec fn view(&self) -> FlagView {
        match self {
            Flag::Capability(name) => FlagView::Capability(name@),
            Flag::DisplayLabel(label) => FlagView::DisplayLabel(label@),
            Flag::ConfigOption(token) => FlagView::ConfigOption(token@),
        }
    }
}

/// The views of a list of flags.
pub open spec fn flag_views(flags: Seq<Flag>) -> Seq<FlagView> {
    flags.map_values(|flag: Flag| flag@)
}

/// The threshold table of a variant. The BoringSSL-like fork has none here.
pub open spec fn thresholds_of(variant: Variant) -> Seq<(u64, Seq<char>)> {
    match variant {
        Variant::MainlineModern | Variant::MainlineLegacy => mainline_thresholds(),
        Variant::ForkA => fork_a_thresholds(),
        Variant::ForkB => Seq::empty(),
    }
}

/// How many milestones of its table a version of `variant` has reached.
pub open spec fn reached_of(variant: Variant, version: u64) -> nat {
    match variant {
        Variant::MainlineModern | Variant::MainlineLegacy => mainline_reached(version),
        Variant::ForkA => fork_a_reached(version),
        Variant::ForkB => 0,
    }
}

/// The capabilities of `variant` at `version`: the names of the milestones
/// that the version has reached, in table order.
pub open spec fn capability_flags(variant: Variant, version: u64) -> Seq<FlagView> {
    names(thresholds_of(variant)).take(reached_of(variant, version) as int).map_values(
        |name: Seq<char>| FlagView::Capability(name),
    )
}

/// The capabilities of a version are the names of exactly those rows of its
/// variant's table whose threshold the version has reached.
pub proof fn lemma_capabilities_are_enabled(variant: Variant, version: u64)
    ensures
        capability_flags(variant, version) == enabled(thresholds_of(variant), version).map_values(
            |name: Seq<char>| FlagView::Capability(name),
        ),
{
    match variant {
        Variant::MainlineModern | Variant::MainlineLegacy => {
            lemma_mainline_reached(version);
        },
        Variant::ForkA => {
            lemma_fork_a_reached(version);
        },
        Variant::ForkB => {
            assert(names(thresholds_of(variant)).take(0) =~= enabled(
                thresholds_of(variant),
                version,
            ));
        },
    }
}

/// The configuration options as flags, in their order.
pub open spec fn config_flags(tokens: Seq<Seq<char>>) -> Seq<FlagView> {
    tokens.map_values(|token: Seq<char>| FlagView::ConfigOption(token))
}

/// The flags of a classified library. The BoringSSL-like fork has none:
/// its bindings are another set. Any other variant needs a version. The
/// mainline library gets its capabilities, then its configuration options.
/// The LibreSSL-like fork gets its capabilities, then its display label,
/// then its configuration options; a release without a label has no flags
/// but a failure.
pub open spec fn flags_of(
    variant: Variant,
    encoded_version: Option<u64>,
    tokens: Seq<Seq<char>>,
) -> Result<Seq<FlagView>, Error> {
    match variant {
        Variant::ForkB => Ok(Seq::empty()),
        _ => match encoded_version {
            None => Err(Error::NoVersionFound),
            Some(version) => match variant {
                Variant::ForkA => match label_of(
                    major_of(version),
                    minor_of(version),
                    fix_of(version),
                ) {
                    Ok(label) => Ok(
                        capability_flags(variant, version) + seq![FlagView::DisplayLabel(label)]
                            + config_flags(tokens),
                    ),
                    Err(_) => Err(
                        Error::UnsupportedVersion {
                            detected: version,
                            supported: SupportWindow::LabelTable,
                        },
                    ),
                },
                _ => Ok(capability_flags(variant, version) + config_flags(tokens)),
            },
        },
    }
}

/// Adds the names in `names` to `flags` as capabilities.
fn push_capabilities(flags: &mut Vec<Flag>, names: &Vec<&'static str>)
    ensures
        flag_views(final(flags)@) == flag_views(old(flags)@) + names_of(names@).map_values(
            |name: Seq<char>| FlagView::Capability(name),
        ),
{
    let ghost before = flag_views(flags@);
    let ghost caps = names_of(names@).map_values(|name: Seq<char>| FlagView::Capability(name));
    let mut i: usize = 0;
    proof {
        assert(before + caps.take(0) =~= before);
    }
    while i < names.len()
        invariant
            i <= names.len(),
            caps == names_of(names@).map_values(|name: Seq<char>| FlagView::Capability(name)),
            flag_views(flags@) == before + caps.take(i as int),
        decreases names.len() - i,
    {
        let flag = Flag::Capability(names[i]);
        proof {
            assert(flag@ == caps[i as int]);
            assert(flag_views(flags@.push(flag)) =~= flag_views(flags@).push(flag@));
            assert(before + caps.take(i + 1) =~= (before + caps.take(i as int)).push(
                caps[i as int],
            ));
        }
        flags.push(flag);
        i += 1;
    }
    proof {
        assert(caps.take(names.len() as int) =~= caps);
    }
}

/// Adds the configuration options in `tokens` to `flags`.
fn push_config_options(flags: &mut Vec<Flag>, tokens: &Vec<String>)
    ensures
        flag_views(final(flags)@) == flag_views(old(flags)@) + config_flags(texts(tokens@)),
{
    let ghost before = flag_views(flags@);
    let ghost confs = config_flags(texts(tokens@));
    let mut i: usize = 0;
    proof {
        assert(before + confs.take(0) =~= before);
    }
    while i < tokens.len()
        invariant
            i <= tokens.len(),
            confs == config_flags(texts(tokens@)),
            flag_views(flags@) == before + confs.take(i as int),
        decreases tokens.len() - i,
    {
        let flag = Flag::ConfigOption(tokens[i].clone());
        proof {
            assert(flag@ == confs[i as int]);
            assert(flag_views(flags@.push(flag)) =~= flag_views(flags@).push(flag@));
            assert(before + confs.take(i + 1) =~= (before + confs.take(i as int)).push(
                confs[i as int],
            ));
        }
        flags.push(flag);
        i += 1;
    }
    proof {
        assert(confs.take(tokens.len() as int) =~= confs);
    }
}

/// Derives the flags of a classified library.
pub fn derive_flags(
    variant: Variant,
    encoded_version: Option<u64>,
    config_tokens: &Vec<String>,
) -> (derived: Result<Vec<Flag>, Error>)
    ensures
        match derived {
            Ok(flags) => flags_of(variant, encoded_version, texts(config_tokens@)) == Ok::<
                Seq<FlagView>,
                Error,
            >(flag_views(flags@)),
            Err(e) => flags_of(variant, encoded_version, texts(config_tokens@)) == Err::<
                Seq<FlagView>,
                Error,
            >(e),
        },
{
    let mut flags: Vec<Flag> = Vec::new();
    proof {
        assert(flag_views(flags@) =~= Seq::<FlagView>::empty());
    }
    match variant {
        Variant::ForkB => Ok(flags),
        Variant::ForkA => match encoded_version {
            None => Err(Error::NoVersionFound),
            Some(version) => match resolve_label(major(version), minor(version), fix(version)) {
                Err(_) => Err(version_error(version, SupportWindow::LabelTable)),
                Ok(label) => {
                    let table = fork_a_table();
                    let names = evaluate(&table, version);
                    push_capabilities(&mut flags, &names);
                    let flag = Flag::DisplayLabel(label);
                    proof {
                        assert(flag_views(flags@.push(flag)) =~= flag_views(flags@).push(flag@));
                    }
                    flags.push(flag);
                    push_config_options(&mut flags, config_tokens);
                    proof {
                        lemma_capabilities_are_enabled(variant, version);
                        assert(flag_views(flags@) =~= capability_flags(variant, version)
                            + seq![FlagView::DisplayLabel(label@)] + config_flags(
                            texts(config_tokens@),
                        ));
                    }
                    Ok(flags)
                },
            },
        },
        Variant::MainlineModern | Variant::MainlineLegacy => match encoded_version {
            None => Err(Error::NoVersionFound),
            Some(version) => {
                let table = mainline_table();
                let names = evaluate(&table, version);
                push_capabilities(&mut flags, &names);
                push_config_options(&mut flags, config_tokens);
                proof {
                    lemma_capabilities_are_enabled(variant, version);
                    assert(flag_views(flags@) =~= capability_flags(variant, version)
                        + config_flags(texts(config_tokens@)));
                }
                Ok(flags)
            },
        },
    }
}

/// Capabilities never turn off: those of a version are among those of
/// every later version of the same variant.
pub proof fn lemma_capabilities_grow(variant: Variant, v1: u64, v2: u64)
    requires
        v1 <= v2,
    ensures
        forall|flag: FlagView|
            capability_flags(variant, v1).contains(flag) ==> #[trigger] capability_flags(
                variant,
                v2,
            ).contains(flag),
{
    let table = thresholds_of(variant);
    let caps1 = capability_flags(variant, v1);
    let caps2 = capability_flags(variant, v2);
    lemma_capabilities_are_enabled(variant, v1);
    lemma_capabilities_are_enabled(variant, v2);
    assert forall|flag: FlagView| caps1.contains(flag) implies #[trigger] caps2.contains(flag) by {
        let k = choose|k: int| 0 <= k < caps1.len() && caps1[k] == flag;
        let name = enabled(table, v1)[k];
        assert(enabled(table, v1).contains(name));
        lemma_enabled_monotonic(table, v1, v2);
        assert(enabled(table, v2).contains(name));
        let j = choose|j: int| 0 <= j < enabled(table, v2).len() && enabled(table, v2)[j] == name;
        assert(caps2[j] == flag);
    }
}

/// The flags of a version are among the flags of every later version of
/// the same variant with the same configuration options. The one exception
/// is the display label of the LibreSSL-like fork, which names a single
/// release and changes with it.
pub proof fn lemma_flags_grow(variant: Variant, v1: u64, v2: u64, tokens: Seq<Seq<char>>)
    requires
        v1 <= v2,
        flags_of(variant, Some(v1), tokens) is Ok,
        flags_of(variant, Some(v2), tokens) is Ok,
    ensures
        forall|flag: FlagView|
            flags_of(variant, Some(v1), tokens)->Ok_0.contains(flag) && !(flag is DisplayLabel)
                ==> #[trigger] flags_of(variant, Some(v2), tokens)->Ok_0.contains(flag),
        variant != Variant::ForkA ==> forall|flag: FlagView|
            flags_of(variant, Some(v1), tokens)->Ok_0.contains(flag) ==> #[trigger] flags_of(
                variant,
                Some(v2),
                tokens,
            )->Ok_0.contains(flag),
{
    let f1 = flags_of(variant, Some(v1), tokens)->Ok_0;
    let f2 = flags_of(variant, Some(v2), tokens)->Ok_0;
    let caps1 = capability_flags(variant, v1);
    let caps2 = capability_flags(variant, v2);
    let confs = config_flags(tokens);
    lemma_capabilities_grow(variant, v1, v2);
    assert forall|flag: FlagView|
        f1.contains(flag) && (variant != Variant::ForkA || !(flag is DisplayLabel))
            implies #[trigger] f2.contains(flag) by {
        let k = choose|k: int| 0 <= k < f1.len() && f1[k] == flag;
        if variant == Variant::ForkB {
        } else if k < caps1.len() {
            assert(caps1[k] == flag);
            assert(caps1.contains(flag));
            assert(caps2.contains(flag));
            let j = choose|j: int| 0 <= j < caps2.len() && caps2[j] == flag;
            assert(f2[j] == flag);
        } else if variant == Variant::ForkA {
            let c = k - caps1.len() - 1;
            assert(f1[k] == confs[c]);
            assert(f2[caps2.len() + 1 + c] == confs[c]);
        } else {
            let c = k - caps1.len();
            assert(f1[k] == confs[c]);
            assert(f2[caps2.len() + c] == confs[c]);
        }
    }
}

} // verus!

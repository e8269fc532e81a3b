//! The whole path from the expanded headers to the report that the build
//! acts on: classify, check, derive.

use crate::classify::{classification, classify, Classification};
use crate::error::Error;
use crate::flags::{derive_flags, flag_views, flags_of, Flag, FlagView};
use crate::gate::{check_supported, verdict, Policy};
use crate::label::{label_of, resolve_label};
use crate::variant::Variant;
use crate::version::{fix, fix_of, major, major_of, minor, minor_of};
use vstd::prelude::*;

verus! {

/// What the build learns from a supported library.
#[derive(Clone, Debug, PartialEq, Eq)]
pub struct Report {
    /// The variant that was found.
    pub variant: Variant,
    /// The version of that variant; the BoringSSL-like fork has none.
    pub encoded_version: Option<u64>,
    /// The derived flags, in order.
    pub flags: Vec<Flag>,
    /// The display label, for the LibreSSL-like fork only.
    pub label: Option<&'static str>,
}

/// A report, as mathematical values.
pub struct ReportView {
    pub variant: Variant,
    pub encoded_version: Option<u64>,
    pub flags: Seq<FlagView>,
    pub label: Option<Seq<char>>,
}

impl View for Report {
    type V = ReportView;

    open spec fn view(&self) -> ReportView {
        ReportView {
            variant: self.variant,
            encoded_version: self.encoded_version,
            flags: flag_views(self.flags@),
            label: match self.label {
                Some(label) => Some(label@),
                None => None,
            },
        }
    }
}

/// The display label that goes with a classification.
pub open spec fn display_label(found: Classification) -> Option<Seq<char>> {
    match (found.variant, found.encoded_version) {
        (Variant::ForkA, Some(version)) => match label_of(
            major_of(version),
            minor_of(version),
            fix_of(version),
        ) {
            Ok(label) => Some(label),
            Err(_) => None,
        },
        _ => None,
    }
}

/// The report on the expanded headers `text` under `policy`: the text is
/// classified, the result is checked against what is supported, and only
/// then are the flags derived. The first failure on that path is the
/// outcome, and nothing is reported beside it.
pub open spec fn report_of(text: Seq<char>, policy: Policy) -> Result<ReportView, Error> {
    match classification(text) {
        Err(e) => Err(e),
        Ok(found) => match verdict(policy, found.variant, found.encoded_version) {
            Err(e) => Err(e),
            Ok(_) => match flags_of(found.variant, found.encoded_version, found.config_tokens) {
                Err(e) => Err(e),
                Ok(flags) => Ok(
                    ReportView {
                        variant: found.variant,
                        encoded_version: found.encoded_version,
                        flags,
                        label: display_label(found),
                    },
                ),
            },
        },
    }
}

/// The outcome for the expansion of the headers, which is absent where the
/// headers could not be expanded.
pub open spec fn validation(expanded: Option<Seq<char>>, policy: Policy) -> Result<
    ReportView,
    Error,
> {
    match expanded {
        None => Err(Error::HeaderExpansionFailure),
        Some(text) => report_of(text, policy),
    }
}

/// The characters of the expansion, where there is one.
pub open spec fn expansion_text(expanded: Option<&str>) -> Option<Seq<char>> {
    match expanded {
        Some(text) => Some(text@),
        None => None,
    }
}

/// Whether `result` is what the validation of `expanded` under `policy`
/// comes to.
pub open spec fn validates(
    expanded: Option<Seq<char>>,
    policy: Policy,
    result: Result<Report, Error>,
) -> bool {
    match result {
        Ok(report) => validation(expanded, policy) == Ok::<ReportView, Error>(report@),
        Err(e) => validation(expanded, policy) == Err::<ReportView, Error>(e),
    }
}

/// Validates the expanded headers and reports on the library they belong
/// to. `expanded` is `None` where the expansion itself failed.
pub fn validate_headers(expanded: Option<&str>, policy: Policy) -> (validated: Result<
    Report,
    Error,
>)
    ensures
        validates(expansion_text(expanded), policy, validated),
{
    let text = match expanded {
        Some(text) => text,
        None => {
            return Err(Error::HeaderExpansionFailure);
        },
    };
    let found = match classify(text) {
        Ok(found) => found,
        Err(e) => {
            return Err(e);
        },
    };
    match check_supported(policy, found.variant, found.encoded_version) {
        Ok(_) => {},
        Err(e) => {
            return Err(e);
        },
    }
    let flags = match derive_flags(found.variant, found.encoded_version, &found.config_tokens) {
        Ok(flags) => flags,
        Err(e) => {
            return Err(e);
        },
    };
    let label = match (found.variant, found.encoded_version) {
        (Variant::ForkA, Some(version)) => match resolve_label(
            major(version),
            minor(version),
            fix(version),
        ) {
            Ok(label) => Some(label),
            Err(_) => None,
        },
        _ => None,
    };
    Ok(Report { variant: found.variant, encoded_version: found.encoded_version, flags, label })
}

/// What is left to do once the headers are validated.
#[derive(Clone, Debug, PartialEq, Eq)]
pub struct Outcome {
    /// The report on the library.
    pub report: Report,
    /// Whether bindings are to be generated now. They never are for the
    /// BoringSSL-like fork, whose bindings are made elsewhere.
    pub generate_bindings: bool,
}

/// Validates the expanded headers and decides whether bindings are to be
/// generated for the library that was found.
pub fn postprocess(expanded: Option<&str>, policy: Policy) -> (processed: Result<Outcome, Error>)
    ensures
        match processed {
            Ok(outcome) => validates(
                expansion_text(expanded),
                policy,
                Ok::<Report, Error>(outcome.report),
            ) && outcome.generate_bindings == (outcome.report.variant != Variant::ForkB),
            Err(e) => validates(expansion_text(expanded), policy, Err::<Report, Error>(e)),
        },
{
    match validate_headers(expanded, policy) {
        Ok(report) => {
            let generate_bindings = match report.variant {
                Variant::ForkB => false,
                _ => true,
            };
            Ok(Outcome { report, generate_bindings })
        },
        Err(e) => Err(e),
    }
}

/// Validating the same expansion again under the same policy gives the
/// same again: the same failure, or the same report, character for
/// character.
pub proof fn lemma_validate_repeats(
    expanded: Option<Seq<char>>,
    policy: Policy,
    first: Result<Report, Error>,
    second: Result<Report, Error>,
)
    requires
        validates(expanded, policy, first),
        validates(expanded, policy, second),
    ensures
        match (first, second) {
            (Ok(a), Ok(b)) => a@ == b@,
            (Err(a), Err(b)) => a == b,
            _ => false,
        },
{
}

/// Whatever is reported is supported under the policy. A report carries a
/// label exactly for the LibreSSL-like fork, and lacks a version exactly for
/// the BoringSSL-like fork.
pub proof fn lemma_reports_are_supported(text: Seq<char>, policy: Policy)
    requires
        report_of(text, policy) is Ok,
    ensures
        verdict(
            policy,
            report_of(text, policy)->Ok_0.variant,
            report_of(text, policy)->Ok_0.encoded_version,
        ) is Ok,
        report_of(text, policy)->Ok_0.variant == Variant::ForkA <==> report_of(
            text,
            policy,
        )->Ok_0.label is Some,
        report_of(text, policy)->Ok_0.variant == Variant::ForkB <==> report_of(
            text,
            policy,
        )->Ok_0.encoded_version is None,
{
}

} // verus!

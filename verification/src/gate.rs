//! The compatibility gate: which versions of which variant the bindings
//! support.

use crate::error::{Error, SupportWindow};
use crate::label::{label_of, resolve_label};
use crate::variant::Variant;
use crate::version::{fix, fix_of, major, major_of, minor, minor_of};
use vstd::prelude::*;

verus! {

/// How the mainline library's version is judged.
#[derive(Clone, Copy, Debug, PartialEq, Eq, Structural)]
pub enum Policy {
    /// Only the pinned version is accepted.
    Strict,
    /// Every version of a supported release line is accepted.
    Range,
}

/// The version that the strict policy accepts: release 3.1.0.
pub const PINNED_VERSION: u64 = 0x3010_0000;

/// The first version of the next major line, which has no release yet:
/// 4.0.0. Nothing from here on is supported.
pub const NEXT_MAJOR: u64 = 0x4000_0000;

/// Whether a mainline version belongs to a supported release line: 1.0.1,
/// 1.0.2, 1.1.0, 1.1.1, or any release of major version 3.
pub open spec fn on_supported_line(version: u64) -> bool {
    ||| 0x1000_1000 <= version < 0x1000_2000
    ||| 0x1000_2000 <= version < 0x1000_3000
    ||| 0x1010_0000 <= version < 0x1010_1000
    ||| 0x1010_1000 <= version < 0x1010_2000
    ||| 0x3000_0000 <= version < NEXT_MAJOR
}

/// Whether `version` of `variant` is supported under `policy`.
pub open spec fn supported(policy: Policy, variant: Variant, version: u64) -> bool {
    match variant {
        Variant::ForkB => true,
        Variant::ForkA => label_of(major_of(version), minor_of(version), fix_of(version)) is Ok,
        Variant::MainlineModern | Variant::MainlineLegacy => match policy {
            Policy::Strict => version == PINNED_VERSION,
            Policy::Range => on_supported_line(version),
        },
    }
}

/// What a version of `variant` is measured against under `policy`.
pub open spec fn window(policy: Policy, variant: Variant) -> SupportWindow {
    match variant {
        Variant::ForkA => SupportWindow::LabelTable,
        _ => match policy {
            Policy::Strict => SupportWindow::Pinned,
            Policy::Range => SupportWindow::ReleaseLines,
        },
    }
}

/// What the compatibility check comes to. The BoringSSL-like fork always
/// passes, with or without a version. Any other variant needs a version,
/// and a supported one.
pub open spec fn verdict(policy: Policy, variant: Variant, encoded_version: Option<u64>) -> Result<
    (),
    Error,
> {
    match variant {
        Variant::ForkB => Ok(()),
        _ => match encoded_version {
            None => Err(Error::NoVersionFound),
            Some(version) => if supported(policy, variant, version) {
                Ok(())
            } else {
                Err(
                    Error::UnsupportedVersion {
                        detected: version,
                        supported: window(policy, variant),
                    },
                )
            },
        },
    }
}

/// The failure for a version that is not supported.
pub fn version_error(detected: u64, supported: SupportWindow) -> (e: Error)
    ensures
        e == (Error::UnsupportedVersion { detected, supported }),
{
    Error::UnsupportedVersion { detected, supported }
}

/// Decides whether a mainline version belongs to a supported release line.
pub fn supported_line(version: u64) -> (b: bool)
    ensures
        b == on_supported_line(version),
{
    (0x1000_1000 <= version && version < 0x1000_3000) || (0x1010_0000 <= version && version
        < 0x1010_2000) || (0x3000_0000 <= version && version < NEXT_MAJOR)
}

/// Checks the classified variant and version against what is supported.
pub fn check_supported(policy: Policy, variant: Variant, encoded_version: Option<u64>) -> (checked:
    Result<(), Error>)
    ensures
        checked == verdict(policy, variant, encoded_version),
{
    match variant {
        Variant::ForkB => Ok(()),
        Variant::ForkA => match encoded_version {
            None => Err(Error::NoVersionFound),
            Some(version) => match resolve_label(major(version), minor(version), fix(version)) {
                Ok(_) => Ok(()),
                Err(_) => Err(version_error(version, SupportWindow::LabelTable)),
            },
        },
        Variant::MainlineModern | Variant::MainlineLegacy => match encoded_version {
            None => Err(Error::NoVersionFound),
            Some(version) => match policy {
                Policy::Strict => if version == PINNED_VERSION {
                    Ok(())
                } else {
                    Err(version_error(version, SupportWindow::Pinned))
                },
                Policy::Range => if supported_line(version) {
                    Ok(())
                } else {
                    Err(version_error(version, SupportWindow::ReleaseLines))
                },
            },
        },
    }
}

} // verus!

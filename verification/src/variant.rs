//! The library variants that a build can meet.

use vstd::prelude::*;

verus! {

/// Which implementation of the library is installed. A build has exactly
/// one.
#[derive(Clone, Copy, Debug, PartialEq, Eq, Structural)]
pub enum Variant {
    /// The mainline library from release 3.0.0 on.
    MainlineModern,
    /// The mainline library before release 3.0.0.
    MainlineLegacy,
    /// The LibreSSL-like fork, with version numbers of its own.
    ForkA,
    /// The BoringSSL-like fork, which has its own set of bindings.
    ForkB,
}

/// The first encoded version of the modern mainline library: release 3.0.0.
pub const FIRST_MODERN: u64 = 0x3000_0000;

/// The variant of a mainline library of the given version.
pub open spec fn mainline_variant(version: u64) -> Variant {
    if version >= FIRST_MODERN {
        Variant::MainlineModern
    } else {
        Variant::MainlineLegacy
    }
}

/// Computes `mainline_variant`.
pub fn mainline_variant_of(version: u64) -> (variant: Variant)
    ensures
        variant == mainline_variant(version),
{
    if version >= FIRST_MODERN {
        Variant::MainlineModern
    } else {
        Variant::MainlineLegacy
    }
}

} // verus!

//! The ways in which classification fails, and what to tell the operator.

use crate::gate::{NEXT_MAJOR, PINNED_VERSION};
use crate::numeral::{append_lower_hex, lower_hex};
use vstd::prelude::*;

verus! {

/// What an unsupported version was measured against.
#[derive(Clone, Copy, Debug, PartialEq, Eq, Structural)]
pub enum SupportWindow {
    /// The one pinned mainline version.
    Pinned,
    /// The supported mainline release lines.
    ReleaseLines,
    /// The release lines that the legacy label table knows.
    LabelTable,
}

/// A fatal classification failure. None of them is recoverable: each one
/// ends the build.
#[derive(Clone, Copy, Debug, PartialEq, Eq, Structural)]
pub enum Error {
    /// A version marker was found, but what follows it is no version.
    MalformedVersionToken,
    /// The text holds no sign of any known library.
    NoVersionFound,
    /// A library was recognised, but its version is outside what is supported.
    UnsupportedVersion { detected: u64, supported: SupportWindow },
    /// The headers could not be expanded at all.
    HeaderExpansionFailure,
}

impl SupportWindow {
    /// The description of what is supported.
    pub open spec fn description(self) -> Seq<char> {
        match self {
            SupportWindow::Pinned => "only OpenSSL 3.1.0 is supported, which is version 0x"@
                + lower_hex(PINNED_VERSION as nat),
            SupportWindow::ReleaseLines =>
                "supported are OpenSSL 1.0.1, 1.0.2, 1.1.0, 1.1.1 and 3.x, all below version 0x"@
                + lower_hex(NEXT_MAJOR as nat),
            SupportWindow::LabelTable => "supported are LibreSSL 2.5 to 3.9"@,
        }
    }

    /// Appends the description of what is supported to `out`.
    pub fn describe(&self, out: &mut String)
        ensures
            final(out)@ == old(out)@ + self.description(),
    {
        match self {
            SupportWindow::Pinned => {
                out.append("only OpenSSL 3.1.0 is supported, which is version 0x");
                append_lower_hex(out, PINNED_VERSION);
            },
            SupportWindow::ReleaseLines => {
                out.append(
                    "supported are OpenSSL 1.0.1, 1.0.2, 1.1.0, 1.1.1 and 3.x, all below version 0x",
                );
                append_lower_hex(out, NEXT_MAJOR);
            },
            SupportWindow::LabelTable => {
                out.append("supported are LibreSSL 2.5 to 3.9");
            },
        }
        proof {
            assert(final(out)@ =~= old(out)@ + self.description());
        }
    }
}

impl Error {
    /// The message for the operator. For an unsupported version it names
    /// the version that was found and what is supported instead.
    pub open spec fn message_text(self) -> Seq<char> {
        match self {
            Error::MalformedVersionToken =>
                "A version marker in the expanded headers is not followed by a version. The toolchain or the headers are not what this build expects."@,
            Error::NoVersionFound =>
                "No library version was found in the expanded headers. Check that OpenSSL and its development headers are installed where the build looks for them."@,
            Error::UnsupportedVersion { detected, supported } => "Found library version 0x"@
                + lower_hex(detected as nat) + ", but "@ + supported.description() + ". Install a supported version of the library, or use a revision of the bindings that supports this one."@,
            Error::HeaderExpansionFailure =>
                "Failed to find OpenSSL development headers.\n\nYou can try fixing this setting the `OPENSSL_DIR` environment variable\npointing to your OpenSSL installation or installing OpenSSL headers package\nspecific to your distribution:\n\n    # On Ubuntu\n    sudo apt-get install libssl-dev\n    # On Arch Linux\n    sudo pacman -S openssl\n    # On Fedora\n    sudo dnf install openssl-devel\n    # On Alpine Linux\n    apk add openssl-dev\n\nSee rust-openssl documentation for more information:\n\n    https://docs.rs/openssl\n"@,
        }
    }

    /// Writes the message for the operator.
    pub fn message(&self) -> (text: String)
        ensures
            text@ == self.message_text(),
    {
        match self {
            Error::MalformedVersionToken => String::from_str(
                "A version marker in the expanded headers is not followed by a version. The toolchain or the headers are not what this build expects.",
            ),
            Error::NoVersionFound => String::from_str(
                "No library version was found in the expanded headers. Check that OpenSSL and its development headers are installed where the build looks for them.",
            ),
            Error::UnsupportedVersion { detected, supported } => {
                let mut text = String::from_str("Found library version 0x");
                append_lower_hex(&mut text, *detected);
                text.append(", but ");
                supported.describe(&mut text);
                text.append(
                    ". Install a supported version of the library, or use a revision of the bindings that supports this one.",
                );
                proof {
                    assert(text@ =~= self.message_text());
                }
                text
            },
            Error::HeaderExpansionFailure => String::from_str(
                "Failed to find OpenSSL development headers.\n\nYou can try fixing this setting the `OPENSSL_DIR` environment variable\npointing to your OpenSSL installation or installing OpenSSL headers package\nspecific to your distribution:\n\n    # On Ubuntu\n    sudo apt-get install libssl-dev\n    # On Arch Linux\n    sudo pacman -S openssl\n    # On Fedora\n    sudo dnf install openssl-devel\n    # On Alpine Linux\n    apk add openssl-dev\n\nSee rust-openssl documentation for more information:\n\n    https://docs.rs/openssl\n",
            ),
        }
    }
}

} // verus!

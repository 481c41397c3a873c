//! The bootstrap failure taxonomy and its user-facing messages.
//!
//! The literal texts are compatibility-sensitive: external packaging checks
//! match them verbatim, so each rendering function pins the exact character
//! sequence in its contract.

use vstd::prelude::*;
use vstd::string::StringExecFns;

verus! {

/// The build target family, which selects the permission-guidance text.
#[derive(Clone, Copy, Debug, PartialEq, Eq, Structural)]
pub enum Platform {
    Linux,
    MacOsBsd,
}

/// A failure of one whole bootstrap attempt. No partial bundle accompanies it.
#[derive(Debug)]
pub enum BootstrapError {
    /// The explicitly requested interface is absent from the directory.
    InterfaceNotFound(String),
    /// No interface passed the up-and-addressed filter, or every channel
    /// open failed for reasons other than permissions.
    NoUsableInterfaces,
    /// At least one channel open was denied by the OS while none succeeded.
    InsufficientPermissions,
    /// The DNS resolver could not be constructed.
    DnsUnavailable,
}

/// The mathematical shape of a `BootstrapError`: the same variants, with the
/// requested interface name as a character sequence.
pub enum BootstrapFailure {
    InterfaceNotFound { name: Seq<char> },
    NoUsableInterfaces,
    InsufficientPermissions,
    DnsUnavailable,
}

impl View for BootstrapError {
    type V = BootstrapFailure;

    open spec fn view(&self) -> BootstrapFailure {
        match self {
            BootstrapError::InterfaceNotFound(n) => BootstrapFailure::InterfaceNotFound {
                name: n@,
            },
            BootstrapError::NoUsableInterfaces => BootstrapFailure::NoUsableInterfaces,
            BootstrapError::InsufficientPermissions => BootstrapFailure::InsufficientPermissions,
            BootstrapError::DnsUnavailable => BootstrapFailure::DnsUnavailable,
        }
    }
}

/// The permission-guidance text for each platform.
pub open spec fn eperm_text(platform: Platform) -> Seq<char> {
    match platform {
        Platform::MacOsBsd => "Insufficient permissions to listen on network interface(s). Try running with sudo."@,
        Platform::Linux => "
    Insufficient permissions to listen on network interface(s). You can work around
    this issue like this:

    * Try running `bandwhich` with `sudo`

    * Build a `setcap(8)` wrapper for `bandwhich` with the following rules:
        `cap_sys_ptrace,cap_dac_read_search,cap_net_raw,cap_net_admin+ep`
    "@,
    }
}

/// The message that announces a permission-denied bootstrap failure.
pub fn eperm_message(platform: Platform) -> (r: &'static str)
    ensures
        r@ == eperm_text(platform),
{
    match platform {
        Platform::MacOsBsd => "Insufficient permissions to listen on network interface(s). Try running with sudo.",
        Platform::Linux => "
    Insufficient permissions to listen on network interface(s). You can work around
    this issue like this:

    * Try running `bandwhich` with `sudo`

    * Build a `setcap(8)` wrapper for `bandwhich` with the following rules:
        `cap_sys_ptrace,cap_dac_read_search,cap_net_raw,cap_net_admin+ep`
    ",
    }
}

/// The complete message text of a failure, by variant.
pub open spec fn failure_text(failure: BootstrapFailure, platform: Platform) -> Seq<char> {
    match failure {
        BootstrapFailure::InterfaceNotFound { name } => "Cannot find interface "@ + name,
        BootstrapFailure::NoUsableInterfaces => "Failed to find any network interface to listen on."@,
        BootstrapFailure::InsufficientPermissions => eperm_text(platform),
        BootstrapFailure::DnsUnavailable => "Could not initialize the DNS resolver. Are you offline?"@,
    }
}

impl BootstrapError {
    /// Renders the error as the exact terminal message of this failure.
    pub fn message(&self, platform: Platform) -> (r: String)
        ensures
            r@ == failure_text(self@, platform),
    {
        match self {
            BootstrapError::InterfaceNotFound(name) => {
                let mut s = String::from_str("Cannot find interface ");
                s.append(name.as_str());
                s
            },
            BootstrapError::NoUsableInterfaces => String::from_str(
                "Failed to find any network interface to listen on.",
            ),
            BootstrapError::InsufficientPermissions => String::from_str(eperm_message(platform)),
            BootstrapError::DnsUnavailable => String::from_str(
                "Could not initialize the DNS resolver. Are you offline?",
            ),
        }
    }
}

/// Whether `needle` occurs contiguously inside `hay`.
pub open spec fn has_substring(hay: Seq<char>, needle: Seq<char>) -> bool {
    exists|k: int|
        0 <= k && k + needle.len() <= hay.len() && #[trigger] hay.subrange(k, k + needle.len())
            == needle
}

/// An interface-not-found failure names the missing interface verbatim:
/// its message contains the requested name as a contiguous substring.
pub proof fn lemma_not_found_message_names_interface(name: Seq<char>, platform: Platform)
    ensures
        has_substring(
            failure_text(BootstrapFailure::InterfaceNotFound { name }, platform),
            name,
        ),
{
    let prefix = "Cannot find interface "@;
    let text = failure_text(BootstrapFailure::InterfaceNotFound { name }, platform);
    assert(text == prefix + name);
    let k = prefix.len() as int;
    assert(text.subrange(k, k + name.len()) =~= name);
}

} // verus!

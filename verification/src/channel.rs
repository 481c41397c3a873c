//! Classification of capture-channel acquisition: what opening a raw-frame
//! receive handle on one interface produced, and which failure kind it maps
//! to. Only link-layer (Ethernet) channels are supported; OS failures keep
//! their classification so permission problems stay distinguishable.

use vstd::prelude::*;

verus! {

/// The read timeout, in seconds, configured on every capture channel so
/// polling loops remain responsive to shutdown.
pub const READ_TIMEOUT_SECS: u64 = 1;

/// How the OS classified a failed channel open.
#[derive(Clone, Copy, Debug, PartialEq, Eq, Structural)]
pub enum OsErrorClass {
    /// Raw capture access was denied.
    PermissionDenied,
    /// Any other OS failure.
    Other,
}

/// What the channel factory observed when opening one interface.
#[derive(Clone, Copy, Debug, PartialEq, Eq, Structural)]
pub enum RawOpen {
    /// An Ethernet (link-layer) channel came up.
    Ethernet,
    /// A channel of some other kind came up.
    NonEthernet,
    /// The OS refused the open.
    OsError(OsErrorClass),
}

/// The failure kind recorded for one interface whose channel did not open.
#[derive(Clone, Copy, Debug, PartialEq, Eq, Structural)]
pub enum OpenErrorKind {
    /// A non-link-layer channel was opened; only Ethernet is supported.
    UnsupportedInterfaceType,
    /// The OS denied raw capture access.
    PermissionDenied,
    /// The OS failed the open for another reason.
    Other,
}

/// The per-interface record of a channel-acquisition attempt.
#[derive(Clone, Copy, Debug, PartialEq, Eq, Structural)]
pub enum OpenOutcome {
    /// A live, read-timeout-bound Ethernet channel is held for the interface.
    Opened,
    /// No channel; the specific error is kept for later inspection.
    Failed(OpenErrorKind),
}

/// The outcome that one observation of the channel factory maps to.
pub open spec fn classify_model(probe: RawOpen) -> OpenOutcome {
    match probe {
        RawOpen::Ethernet => OpenOutcome::Opened,
        RawOpen::NonEthernet => OpenOutcome::Failed(OpenErrorKind::UnsupportedInterfaceType),
        RawOpen::OsError(OsErrorClass::PermissionDenied) => OpenOutcome::Failed(
            OpenErrorKind::PermissionDenied,
        ),
        RawOpen::OsError(OsErrorClass::Other) => OpenOutcome::Failed(OpenErrorKind::Other),
    }
}

/// Classifies what opening a channel produced: an Ethernet channel is kept,
/// any other channel kind is the unsupported-interface-type error, and an OS
/// failure passes through with its classification preserved.
pub fn classify_channel(probe: RawOpen) -> (r: OpenOutcome)
    ensures
        r == classify_model(probe),
{
    match probe {
        RawOpen::Ethernet => OpenOutcome::Opened,
        RawOpen::NonEthernet => OpenOutcome::Failed(OpenErrorKind::UnsupportedInterfaceType),
        RawOpen::OsError(OsErrorClass::PermissionDenied) => OpenOutcome::Failed(
            OpenErrorKind::PermissionDenied,
        ),
        RawOpen::OsError(OsErrorClass::Other) => OpenOutcome::Failed(OpenErrorKind::Other),
    }
}

} // verus!

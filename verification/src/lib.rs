//! Resource-acquisition bootstrap layer for a live network-bandwidth monitor.
//!
//! The decision logic of the bootstrap — which interfaces are candidates,
//! how channel-open failures are classified, when DNS construction is
//! attempted, and how the final bundle is assembled — is verified here over
//! plain values. The surrounding process (raw sockets, OS signals, the
//! terminal, the async runtime) observes the environment and hands the
//! observations to these functions.

pub mod bootstrap;
pub mod channel;
pub mod errors;
pub mod iface;
pub mod keyboard;
pub mod signal;
pub mod sink;

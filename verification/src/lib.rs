//! Verified core of a spot-fleet orchestration library.
//!
//! The library drives a declarative fleet description (named machine sets)
//! through spot-request placement, readiness polling, SSH dispatch and
//! guaranteed teardown.  Everything that decides — which cloud call comes
//! next, how a provider response is classified, how identifiers are tracked,
//! how the fleet handed to the user callback is assembled — lives here and is
//! verified.  The surrounding process (HTTP calls to the provider, TCP/SSH
//! traffic, temp files) stays outside and feeds this library plain values.

use vstd::prelude::*;

pub use builder::BurstBuilder;
pub use builder::SetSpec;
pub use controller::Controller;
pub use controller::Phase;
pub use errors::AddSetError;
pub use errors::BurstError;
pub use machine::Machine;
pub use machine::MachineSetup;

pub mod access;
pub mod builder;
pub mod connect;
pub mod controller;
pub mod errors;
pub mod idmap;
pub mod instances;
pub mod machine;
pub mod spot;
pub mod text;

verus! {

/// Marker for the remote-shell capability handed to per-set setup routines.
/// The concrete shell lives outside the verified core; setup routines receive
/// it there.
pub struct SshConnection;

} // verus!

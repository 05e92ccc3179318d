//! Structured errors for every phase of the fleet pipeline.
//!
//! Errors carry the identifying context (which step, which set, which
//! machine) as fields; rendering them as text is left to the caller.

use vstd::prelude::*;

verus! {

/// The access-provisioning sub-step that failed.
#[derive(Clone, Copy, PartialEq, Eq, Structural, Debug)]
pub enum AccessStep {
    /// Building the cloud API client itself.
    CreateClient,
    /// Creating the ephemeral security group.
    CreateSecurityGroup,
    /// Authorizing the two ingress rules on the group.
    AuthorizeIngress,
    /// Creating the ephemeral keypair.
    CreateKeyPair,
    /// Creating the scoped temp file for the private key.
    CreateKeyFile,
    /// Writing the private key material to that file.
    WriteKeyFile,
}

/// A non-transient fault of the readiness poller.
#[derive(Clone, Copy, PartialEq, Eq, Structural, Debug)]
pub enum PollFault {
    /// A described spot request carried no state field.
    MissingState,
    /// The describe-spot-requests call failed with a non-transient error.
    Describe,
    /// Cancelling the satisfied spot requests failed.
    Cancel,
    /// The describe-instances call failed.
    DescribeInstances,
}

/// A caller error when a machine set is added to the builder.
#[derive(Clone, Copy, PartialEq, Eq, Structural, Debug)]
pub enum AddSetError {
    /// Set names must be non-empty.
    EmptyName,
    /// Set names must be unique.
    DuplicateName,
    /// A set must ask for at least one machine.
    ZeroCount,
}

/// The single structured error a run can return; one variant per phase.
#[derive(Debug)]
pub enum BurstError {
    /// Failure while provisioning access (security group, keypair, key file).
    AccessProvisioning { step: AccessStep },
    /// A spot request for the named set was rejected.
    Placement { set_name: String },
    /// A non-transient fault while polling for readiness.
    Polling { fault: PollFault },
    /// SSH to one machine of one set never came up within the connect budget.
    Connect { set_name: String, public_ip: String },
    /// The SSH handshake or key authentication failed on one machine.
    Auth { set_name: String, public_ip: String },
    /// The per-set setup routine failed on one machine.
    Setup { set_name: String, public_ip: String },
    /// The user callback returned an error.
    UserCallback,
    /// Terminating the fleet failed with a non-transient error.
    Termination,
}

} // verus!

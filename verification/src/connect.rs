//! The SSH connect policy: per-attempt timeout, retry delay, and the
//! wall-clock budget after which connecting gives up.

use vstd::prelude::*;

verus! {

/// Seconds allowed for one TCP connection attempt.
pub const CONNECT_ATTEMPT_TIMEOUT_SECS: u64 = 3;

/// Seconds slept between failed connection attempts.
pub const CONNECT_RETRY_DELAY_SECS: u64 = 1;

/// Wall-clock seconds after which connecting gives up.
pub const CONNECT_BUDGET_SECS: u64 = 60;

/// What the connect loop does after one attempt.
pub enum ConnectStep {
    /// The attempt produced a stream: hand it to the SSH handshake.
    Proceed,
    /// The attempt failed inside the budget: sleep and try again.
    RetryAfterDelay,
    /// The attempt failed and the budget is spent: report the failure.
    GiveUp,
}

/// Decide the next step of the connect loop from the attempt outcome and the
/// wall-clock seconds elapsed since the first attempt.  A connection that
/// never succeeds is retried while the budget lasts and gives up just after.
pub fn connect_decision(attempt_succeeded: bool, elapsed_secs: u64) -> (d: ConnectStep)
    ensures
        attempt_succeeded <==> d is Proceed,
        (!attempt_succeeded && elapsed_secs <= CONNECT_BUDGET_SECS) <==> d is RetryAfterDelay,
        (!attempt_succeeded && elapsed_secs > CONNECT_BUDGET_SECS) <==> d is GiveUp,
{
    if attempt_succeeded {
        ConnectStep::Proceed
    } else if elapsed_secs <= CONNECT_BUDGET_SECS {
        ConnectStep::RetryAfterDelay
    } else {
        ConnectStep::GiveUp
    }
}

/// The SSH user every machine is authenticated as.
pub fn ssh_username() -> (r: &'static str)
    ensures
        r@ == "ec2-user"@,
{
    "ec2-user"
}

/// The SSH endpoint of a machine: its public ip and the SSH port.
pub fn ssh_endpoint(public_ip: &str) -> (r: String)
    ensures
        r@ == public_ip@ + ":22"@,
{
    let mut s = public_ip.to_owned();
    s.append(":22");
    s
}

} // verus!

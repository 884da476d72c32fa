//! Broadcast policy for the server's fan-out.
//!
//! Broadcast failures never block sequencing — the frame is already
//! persisted and ordered — so the only question is what the driver does
//! about a failed send.

use vstd::prelude::*;

verus! {

/// How the driver handles a failed broadcast send.
#[derive(Debug, Clone, Copy, PartialEq, Eq, Structural)]
pub enum BroadcastPolicy {
    /// Log the failure and continue with the next recipient; right for
    /// simulation, where failures are part of the scenario.
    BestEffort,
    /// Retry with exponential backoff per recipient; right for
    /// production, where delivery matters.
    Retry {
        /// Most attempts per recipient.
        max_attempts: u32,
        /// First backoff in milliseconds.
        initial_backoff_ms: u64,
    },
}

impl Default for BroadcastPolicy {
    /// The default policy is best effort.
    fn default() -> (r: BroadcastPolicy)
        ensures
            r == BroadcastPolicy::BestEffort,
    {
        BroadcastPolicy::BestEffort
    }
}

} // verus!

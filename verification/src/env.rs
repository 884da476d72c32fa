//! Environment capability: time and randomness.
//!
//! The state machines never reach for ambient time or entropy; whatever
//! they need comes through this trait, so a run is a deterministic
//! function of its inputs and the environment supplied. Production code
//! uses `SystemEnv`; tests supply seeded implementations.

use vstd::prelude::*;
use crate::crypto::os_random_bytes;

verus! {

/// Supplies the two ambient inputs the protocol needs: a monotonic clock
/// reading in milliseconds, and random bytes.
pub trait Environment: Sized {
    /// Current time in milliseconds, used for timestamps and timeout
    /// decisions. Implementations should not let it go backwards.
    fn now_millis(&self) -> u64;

    /// Fresh random bytes of the requested length.
    fn random_bytes(&self, count: usize) -> (r: Vec<u8>)
        ensures
            r@.len() == count,
    ;
}

/// A random 64-bit value, read big-endian from eight environment bytes.
pub fn random_u64<E: Environment>(env: &E) -> u64 {
    let bytes = env.random_bytes(8);
    crate::wire::u64_from_be_bytes(bytes.as_slice())
}

/// A random 128-bit value, read from sixteen environment bytes; useful
/// for fresh room identifiers.
pub fn random_u128<E: Environment>(env: &E) -> u128 {
    let bytes = env.random_bytes(16);
    vstd::bytes::u128_from_le_bytes(bytes.as_slice())
}

/// Production environment: the operating system's clock and entropy pool.
#[derive(Clone)]
pub struct SystemEnv {
    base: u64,
}

impl SystemEnv {
    /// Creates the production environment.
    pub fn new() -> SystemEnv {
        SystemEnv { base: system_clock_millis() }
    }
}

impl Environment for SystemEnv {
    fn now_millis(&self) -> u64 {
        let now = system_clock_millis();
        if now >= self.base {
            now - self.base
        } else {
            0
        }
    }

    fn random_bytes(&self, count: usize) -> (r: Vec<u8>)
        ensures
            r@.len() == count,
    {
        os_random_bytes(count)
    }
}

/// Relies on std::time::SystemTime: milliseconds since the Unix epoch,
/// saturated to 64 bits. Nothing is promised of the value.
#[verifier::external_body]
fn system_clock_millis() -> u64 {
    match std::time::SystemTime::now().duration_since(std::time::UNIX_EPOCH) {
        Ok(d) => u64::try_from(d.as_millis()).unwrap_or(u64::MAX),
        Err(_) => 0,
    }
}

} // verus!

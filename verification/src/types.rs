//! Plain values shared by every component of the engine.

use vstd::prelude::*;

verus! {

/// An opaque 256-bit value: a public key, a key image or an account
/// fingerprint. It is held as four 64-bit words, most significant first.
#[derive(Clone, Copy, Debug, PartialEq, Eq, Structural)]
pub struct Key32 {
    pub w0: u64,
    pub w1: u64,
    pub w2: u64,
    pub w3: u64,
}

/// Identifies a monitor. It is made of the account's fingerprint and the
/// range of subaddresses that is watched, so that equal registrations give
/// equal identifiers.
#[derive(Clone, Copy, Debug, PartialEq, Eq, Structural)]
pub struct MonitorId {
    pub account: Key32,
    pub first_subaddress: u64,
    pub num_subaddresses: u64,
}

} // verus!

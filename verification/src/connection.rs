//! The connection layer's decisions: which peer a remote call goes to,
//! whether there is a peer at all, and how often and after what delays a
//! failed call is tried again.

use crate::error::{ConnectionError, Error};
use retry::delay::Fibonacci;
use retry::Error as RetryError;
use std::time::Duration;
use vstd::prelude::*;

verus! {

/// The nodes that the engine may call, and whose turn it is.
#[derive(Debug)]
pub struct PeerSet {
    /// The names of the nodes.
    pub peers: Vec<String>,
    /// The place of the node that the next call goes to, taken modulo the
    /// number of nodes.
    pub next: usize,
}

/// Some node of `peers` has the name `name`.
pub open spec fn has_peer(peers: Seq<String>, name: Seq<char>) -> bool {
    exists|i: int| 0 <= i < peers.len() && (#[trigger] peers[i])@ == name
}

impl PeerSet {
    /// A set of the given nodes; the first call goes to the first of them.
    pub fn new(peers: Vec<String>) -> (p: PeerSet)
        ensures
            p.peers == peers,
            p.next == 0,
    {
        PeerSet { peers, next: 0 }
    }

    /// No peers are configured: the engine is offline and serves only what it
    /// holds.
    pub open spec fn spec_is_offline(&self) -> bool {
        self.peers@.len() == 0
    }

    /// Tells whether the engine is offline.
    pub fn is_offline(&self) -> (r: bool)
        ensures
            r == self.spec_is_offline(),
    {
        self.peers.len() == 0
    }

    /// The node that the next remote call goes to; the nodes take turns.
    /// Offline there is no such node, no call is to be made, and nothing
    /// changes.
    pub fn pick(&mut self) -> (r: Result<usize, Error>)
        ensures
            final(self).peers == old(self).peers,
            match r {
                Ok(i) => {
                    &&& !old(self).spec_is_offline()
                    &&& i == old(self).next as int % old(self).peers@.len() as int
                    &&& final(self).next == (i + 1) % old(self).peers@.len() as int
                },
                Err(e) => {
                    &&& e == Error::NoPeersConfigured
                    &&& old(self).spec_is_offline()
                    &&& final(self).next == old(self).next
                },
            },
    {
        let n = self.peers.len();
        if n == 0 {
            return Err(Error::NoPeersConfigured);
        }
        let i = self.next % n;
        self.next = (i + 1) % n;
        Ok(i)
    }

    /// The place of the node with the name `name`: the first, if several
    /// have it.
    pub fn find(&self, name: &String) -> (r: Result<usize, Error>)
        ensures
            match r {
                Ok(i) => {
                    &&& i < self.peers@.len()
                    &&& self.peers@[i as int]@ == name@
                    &&& forall|j: int| 0 <= j < i ==> (#[trigger] self.peers@[j])@ != name@
                },
                Err(e) => if self.spec_is_offline() {
                    e == Error::NoPeersConfigured
                } else {
                    e == Error::NodeNotFound && !has_peer(self.peers@, name@)
                },
            },
    {
        if self.peers.len() == 0 {
            return Err(Error::NoPeersConfigured);
        }
        let mut i: usize = 0;
        while i < self.peers.len()
            invariant
                i <= self.peers.len(),
                forall|j: int| 0 <= j < i ==> (#[trigger] self.peers@[j])@ != name@,
            decreases self.peers.len() - i,
        {
            if self.peers[i] == *name {
                return Ok(i);
            }
            i += 1;
        }
        Err(Error::NodeNotFound)
    }
}

/// How a failed call is tried again: after the first failure the engine
/// waits `delays_ms[0]` milliseconds, after the second `delays_ms[1]`, and so
/// on; when the delays are used up the call has failed for good.
#[derive(Debug)]
pub struct RetryPolicy {
    pub delays_ms: Vec<u64>,
}

/// The delay of place `i` in the Fibonacci schedule that starts with `base`
/// twice, and the delay after it. Each further delay is the sum of the two
/// before it, or the largest `u64` where that is smaller.
pub open spec fn fibonacci_pair(base: u64, i: nat) -> (u64, u64)
    decreases i,
{
    if i == 0 {
        (base, base)
    } else {
        let before = fibonacci_pair(base, (i - 1) as nat);
        (before.1, capped_sum(before.0, before.1))
    }
}

/// The first `count` delays of the Fibonacci schedule that starts with
/// `base` twice.
pub open spec fn fibonacci_delays(base: u64, count: nat) -> Seq<u64> {
    Seq::new(count, |i: int| fibonacci_pair(base, i as nat).0)
}

/// The first `count` delays that `retry::delay::Fibonacci::from_millis` hands
/// out, in milliseconds. By the source of the `retry` crate the iterator
/// starts with the base delay twice and goes on with the sum of the last two
/// delays, or with the largest `u64` once the sum no longer fits.
#[verifier::external_body]
fn fibonacci_schedule(base_ms: u64, count: usize) -> (r: Vec<u64>)
    ensures
        r@ == fibonacci_delays(base_ms, count as nat),
{
    Fibonacci::from_millis(base_ms).take(count).map(|d| d.as_millis() as u64).collect()
}

impl RetryPolicy {
    /// The policy that tries a failed call again `retries` times, after
    /// delays that grow as the Fibonacci numbers do, from `base_ms`
    /// milliseconds on.
    pub fn fibonacci(base_ms: u64, retries: usize) -> (p: RetryPolicy)
        ensures
            p.delays_ms@ == fibonacci_delays(base_ms, retries as nat),
    {
        RetryPolicy { delays_ms: fibonacci_schedule(base_ms, retries) }
    }
}

/// Where a call stands between its attempts.
#[derive(Clone, Copy, Debug, PartialEq, Eq, Structural)]
pub struct RetryState {
    /// The number of attempts that have failed.
    pub failed: u64,
    /// The time waited between them, in milliseconds.
    pub waited_ms: u64,
}

/// What to do after an attempt has failed.
#[derive(Debug)]
pub enum RetryStep {
    /// Wait `delay_ms` milliseconds and try again from `next`.
    Wait { delay_ms: u64, next: RetryState },
    /// The call has failed for good, with this error.
    GiveUp { error: Error },
    /// The caller has cancelled: no further attempt is made.
    Cancelled,
}

/// `a + b`, or the largest `u64` where that is smaller.
pub open spec fn capped_sum(a: u64, b: u64) -> u64 {
    if a + b <= u64::MAX {
        (a + b) as u64
    } else {
        u64::MAX
    }
}

impl RetryState {
    /// A call before its first attempt.
    pub fn first() -> (s: RetryState)
        ensures
            s == (RetryState { failed: 0, waited_ms: 0 }),
    {
        RetryState { failed: 0, waited_ms: 0 }
    }
}

/// The error that a call ends with when it has failed for good after `tries`
/// attempts and `waited_ms` milliseconds of waiting, the last attempt having
/// failed with `cause`.
pub fn exhausted(cause: ConnectionError, waited_ms: u64, tries: u64) -> (e: Error)
    ensures
        e matches Error::Connection(RetryError::Operation { error, tries: t, .. }) && error == cause
            && t == tries,
{
    Error::Connection(
        RetryError::Operation { error: cause, total_delay: Duration::from_millis(waited_ms), tries },
    )
}

/// Decides what follows an attempt that failed with `cause`. Cancellation
/// comes first: a cancelled call is never tried again. Else the call waits
/// the next delay of the policy, if one is left, and else it gives up with a
/// connection error that carries `cause` and the number of attempts made.
pub fn on_failure(policy: &RetryPolicy, state: RetryState, cause: ConnectionError, cancelled: bool) -> (r:
    RetryStep)
    ensures
        match r {
            RetryStep::Cancelled => cancelled,
            RetryStep::Wait { delay_ms, next } => {
                &&& !cancelled
                &&& state.failed < policy.delays_ms@.len()
                &&& delay_ms == policy.delays_ms@[state.failed as int]
                &&& next.failed == state.failed + 1
                &&& next.waited_ms == capped_sum(state.waited_ms, delay_ms)
            },
            RetryStep::GiveUp { error } => {
                &&& !cancelled
                &&& state.failed >= policy.delays_ms@.len()
                &&& error matches Error::Connection(
                    RetryError::Operation { error: last, tries, .. },
                )
                &&& last == cause
                &&& tries == capped_sum(state.failed, 1)
            },
        },
{
    if cancelled {
        return RetryStep::Cancelled;
    }
    if state.failed < policy.delays_ms.len() as u64 {
        let delay_ms = policy.delays_ms[state.failed as usize];
        let waited_ms = if state.waited_ms <= u64::MAX - delay_ms {
            state.waited_ms + delay_ms
        } else {
            u64::MAX
        };
        RetryStep::Wait { delay_ms, next: RetryState { failed: state.failed + 1, waited_ms } }
    } else {
        let tries = if state.failed < u64::MAX {
            state.failed + 1
        } else {
            u64::MAX
        };
        RetryStep::GiveUp { error: exhausted(cause, state.waited_ms, tries) }
    }
}

} // verus!

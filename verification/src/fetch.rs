//! The resilient fetcher's decisions: a closed budget of five
//! attempts with a fixed one-second delay, and the token-expiry
//! signal. The surrounding process performs the requests and sleeps;
//! every decision about an outcome is taken here.

use vstd::prelude::*;

verus! {

/// Total attempts one fetch (or one token derivation) may use.
pub const MAX_ATTEMPTS: u32 = 5;

/// Seconds to wait between attempts; fixed, no jitter.
pub const RETRY_DELAY_SECS: u64 = 1;

/// Seconds the convergence loop sleeps between windows and between
/// outer iterations.
pub const SEEK_INTERVAL_SECS: u64 = 5;

/// One observed outcome of an attempt: an HTTP status, or a transport
/// failure with no status at all.
#[derive(Clone, Copy, Debug, PartialEq, Eq, Structural)]
pub enum FetchEvent {
    Status(u16),
    TransportError,
}

/// What to do after an outcome.
#[derive(Clone, Copy, Debug, PartialEq, Eq, Structural)]
pub enum FetchDecision {
    /// The response body is the result.
    Succeed,
    /// Wait the fixed delay and try again; when `invalidate` is set,
    /// clear the session token first so the next attempt re-derives
    /// it.
    Retry { invalidate: bool },
    /// The budget is exhausted: fail, carrying the last observed
    /// outcome so the caller can surface the final status or error.
    GiveUp(FetchEvent),
}

/// The transition of the retry budget: a success ends the sequence
/// without consuming the budget; everything else consumes one attempt,
/// and a forbidden-status outcome additionally invalidates the token
/// before the next try.
pub open spec fn fetch_step(attempts: u32, ev: FetchEvent) -> (u32, FetchDecision) {
    if ev == FetchEvent::Status(200u16) {
        (attempts, FetchDecision::Succeed)
    } else {
        let next = (attempts + 1) as u32;
        if next >= MAX_ATTEMPTS {
            (next, FetchDecision::GiveUp(ev))
        } else {
            (next, FetchDecision::Retry { invalidate: ev == FetchEvent::Status(403u16) })
        }
    }
}

/// Attempt counter of one fetch sequence.
#[derive(Clone, Copy, Debug, PartialEq, Eq, Structural)]
pub struct RetryState {
    pub attempts: u32,
}

impl RetryState {
    /// A fresh sequence with the whole budget.
    pub fn new() -> (r: RetryState)
        ensures
            r.attempts == 0,
    {
        RetryState { attempts: 0 }
    }

    /// Classifies one attempt's outcome and advances the budget.
    pub fn on_event(&mut self, ev: FetchEvent) -> (d: FetchDecision)
        requires
            old(self).attempts < MAX_ATTEMPTS,
        ensures
            (final (self).attempts, d) == fetch_step(old(self).attempts, ev),
            (d == (FetchDecision::Retry { invalidate: false }) || d == (FetchDecision::Retry {
                invalidate: true,
            })) ==> final (self).attempts < MAX_ATTEMPTS,
    {
        match ev {
            FetchEvent::Status(code) => {
                if code == 200 {
                    FetchDecision::Succeed
                } else {
                    self.attempts = self.attempts + 1;
                    if self.attempts >= MAX_ATTEMPTS {
                        FetchDecision::GiveUp(ev)
                    } else {
                        FetchDecision::Retry { invalidate: code == 403 }
                    }
                }
            },
            FetchEvent::TransportError => {
                self.attempts = self.attempts + 1;
                if self.attempts >= MAX_ATTEMPTS {
                    FetchDecision::GiveUp(ev)
                } else {
                    FetchDecision::Retry { invalidate: false }
                }
            },
        }
    }
}

/// A forbidden status always asks for exactly one token invalidation
/// before the next retry, and that retry still counts toward the
/// budget: the attempt counter advances by one, exactly as for any
/// other failed attempt.
pub proof fn lemma_forbidden_invalidates_once(attempts: u32)
    requires
        attempts + 1 < MAX_ATTEMPTS,
    ensures
        fetch_step(attempts, FetchEvent::Status(403u16)).1 == (FetchDecision::Retry {
            invalidate: true,
        }),
        fetch_step(attempts, FetchEvent::Status(403u16)).0 == attempts + 1,
        forall|code: u16|
            code != 200 && code != 403 ==> #[trigger] fetch_step(
                attempts,
                FetchEvent::Status(code),
            ).1 == (FetchDecision::Retry { invalidate: false }),
{
}

/// The budget is closed, and exhaustion is not silent: the fifth
/// failed attempt ends the sequence with the outcome it observed, so
/// the failure surfaced carries the last status or transport error.
pub proof fn lemma_budget_is_closed(attempts: u32, ev: FetchEvent)
    requires
        attempts < MAX_ATTEMPTS,
        attempts + 1 >= MAX_ATTEMPTS,
        ev != FetchEvent::Status(200u16),
    ensures
        fetch_step(attempts, ev).1 == FetchDecision::GiveUp(ev),
{
}

/// Why one token derivation attempt failed: the landing-page request
/// itself, or the page's structure.
#[derive(Clone, Copy, Debug, PartialEq, Eq, Structural)]
pub enum TokenFailure {
    /// The request for the landing page failed: transient.
    Network,
    /// The page no longer embeds the panel as expected: structural,
    /// so another attempt cannot help.
    StructureChanged,
}

/// Only a network failure of a token derivation is retried; a
/// structural extraction failure is surfaced at once, outside the
/// retry budget.
pub fn token_failure_is_transient(f: &TokenFailure) -> (r: bool)
    ensures
        r == (f is Network),
{
    match f {
        TokenFailure::Network => true,
        TokenFailure::StructureChanged => false,
    }
}

} // verus!

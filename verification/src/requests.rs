//! The life of a queued bridge request: pending until the career tick starts it or the
//! waiting caller gives up; each request either runs or is cancelled, never both.
use std::sync::atomic::{AtomicU8, Ordering};

use vstd::prelude::*;

verus! {

pub const REQUEST_PENDING: u8 = 0;

pub const REQUEST_PROCESSING: u8 = 1;

pub const REQUEST_CANCELLED: u8 = 2;

pub const REQUEST_DONE: u8 = 3;

/// The state a claim moves a request to: a pending request goes to `target`; a request that
/// already left the pending state (started, cancelled or done) is not moved.
pub open spec fn claim_next(state: u8, target: u8) -> Option<u8> {
    if state == REQUEST_PENDING {
        Some(target)
    } else {
        None
    }
}

/// One claim step, as [`claim_next`] states it.
pub fn claim_step(state: u8, target: u8) -> (next: Option<u8>)
    ensures
        next == claim_next(state, target),
{
    if state == REQUEST_PENDING {
        Some(target)
    } else {
        None
    }
}

/// `AtomicU8::fetch_update` with [`claim_step`] as the update: one atomic read-modify-write
/// that moves a pending request to `target`. `Ok` holds the state it replaced, for which the
/// step gave a new state; `Err` holds the state it found, for which the step gave none. The
/// atomic's value itself is not modelled, so nothing is stated of it.
#[verifier::external_body]
fn claim_atomically(execution: &AtomicU8, target: u8) -> (previous: Result<u8, u8>)
    ensures
        match previous {
            Ok(state) => claim_next(state, target) is Some,
            Err(state) => claim_next(state, target) is None,
        },
{
    execution.fetch_update(Ordering::AcqRel, Ordering::Acquire, |state| claim_step(state, target))
}

/// Moves a pending request to processing; false when it was no longer pending (already
/// started, cancelled or done). The change is one atomic read-modify-write, so a request that
/// a timeout cancelled cannot start, and one that started cannot be cancelled.
pub fn try_begin_request(execution: &AtomicU8) -> (started: bool) {
    claim_atomically(execution, REQUEST_PROCESSING).is_ok()
}

/// Moves a pending request to cancelled; false when it had already left the pending state.
pub fn cancel_pending_request(execution: &AtomicU8) -> (cancelled: bool) {
    claim_atomically(execution, REQUEST_CANCELLED).is_ok()
}

} // verus!

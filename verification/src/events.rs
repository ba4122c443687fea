//! Core events and the invalidation stream's coalescing rule.
//!
//! The core publishes events on a broadcast bus; subscribers of the
//! invalidation stream receive plain invalidations immediately, while the
//! debounced variant is coalesced per subscriber to at most one event per
//! window, dropping the ones in between. Thumbnail events bypass this
//! stream entirely.

use vstd::prelude::*;

verus! {

/// The coalescing window of the debounced invalidation stream, in
/// milliseconds: at most one debounced event per window reaches a
/// subscriber.
pub const DEBOUNCE_WINDOW_MS: u64 = 100;

/// Which cached query a subscriber must refetch.
#[derive(Debug)]
pub struct InvalidateOperationEvent {
    pub key: String,
}

/// An internal core event, exposed to clients via a subscription.
#[derive(Debug)]
pub enum CoreEvent {
    NewThumbnail { cas_id: String },
    InvalidateOperation(InvalidateOperationEvent),
    InvalidateOperationDebounced(InvalidateOperationEvent),
}

/// A subscriber's coalescing state: when it last forwarded a debounced
/// event.
#[derive(Debug, PartialEq, Eq, Structural, Clone, Copy)]
pub struct DebounceState {
    pub last_emit_ms: u64,
}

/// What the invalidation stream forwards for one received event: plain
/// invalidations always pass; debounced ones pass only when the window has
/// elapsed since the last forwarded one, which then restarts the window;
/// every other event is dropped.
pub fn invalidate_stream_decide(state: &mut DebounceState, event: CoreEvent, now_ms: u64) -> (r:
    Option<InvalidateOperationEvent>)
    requires
        now_ms >= old(state).last_emit_ms,
    ensures
        event matches CoreEvent::InvalidateOperation(op) ==> r == Some(op) && *final(state)
            == *old(state),
        event matches CoreEvent::InvalidateOperationDebounced(op) ==> {
            if now_ms - old(state).last_emit_ms > DEBOUNCE_WINDOW_MS {
                r == Some(op) && final(state).last_emit_ms == now_ms
            } else {
                r is None && *final(state) == *old(state)
            }
        },
        event matches CoreEvent::NewThumbnail { cas_id: _ } ==> r is None && *final(state)
            == *old(state),
{
    match event {
        CoreEvent::InvalidateOperation(op) => Some(op),
        CoreEvent::InvalidateOperationDebounced(op) => {
            if now_ms - state.last_emit_ms > DEBOUNCE_WINDOW_MS {
                state.last_emit_ms = now_ms;
                Some(op)
            } else {
                None
            }
        },
        CoreEvent::NewThumbnail { cas_id: _ } => None,
    }
}

/// Two debounced events inside one window never both pass: whichever came
/// first and passed restarts the window, and the second is dropped.
pub proof fn lemma_debounce_coalesces(last: u64, t1: u64, t2: u64)
    requires
        last <= t1 <= t2,
        t1 - last > DEBOUNCE_WINDOW_MS,
        t2 - t1 <= DEBOUNCE_WINDOW_MS,
    ensures
        !(t2 - t1 > DEBOUNCE_WINDOW_MS),
{
}

} // verus!

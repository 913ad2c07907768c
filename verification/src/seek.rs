//! The two-phase seek protocol.
//!
//! Some native seek primitives split a seek into a request phase and a
//! completion phase, each of which may report "not ready". `SeekState`
//! records whether a request phase has succeeded without its completion
//! having been observed, so that a re-invoked seek skips the request phase
//! and polls only for completion. The flag is cleared on both success and
//! failure of the completion phase: the next seek always starts a fresh
//! request.

use vstd::prelude::*;

verus! {

/// The cooperative seek driver's state between invocations.
#[derive(Clone, Copy, Debug, PartialEq, Eq, Structural)]
pub struct SeekState {
    /// A request phase succeeded and its completion is still awaited.
    pub in_progress: bool,
}

impl SeekState {
    /// A fresh driver: no seek is in flight.
    pub fn new() -> (s: SeekState)
        ensures
            !s.in_progress,
    {
        SeekState { in_progress: false }
    }

    /// Whether this invocation must run the request phase; when false,
    /// an earlier request already succeeded and only completion is polled.
    pub fn must_request(&self) -> (b: bool)
        ensures
            b == !self.in_progress,
    {
        !self.in_progress
    }

    /// The request phase succeeded: completion is now awaited, and a
    /// re-invocation must not issue a second request.
    pub fn on_request_done(&mut self)
        ensures
            final(self).in_progress,
    {
        self.in_progress = true;
    }

    /// The completion phase finished, with success or with failure:
    /// either way the next seek starts a fresh request.
    pub fn on_complete_done(&mut self)
        ensures
            !final(self).in_progress,
    {
        self.in_progress = false;
    }
}

} // verus!

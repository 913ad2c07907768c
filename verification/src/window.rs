//! Half-open byte windows `[start, end)` within a resource.

use vstd::prelude::*;

verus! {

/// A half-open range of bytes `[start, end)` within a resource of known size.
///
/// A well-formed window for a resource of `size` bytes satisfies
/// `start <= end <= size`; `end - start` is the exact number of body bytes
/// a windowed stream must yield.
#[derive(Clone, Copy, Debug, PartialEq, Eq, Structural)]
pub struct ByteWindow {
    pub start: u64,
    pub end: u64,
}

impl ByteWindow {
    /// The window is internally consistent: it does not run backwards.
    pub open spec fn wf(self) -> bool {
        self.start <= self.end
    }

    /// The window fits inside a resource of `size` bytes.
    pub open spec fn fits(self, size: u64) -> bool {
        self.wf() && self.end <= size
    }

    /// Number of bytes the window covers.
    pub open spec fn spec_len(self) -> int {
        self.end - self.start
    }

    /// Number of bytes the window covers.
    pub fn len(&self) -> (n: u64)
        requires
            self.wf(),
        ensures
            n == self.spec_len(),
    {
        self.end - self.start
    }
}

} // verus!

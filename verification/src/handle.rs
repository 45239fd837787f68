//! Exclusive ownership of a process access handle.
//!
//! A handle is an opaque capability issued by the process-open
//! primitive. Exactly one `HandleWrapper` owns it, and it must be
//! released exactly once: release consumes the wrapper, so the released
//! state is unrepresentable and a second release is ruled out at
//! compile time rather than detected at run time.

use vstd::prelude::*;

verus! {

/// Exclusive owner of one raw process handle value.
pub struct HandleWrapper {
    handle: usize,
}

impl HandleWrapper {
    /// The raw handle value this wrapper owns.
    pub closed spec fn raw(&self) -> usize {
        self.handle
    }

    /// Takes exclusive ownership of a raw handle value freshly issued
    /// by the process-open primitive.
    pub fn new(handle: usize) -> (h: HandleWrapper)
        ensures
            h.raw() == handle,
    {
        HandleWrapper { handle }
    }

    /// The raw value, for read-only queries against the process; the
    /// wrapper keeps ownership.
    pub fn get(&self) -> (r: usize)
        ensures
            r == self.raw(),
    {
        self.handle
    }

    /// Releases the handle: consumes the wrapper and hands the raw
    /// value back for the one closing call against the resource-close
    /// primitive. Because the wrapper is consumed, releasing a handle a
    /// second time is not a recoverable error but a program that does
    /// not build.
    pub fn release(self) -> (r: usize)
        ensures
            r == self.raw(),
    {
        self.handle
    }
}

} // verus!

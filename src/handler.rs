use vstd::prelude::*;

use crate::winsize::Winsize;

verus! {

/// An observer of a proxied session. Each hook does nothing unless the
/// implementer overrides it. Only the dispatcher calls these hooks, one at a
/// time, on its own thread.
pub trait PtyHandler {
    /// Bytes that the user typed, after they were written to the child.
    fn input(&mut self, data: &[u8]) {
    }

    /// Bytes that the child printed, after they were written to the screen.
    fn output(&mut self, data: &[u8]) {
    }

    /// The terminal's size, after it was applied to the child's terminal.
    fn resize(&mut self, winsize: &Winsize) {
    }

    /// The child closed its terminal; no hook is called after this one.
    fn shutdown(&mut self) {
    }
}

} // verus!

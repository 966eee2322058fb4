//! Values kept in step with an observer: a value is written on the first run of its update
//! function, and after that only when the observer reports a change. After each write the
//! functions that depend on the value are scheduled, see [`crate::runtime::UfMarker::trigger`].

use vstd::prelude::*;

verus! {

/// Remembers whether the update function has run before.
pub struct ChangeGate {
    first: bool,
}

impl ChangeGate {
    /// Whether the next run is the first.
    pub closed spec fn is_first(&self) -> bool {
        self.first
    }

    /// A gate before the first run.
    pub fn new() -> (g: ChangeGate)
        ensures
            g.is_first(),
    {
        ChangeGate { first: true }
    }

    /// Whether this run writes the value: on the first run, and later when the observer
    /// reported a change. Every later run is no longer the first.
    pub fn should_write(&mut self, changed: bool) -> (write: bool)
        ensures
            write == (old(self).is_first() || changed),
            !final(self).is_first(),
    {
        if !changed && !self.first {
            return false;
        }
        self.first = false;
        true
    }
}

} // verus!

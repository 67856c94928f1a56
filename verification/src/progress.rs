//! Observability state for a long-running operation: a counter of finished
//! steps, a target, and a textual state. Updates saturate instead of
//! wrapping; each method performs a single field update, so a caller that
//! shares the value behind a lock keeps per-call update granularity.

use vstd::prelude::*;

verus! {

/// `a + n`, saturating at `usize::MAX`.
pub open spec fn sat_add(a: usize, n: nat) -> usize {
    if a + n <= usize::MAX {
        (a + n) as usize
    } else {
        usize::MAX
    }
}

/// Progress of an ongoing operation: `count` steps finished out of `max`,
/// plus a textual state.
pub struct Progress {
    count: usize,
    max: usize,
    state: String,
}

impl Progress {
    pub closed spec fn spec_count(&self) -> usize {
        self.count
    }

    pub closed spec fn spec_max(&self) -> usize {
        self.max
    }

    pub closed spec fn spec_state(&self) -> Seq<char> {
        self.state@
    }

    /// A fresh progress value: nothing done, a target of one, no state text.
    pub fn new() -> (r: Self)
        ensures
            r.spec_count() == 0,
            r.spec_max() == 1,
            r.spec_state() == Seq::<char>::empty(),
    {
        Progress { count: 0, max: 1, state: String::new() }
    }

    /// Records one more finished step.
    pub fn inc(&mut self)
        ensures
            final(self).spec_count() == sat_add(old(self).spec_count(), 1),
            final(self).spec_max() == old(self).spec_max(),
            final(self).spec_state() == old(self).spec_state(),
    {
        if self.count < usize::MAX {
            self.count = self.count + 1;
        }
    }

    /// Replaces the textual state.
    pub fn set_state(&mut self, state: String)
        ensures
            final(self).spec_count() == old(self).spec_count(),
            final(self).spec_max() == old(self).spec_max(),
            final(self).spec_state() == state@,
    {
        self.state = state;
    }

    /// Replaces the target.
    pub fn set_max(&mut self, max: usize)
        ensures
            final(self).spec_count() == old(self).spec_count(),
            final(self).spec_max() == max,
            final(self).spec_state() == old(self).spec_state(),
    {
        self.max = max;
    }

    /// Sets the target from a byte count: one step for each 64-byte block.
    pub fn set_max_data(&mut self, bytes: usize)
        ensures
            final(self).spec_count() == old(self).spec_count(),
            final(self).spec_max() == bytes / 64,
            final(self).spec_state() == old(self).spec_state(),
    {
        self.set_max(bytes / 64);
    }

    /// Raises the target by `inc`.
    pub fn inc_max(&mut self, inc: usize)
        ensures
            final(self).spec_count() == old(self).spec_count(),
            final(self).spec_max() == sat_add(old(self).spec_max(), inc as nat),
            final(self).spec_state() == old(self).spec_state(),
    {
        if self.max <= usize::MAX - inc {
            self.max = self.max + inc;
        } else {
            self.max = usize::MAX;
        }
    }

    /// The current textual state.
    pub fn get_state(&self) -> (r: String)
        ensures
            r@ == self.spec_state(),
    {
        self.state.clone()
    }

    /// The number of finished steps.
    pub fn get_count(&self) -> (r: usize)
        ensures
            r == self.spec_count(),
    {
        self.count
    }

    /// The current target.
    pub fn get_max(&self) -> (r: usize)
        ensures
            r == self.spec_max(),
    {
        self.max
    }
}

impl std::default::Default for Progress {
    /// Same as `Progress::new`.
    fn default() -> (r: Self)
        ensures
            r.spec_count() == 0,
            r.spec_max() == 1,
            r.spec_state() == Seq::<char>::empty(),
    {
        Progress::new()
    }
}

} // verus!

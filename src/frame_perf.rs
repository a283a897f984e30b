//! Per-frame execution time tracking for the renderer.

use std::collections::VecDeque;
use vstd::prelude::*;

use crate::perf::{push_sample, sum_unsigned, total_unsigned, window, MAX_FRAMES};

verus! {

/// The execution times of the latest frames, in microseconds.
pub struct Perf {
    exec_us: VecDeque<u64>,
}

impl View for Perf {
    type V = Seq<u64>;

    closed spec fn view(&self) -> Seq<u64> {
        self.exec_us@
    }
}

impl Perf {
    /// At most `MAX_FRAMES` samples are retained.
    pub closed spec fn wf(&self) -> bool {
        self.exec_us@.len() <= MAX_FRAMES
    }

    /// A tracker without samples.
    pub fn new() -> (r: Self)
        ensures
            r.wf(),
            r@ == Seq::<u64>::empty(),
    {
        Perf { exec_us: VecDeque::new() }
    }

    /// Records the execution time of one frame, evicting the oldest sample
    /// once `MAX_FRAMES` are retained.
    pub fn push_exec_us(&mut self, time: u64)
        requires
            old(self).wf(),
        ensures
            final(self).wf(),
            final(self)@ == window(old(self)@.push(time)),
    {
        push_sample(&mut self.exec_us, time);
    }

    /// The number of retained samples.
    pub fn len(&self) -> (r: usize)
        ensures
            r == self@.len(),
    {
        self.exec_us.len()
    }

    /// The sum of the retained samples.
    pub fn total_exec_us(&self) -> (r: u128)
        requires
            self.wf(),
        ensures
            r == sum_unsigned(self@),
    {
        total_unsigned(&self.exec_us)
    }
}

impl Default for Perf {
    fn default() -> (r: Self)
        ensures
            r.wf(),
            r@ == Seq::<u64>::empty(),
    {
        Perf::new()
    }
}

} // verus!

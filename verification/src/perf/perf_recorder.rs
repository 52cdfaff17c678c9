use std::collections::VecDeque;
use vstd::prelude::*;

verus! {

/// How many frames a timing window remembers.
pub const MAX_FRAMES: usize = 32;

/// The timings of the last frames of one phase, oldest first. The samples are
/// of any type; averaging them is left to the owner.
#[derive(Debug, Clone)]
pub struct FrameTimes<T> {
    samples: VecDeque<T>,
}

/// The samples after one more is recorded: the oldest is dropped when the
/// window is full.
pub open spec fn after_record<T>(samples: Seq<T>, sample: T) -> Seq<T> {
    if MAX_FRAMES <= samples.len() {
        samples.drop_first().push(sample)
    } else {
        samples.push(sample)
    }
}

impl<T> FrameTimes<T> {
    pub closed spec fn spec_samples(&self) -> Seq<T> {
        self.samples@
    }

    /// A window that remembers nothing yet.
    pub fn new() -> (r: FrameTimes<T>)
        ensures
            r.spec_samples() == Seq::<T>::empty(),
    {
        FrameTimes { samples: VecDeque::with_capacity(MAX_FRAMES) }
    }

    /// Records the timing of the frame that just ended.
    pub fn record(&mut self, sample: T)
        ensures
            final(self).spec_samples() == after_record(old(self).spec_samples(), sample),
    {
        if MAX_FRAMES <= self.samples.len() {
            self.samples.pop_front();
        }
        self.samples.push_back(sample);
    }

    /// The remembered timings, oldest first.
    pub fn samples(&self) -> (r: &VecDeque<T>)
        ensures
            r@ == self.spec_samples(),
    {
        &self.samples
    }

    pub fn len(&self) -> (r: usize)
        ensures
            r == self.spec_samples().len(),
    {
        self.samples.len()
    }
}

/// A window never holds more than `MAX_FRAMES` timings once it holds at most
/// that many, and the newest timing is always the last.
pub proof fn lemma_window_bounded<T>(samples: Seq<T>, sample: T)
    requires
        samples.len() <= MAX_FRAMES,
    ensures
        after_record(samples, sample).len() <= MAX_FRAMES,
        after_record(samples, sample).last() == sample,
{
}

} // verus!

//! The backlog of system audio that waits to be mixed with the microphone.

use std::collections::VecDeque;

use vstd::prelude::*;

verus! {

/// The most samples that wait: thirty seconds of recorded audio.
pub const BACKLOG_SAMPLES: usize = 480_000;

/// Samples that wait to be mixed, the oldest first.
pub struct Backlog<T> {
    pub queue: VecDeque<T>,
}

/// The last `max` items of a list.
pub open spec fn last_items<T>(list: Seq<T>, max: nat) -> Seq<T> {
    if list.len() <= max {
        list
    } else {
        list.subrange(list.len() - max, list.len() as int)
    }
}

/// The smaller of two numbers.
pub open spec fn smaller(a: nat, b: nat) -> nat {
    if a <= b {
        a
    } else {
        b
    }
}

impl<T> View for Backlog<T> {
    type V = Seq<T>;

    open spec fn view(&self) -> Seq<T> {
        self.queue@
    }
}

impl<T: Copy> Backlog<T> {
    /// The backlog is bounded.
    pub open spec fn wf(&self) -> bool {
        self@.len() <= BACKLOG_SAMPLES
    }

    /// Nothing waits.
    pub fn new() -> (r: Self)
        ensures
            r.wf(),
            r@ == Seq::<T>::empty(),
    {
        Backlog { queue: VecDeque::new() }
    }

    /// Add samples; where too many wait, the oldest are dropped.
    pub fn add_samples(&mut self, samples: &Vec<T>)
        requires
            old(self).wf(),
        ensures
            final(self).wf(),
            final(self)@ == last_items(old(self)@ + samples@, BACKLOG_SAMPLES as nat),
            final(self)@.is_suffix_of(old(self)@ + samples@),
            old(self)@.len() + samples@.len() <= 480_000 ==> final(self)@ == old(self)@ + samples@,
            old(self)@.len() + samples@.len() >= 480_000 ==> final(self)@.len() == 480_000,
    {
        let ghost before = self.queue@;
        let mut i: usize = 0;
        assert(before + samples@.take(0) =~= before);
        while i < samples.len()
            invariant
                i <= samples@.len(),
                self.queue@ == before + samples@.take(i as int),
            decreases samples@.len() - i,
        {
            self.queue.push_back(samples[i]);
            i = i + 1;
            assert(self.queue@ =~= before + samples@.take(i as int));
        }
        let ghost all = before + samples@;
        assert(samples@.take(samples@.len() as int) =~= samples@);
        assert(self.queue@ =~= all.subrange(all.len() - self.queue@.len(), all.len() as int));
        while self.queue.len() > BACKLOG_SAMPLES
            invariant
                self.queue@.len() <= all.len(),
                self.queue@ == all.subrange(all.len() - self.queue@.len(), all.len() as int),
                self.queue@.len() == all.len() || self.queue@.len() >= BACKLOG_SAMPLES,
            decreases self.queue@.len(),
        {
            let _dropped: Option<T> = self.queue.pop_front();
            assert(self.queue@ =~= all.subrange(
                all.len() - self.queue@.len(),
                all.len() as int,
            ));
        }
        assert(self.queue@ =~= last_items(all, BACKLOG_SAMPLES as nat));
    }

    /// Take up to `n` samples, the oldest first.
    pub fn take_samples(&mut self, n: usize) -> (r: Vec<T>)
        requires
            old(self).wf(),
        ensures
            final(self).wf(),
            r@ == old(self)@.take(smaller(n as nat, old(self)@.len()) as int),
            final(self)@ == old(self)@.skip(smaller(n as nat, old(self)@.len()) as int),
            r@ + final(self)@ == old(self)@,
            r@.len() <= n,
            r@.len() < n ==> final(self)@.len() == 0,
    {
        let ghost all = self.queue@;
        let mut r: Vec<T> = Vec::new();
        assert(all.take(0) =~= r@);
        assert(all.skip(0) =~= all);
        while r.len() < n && self.queue.len() > 0
            invariant
                r@.len() <= n,
                r@.len() <= all.len(),
                r@ == all.take(r@.len() as int),
                self.queue@ == all.skip(r@.len() as int),
            decreases self.queue@.len(),
        {
            let ghost k = r@.len() as int;
            if let Some(sample) = self.queue.pop_front() {
                r.push(sample);
                assert(r@ =~= all.take(k + 1));
                assert(self.queue@ =~= all.skip(k + 1));
            }
        }
        assert(r@ + self.queue@ =~= all);
        r
    }
}

} // verus!

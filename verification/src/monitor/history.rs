//! A bounded history of samples: the newest are kept, the oldest dropped first.
use vstd::prelude::*;
use std::collections::VecDeque;

verus! {

/// A history of at most `max_entries` samples, oldest first.
#[derive(Debug, Clone)]
pub struct HistoryManager<T> {
    pub history: VecDeque<T>,
    pub max_entries: usize,
}

/// The history after `x` is added to `h` with limit `max`: the newest `max` samples of
/// `h` followed by `x` (none at all with a limit of 0).
pub open spec fn history_after<T>(h: Seq<T>, max: nat, x: T) -> Seq<T> {
    let all = h.push(x);
    if all.len() > max {
        all.skip(all.len() - max)
    } else {
        all
    }
}

impl<T> HistoryManager<T> {
    /// The samples held, oldest first.
    pub open spec fn entries(&self) -> Seq<T> {
        self.history@
    }

    /// An empty history that keeps at most `max_entries` samples.
    pub fn new(max_entries: usize) -> (r: Self)
        ensures
            r.max_entries == max_entries,
            r.entries() == Seq::<T>::empty(),
    {
        HistoryManager { history: VecDeque::with_capacity(max_entries), max_entries }
    }

    /// Adds a sample, dropping the oldest one first when the history is full.
    pub fn add_metrics(&mut self, sample: T)
        ensures
            final(self).max_entries == old(self).max_entries,
            final(self).entries() == history_after(
                old(self).entries(),
                old(self).max_entries as nat,
                sample,
            ),
    {
        let ghost all = self.history@.push(sample);
        self.history.push_back(sample);
        let ghost mut dropped: int = 0;
        while self.history.len() > self.max_entries
            invariant
                0 <= dropped <= all.len(),
                self.history@ == all.skip(dropped),
                self.max_entries == old(self).max_entries,
                all == old(self).history@.push(sample),
                dropped > 0 ==> all.len() - dropped >= self.max_entries,
            decreases self.history@.len(),
        {
            let _ = self.history.pop_front();
            proof {
                assert(all.skip(dropped).drop_first() == all.skip(dropped + 1));
                dropped = dropped + 1;
            }
        }
        assert(all.skip(0) == all);
    }

    /// The samples held, oldest first.
    pub fn get_history(&self) -> (r: &VecDeque<T>)
        ensures
            r@ == self.entries(),
    {
        &self.history
    }
}

impl<T: Clone> HistoryManager<T> {
    /// A copy of the samples, oldest first.
    pub fn get_history_vec(&self) -> (r: Vec<T>)
        ensures
            r@.len() == self.entries().len(),
            forall|i: int| 0 <= i < r@.len() ==> cloned::<T>(self.entries()[i], #[trigger] r@[i]),
    {
        let mut r: Vec<T> = Vec::new();
        let mut i: usize = 0;
        while i < self.history.len()
            invariant
                i <= self.history@.len(),
                r@.len() == i,
                forall|j: int| 0 <= j < i ==> cloned::<T>(self.history@[j], #[trigger] r@[j]),
            decreases self.history.len() - i,
        {
            r.push(self.history[i].clone());
            i = i + 1;
        }
        r
    }
}

/// The history never holds more samples than its limit (none with a limit of 0), and
/// never fewer than the limit allows: a sample added to a history of fewer than `max`
/// samples stays with all of them.
pub proof fn lemma_history_stays_bounded<T>(h: Seq<T>, max: nat, x: T)
    ensures
        history_after(h, max, x).len() <= max,
        history_after(h, max, x).len() == if h.len() + 1 > max { max } else { h.len() + 1 },
{
}

/// With a positive limit, the sample just added is the newest one, and the older samples
/// kept are the newest of those held before, in order.
pub proof fn lemma_history_keeps_newest<T>(h: Seq<T>, max: nat, x: T)
    requires
        max > 0,
    ensures
        history_after(h, max, x).last() == x,
        history_after(h, max, x).drop_last() == h.skip(h.len() - (history_after(h, max, x).len() - 1)),
{
    let all = h.push(x);
    let r = history_after(h, max, x);
    if all.len() > max {
        assert(r.drop_last() =~= h.skip(h.len() - (max - 1)));
    } else {
        assert(r.drop_last() =~= h);
        assert(h.skip(0) =~= h);
    }
}

/// A history with a limit of 0 keeps nothing.
pub proof fn lemma_history_zero_limit<T>(h: Seq<T>, x: T)
    ensures
        history_after(h, 0, x).len() == 0,
{
}

} // verus!

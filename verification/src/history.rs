//! The value history itself.

use crate::model::{
    evict, lemma_sum_since_drop_first, lemma_sum_since_later_cutoff,
    lemma_sum_since_prefix, lemma_sum_since_push, sum_of, sum_since, HistoryModel, Sample,
};
use crate::quantity::Quantity;
use std::collections::VecDeque;
use vstd::prelude::*;

verus! {

/// The retention of a history made by `default`: two seconds.
pub const DEFAULT_VALUE_HISTORY_DURATION: u64 = 2_000_000_000;

/// Holds a history of values of type `T` for up to a certain span of time, as
/// well as the cumulated (total) value.
#[derive(Debug)]
pub struct ValueHistory<T: Quantity> {
    value: T,
    history: VecDeque<(u64, T)>,
    max_time: u64,
}

/// The samples that a queue of entries stands for.
spec fn samples_of<T: Quantity>(entries: Seq<(u64, T)>) -> Seq<Sample> {
    Seq::new(
        entries.len(),
        |i: int| Sample { time: entries[i].0 as nat, amount: entries[i].1.amount() },
    )
}

impl<T: Quantity> View for ValueHistory<T> {
    type V = HistoryModel;

    closed spec fn view(&self) -> HistoryModel {
        HistoryModel {
            total: self.value.amount(),
            samples: samples_of(self.history@),
            retention: self.max_time as nat,
        }
    }
}

impl<T: Quantity> Default for ValueHistory<T> {
    /// A history that holds no sample, with a total of zero and a retention of
    /// two seconds.
    fn default() -> (h: Self)
        ensures
            h.wf(),
            h@ == HistoryModel::fresh(0, DEFAULT_VALUE_HISTORY_DURATION as nat),
    {
        ValueHistory::new(T::zero(), DEFAULT_VALUE_HISTORY_DURATION)
    }
}

impl<T: Quantity> ValueHistory<T> {
    /// The invariant of a history: the held samples never sum to more than the
    /// total, so a sum over any of them can be held by `T`.
    pub open spec fn wf(&self) -> bool {
        self@.wf()
    }

    /// A history that holds no sample, with a total of `value` and a retention
    /// of `max_time`.
    pub fn new(value: T, max_time: u64) -> (h: Self)
        ensures
            h.wf(),
            h@ == HistoryModel::fresh(value.amount(), max_time as nat),
    {
        let history: VecDeque<(u64, T)> = VecDeque::new();
        assert(samples_of(history@) =~= Seq::<Sample>::empty());
        ValueHistory { value, history, max_time }
    }

    /// The cumulated value: what the history was started with and every value
    /// added since, whether it is still held or not.
    pub fn total(&self) -> (value: T)
        ensures
            value.amount() == self@.total,
    {
        self.value
    }

    /// The greatest age that a held value may have, seen from the latest time.
    pub fn max_time(&self) -> (span: u64)
        ensures
            span == self@.retention,
    {
        self.max_time
    }

    /// The number of values that are held.
    pub fn len(&self) -> (n: usize)
        ensures
            n == self@.samples.len(),
    {
        self.history.len()
    }

    /// Adds a timed value.
    ///
    /// Time should never decrease from one call to the next: eviction looks at
    /// the front of the history only, and stops at the first sample that is
    /// still inside the window.
    pub fn push(&mut self, t: u64, v: T)
        requires
            old(self).wf(),
            old(self)@.total + v.amount() <= T::limit(),
        ensures
            final(self).wf(),
            final(self)@ == old(self)@.record(t as nat, v.amount()),
    {
        proof {
            lemma_sum_since_push(
                samples_of(self.history@),
                Sample { time: t as nat, amount: v.amount() },
                0,
            );
            assert(samples_of(self.history@.push((t, v))) =~= samples_of(self.history@).push(
                Sample { time: t as nat, amount: v.amount() },
            ));
        }
        self.value = self.value.plus(v);
        self.history.push_back((t, v));
        self.drain(t);
    }

    /// Returns the sum of the values at or after the given time.
    pub fn sum_since(&self, t: u64) -> (sum: T)
        requires
            self.wf(),
        ensures
            sum.amount() == self@.sum_since(t as nat),
            self@.samples.len() == 0 ==> sum.amount() == 0,
    {
        let ghost samples = samples_of(self.history@);
        let mut sum = T::zero();
        let mut i: usize = 0;
        proof {
            self.value.lemma_amount_within_limit();
            assert(samples.take(0) =~= Seq::<Sample>::empty());
        }
        while i < self.history.len()
            invariant
                i <= self.history.len(),
                samples == samples_of(self.history@),
                sum_of(samples) <= T::limit(),
                sum.amount() == sum_since(samples.take(i as int), t as nat),
            decreases self.history.len() - i,
        {
            let entry: (u64, T) = self.history[i];
            proof {
                assert(samples.take(i + 1) =~= samples.take(i as int).push(samples[i as int]));
                lemma_sum_since_push(samples.take(i as int), samples[i as int], t as nat);
                lemma_sum_since_prefix(samples, i + 1, t as nat);
                lemma_sum_since_later_cutoff(samples, 0, t as nat);
            }
            if entry.0 >= t {
                sum = sum.plus(entry.1);
            }
            i += 1;
        }
        proof {
            assert(samples.take(i as int) =~= samples);
        }
        sum
    }

    /// Drops the samples at the front that are older, seen from `t`, than the
    /// retention allows. Returns `None` where no sample is left.
    pub fn drain(&mut self, t: u64) -> (r: Option<()>)
        requires
            old(self).wf(),
        ensures
            final(self).wf(),
            final(self)@ == old(self)@.drain(t as nat),
            r.is_none() <==> final(self)@.samples.len() == 0,
    {
        loop
            invariant
                self.wf(),
                self.value == old(self).value,
                self.max_time == old(self).max_time,
                evict(samples_of(self.history@), t as nat, self.max_time as nat) == evict(
                    samples_of(old(self).history@),
                    t as nat,
                    old(self).max_time as nat,
                ),
            decreases self.history.len(),
        {
            if self.history.len() == 0 {
                return None;
            }
            let front: u64 = self.history[0].0;
            if t >= front && t - front > self.max_time {
                proof {
                    let samples = samples_of(self.history@);
                    lemma_sum_since_drop_first(samples, 0);
                    assert(samples_of(self.history@.subrange(1, self.history@.len() as int))
                        =~= samples.drop_first());
                }
                self.history.pop_front();
            } else {
                return Some(());
            }
        }
    }
}

} // verus!

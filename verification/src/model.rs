//! The mathematical model of a value history: what it holds and what each
//! operation does to it, over natural numbers and sequences.

use vstd::prelude::*;

verus! {

/// One recorded observation: an amount and the time it was recorded at.
pub struct Sample {
    pub time: nat,
    pub amount: nat,
}

/// The time elapsed from `then` to `now`; zero where `then` is the later one.
pub open spec fn age(now: nat, then: nat) -> nat {
    if now >= then {
        (now - then) as nat
    } else {
        0
    }
}

/// Whether a sample recorded at `then` is older, seen from `now`, than the
/// retention allows.
pub open spec fn is_stale(now: nat, then: nat, retention: nat) -> bool {
    age(now, then) > retention
}

/// The earliest time that is not stale as seen from `now`: the start of the
/// window that ends at `now`.
pub open spec fn window_start(now: nat, retention: nat) -> nat {
    if now >= retention {
        (now - retention) as nat
    } else {
        0
    }
}

/// What one sample adds to a sum over the samples at or after `cutoff`.
pub open spec fn counted(sample: Sample, cutoff: nat) -> nat {
    if sample.time >= cutoff {
        sample.amount
    } else {
        0
    }
}

/// The sum of the amounts of the samples recorded at or after `cutoff`.
pub open spec fn sum_since(samples: Seq<Sample>, cutoff: nat) -> nat
    decreases samples.len(),
{
    if samples.len() == 0 {
        0
    } else {
        sum_since(samples.drop_last(), cutoff) + counted(samples.last(), cutoff)
    }
}

/// The sum of the amounts of all the samples.
pub open spec fn sum_of(samples: Seq<Sample>) -> nat {
    sum_since(samples, 0)
}

/// Whether the samples stand in the order of their times, oldest first.
pub open spec fn ordered(samples: Seq<Sample>) -> bool {
    forall|i: int, j: int| 0 <= i <= j < samples.len() ==> samples[i].time <= samples[j].time
}

/// The samples that are left when stale ones are dropped from the front, up to
/// the first sample that is not stale.
pub open spec fn evict(samples: Seq<Sample>, now: nat, retention: nat) -> Seq<Sample>
    decreases samples.len(),
{
    if samples.len() > 0 && is_stale(now, samples[0].time, retention) {
        evict(samples.drop_first(), now, retention)
    } else {
        samples
    }
}

/// The state of a value history.
pub struct HistoryModel {
    /// The sum of every amount ever recorded, on top of the amount the history
    /// was started with.
    pub total: nat,
    /// The samples that are still held, in the order they were recorded.
    pub samples: Seq<Sample>,
    /// The greatest age a sample may have, seen from the latest recorded time.
    pub retention: nat,
}

impl HistoryModel {
    /// What holds of every history: the held samples sum to no more than the
    /// total.
    pub open spec fn wf(self) -> bool {
        sum_of(self.samples) <= self.total
    }

    /// A history that holds no sample yet.
    pub open spec fn fresh(total: nat, retention: nat) -> HistoryModel {
        HistoryModel { total, samples: Seq::empty(), retention }
    }

    /// The state after stale samples, seen from `now`, have left the front.
    pub open spec fn drain(self, now: nat) -> HistoryModel {
        HistoryModel { samples: evict(self.samples, now, self.retention), ..self }
    }

    /// The state after one sample has been recorded.
    pub open spec fn record(self, time: nat, amount: nat) -> HistoryModel {
        HistoryModel {
            total: self.total + amount,
            samples: self.samples.push(Sample { time, amount }),
            retention: self.retention,
        }.drain(time)
    }

    /// The state after each sample of `log` has been recorded, first to last.
    pub open spec fn record_all(self, log: Seq<Sample>) -> HistoryModel
        decreases log.len(),
    {
        if log.len() == 0 {
            self
        } else {
            self.record_all(log.drop_last()).record(log.last().time, log.last().amount)
        }
    }

    /// The sum of the amounts of the held samples recorded at or after `cutoff`.
    pub open spec fn sum_since(self, cutoff: nat) -> nat {
        sum_since(self.samples, cutoff)
    }
}

/// Appending a sample adds what that sample counts for.
pub proof fn lemma_sum_since_push(samples: Seq<Sample>, sample: Sample, cutoff: nat)
    ensures
        sum_since(samples.push(sample), cutoff) == sum_since(samples, cutoff) + counted(
            sample,
            cutoff,
        ),
{
    assert(samples.push(sample).drop_last() =~= samples);
}

/// Dropping the first sample takes away what that sample counts for.
pub proof fn lemma_sum_since_drop_first(samples: Seq<Sample>, cutoff: nat)
    requires
        samples.len() > 0,
    ensures
        sum_since(samples, cutoff) == counted(samples[0], cutoff) + sum_since(
            samples.drop_first(),
            cutoff,
        ),
    decreases samples.len(),
{
    if samples.len() == 1 {
        assert(samples.drop_last() =~= Seq::<Sample>::empty());
        assert(samples.drop_first() =~= Seq::<Sample>::empty());
    } else {
        lemma_sum_since_drop_first(samples.drop_last(), cutoff);
        assert(samples.drop_last().drop_first() =~= samples.drop_first().drop_last());
    }
}

/// A later cutoff never gives a greater sum.
pub proof fn lemma_sum_since_later_cutoff(samples: Seq<Sample>, earlier: nat, later: nat)
    requires
        earlier <= later,
    ensures
        sum_since(samples, later) <= sum_since(samples, earlier),
    decreases samples.len(),
{
    if samples.len() > 0 {
        lemma_sum_since_later_cutoff(samples.drop_last(), earlier, later);
    }
}

/// The first samples of a sequence sum to no more than the whole sequence.
pub proof fn lemma_sum_since_prefix(samples: Seq<Sample>, n: int, cutoff: nat)
    requires
        0 <= n <= samples.len(),
    ensures
        sum_since(samples.take(n), cutoff) <= sum_since(samples, cutoff),
    decreases samples.len(),
{
    if n == samples.len() {
        assert(samples.take(n) =~= samples);
    } else {
        lemma_sum_since_prefix(samples.drop_last(), n, cutoff);
        assert(samples.drop_last().take(n) =~= samples.take(n));
    }
}

} // verus!

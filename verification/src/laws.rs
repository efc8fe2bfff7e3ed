//! What holds of a value history over many calls: the laws of its model.
//!
//! `ValueHistory::push` takes the model of a history to `record` of it, so a
//! run of pushes takes it to `record_all` of the pushed samples, and
//! `ValueHistory::sum_since` returns `sum_since` of the model. The laws below
//! are stated over these.

use crate::model::{
    counted, evict, is_stale, lemma_sum_since_drop_first, lemma_sum_since_push, ordered, sum_of,
    sum_since, window_start, HistoryModel, Sample,
};
use crate::quantity::Quantity;
use crate::history::ValueHistory;
use vstd::prelude::*;

verus! {

/// Eviction drops a run of stale samples from the front and nothing else: what
/// is left is the rest of the sequence, and it is empty or starts with a sample
/// that is not stale.
pub proof fn lemma_evict_drops_stale_front(samples: Seq<Sample>, now: nat, retention: nat)
    ensures
        evict(samples, now, retention).len() <= samples.len(),
        evict(samples, now, retention) == samples.skip(
            samples.len() - evict(samples, now, retention).len(),
        ),
        forall|i: int|
            0 <= i < samples.len() - evict(samples, now, retention).len() ==> is_stale(
                now,
                (#[trigger] samples[i]).time,
                retention,
            ),
        evict(samples, now, retention).len() > 0 ==> !is_stale(
            now,
            evict(samples, now, retention)[0].time,
            retention,
        ),
    decreases samples.len(),
{
    let kept = evict(samples, now, retention);
    if samples.len() > 0 && is_stale(now, samples[0].time, retention) {
        let rest = samples.drop_first();
        lemma_evict_drops_stale_front(rest, now, retention);
        let dropped = samples.len() - kept.len();
        assert(rest.skip(dropped - 1) =~= samples.skip(dropped));
        assert forall|i: int| 0 <= i < dropped implies is_stale(
            now,
            (#[trigger] samples[i]).time,
            retention,
        ) by {
            if i > 0 {
                assert(samples[i] == rest[i - 1]);
            }
        }
    } else {
        assert(samples.skip(0) =~= samples);
    }
}

/// Samples that were all recorded at or after some time sum to the same from
/// any cutoff up to that time.
proof fn lemma_sum_since_floor(samples: Seq<Sample>, cutoff: nat, floor: nat)
    requires
        forall|i: int| 0 <= i < samples.len() ==> (#[trigger] samples[i]).time >= floor,
    ensures
        sum_since(samples, cutoff) == sum_since(
            samples,
            if cutoff >= floor {
                cutoff
            } else {
                floor
            },
        ),
    decreases samples.len(),
{
    if samples.len() > 0 {
        let init = samples.drop_last();
        assert forall|i: int| 0 <= i < init.len() implies (#[trigger] init[i]).time >= floor by {
            assert(init[i] == samples[i]);
        }
        lemma_sum_since_floor(init, cutoff, floor);
        assert(samples.last() == samples[samples.len() - 1]);
    }
}

/// Taking one sample out takes away what that sample counts for.
proof fn lemma_sum_since_remove(samples: Seq<Sample>, i: int, cutoff: nat)
    requires
        0 <= i < samples.len(),
    ensures
        sum_since(samples, cutoff) == sum_since(samples.remove(i), cutoff) + counted(
            samples[i],
            cutoff,
        ),
    decreases samples.len(),
{
    if i == samples.len() - 1 {
        assert(samples.remove(i) =~= samples.drop_last());
    } else {
        lemma_sum_since_remove(samples.drop_last(), i, cutoff);
        assert(samples.remove(i).drop_last() =~= samples.drop_last().remove(i));
        assert(samples.remove(i).last() == samples.last());
    }
}

/// Of samples in the order of their times, eviction leaves exactly those inside
/// the window: a sum over what is left is a sum over all of them from the
/// cutoff or the start of the window, whichever is later.
pub proof fn lemma_evict_keeps_the_window(
    samples: Seq<Sample>,
    now: nat,
    retention: nat,
    cutoff: nat,
)
    requires
        ordered(samples),
    ensures
        forall|i: int|
            0 <= i < evict(samples, now, retention).len() ==> !is_stale(
                now,
                (#[trigger] evict(samples, now, retention)[i]).time,
                retention,
            ),
        sum_since(evict(samples, now, retention), cutoff) == sum_since(
            samples,
            if cutoff >= window_start(now, retention) {
                cutoff
            } else {
                window_start(now, retention)
            },
        ),
    decreases samples.len(),
{
    let start = window_start(now, retention);
    let from = if cutoff >= start {
        cutoff
    } else {
        start
    };
    if samples.len() > 0 && is_stale(now, samples[0].time, retention) {
        let rest = samples.drop_first();
        assert forall|i: int, j: int| 0 <= i <= j < rest.len() implies rest[i].time
            <= rest[j].time by {
            assert(rest[i] == samples[i + 1] && rest[j] == samples[j + 1]);
        }
        lemma_evict_keeps_the_window(rest, now, retention, cutoff);
        lemma_sum_since_drop_first(samples, from);
    } else {
        assert forall|i: int| 0 <= i < samples.len() implies (#[trigger] samples[i]).time
            >= start by {
            assert(samples[0].time <= samples[i].time);
        }
        lemma_sum_since_floor(samples, cutoff, start);
    }
}

/// Evicting as seen from an earlier time, before a sample is appended and the
/// history is evicted as seen from a later time, changes nothing: the later
/// eviction drops all that the earlier one drops.
proof fn lemma_evict_absorbs_earlier(
    samples: Seq<Sample>,
    sample: Sample,
    earlier: nat,
    later: nat,
    retention: nat,
)
    requires
        earlier <= later,
    ensures
        evict(evict(samples, earlier, retention).push(sample), later, retention) == evict(
            samples.push(sample),
            later,
            retention,
        ),
    decreases samples.len(),
{
    if samples.len() > 0 && is_stale(earlier, samples[0].time, retention) {
        lemma_evict_absorbs_earlier(samples.drop_first(), sample, earlier, later, retention);
        assert(samples.push(sample)[0] == samples[0]);
        assert(samples.push(sample).drop_first() =~= samples.drop_first().push(sample));
    }
}

/// Recording one more sample after a log is recording the log with that sample
/// at its end: a run of single records is one `record_all`.
pub proof fn lemma_record_all_push(history: HistoryModel, log: Seq<Sample>, sample: Sample)
    ensures
        history.record_all(log.push(sample)) == history.record_all(log).record(
            sample.time,
            sample.amount,
        ),
        history.record_all(Seq::empty()) == history,
{
    assert(log.push(sample).drop_last() =~= log);
}

/// Recording never changes the retention.
pub proof fn lemma_retention_is_fixed(history: HistoryModel, log: Seq<Sample>)
    ensures
        history.record_all(log).retention == history.retention,
    decreases log.len(),
{
    if log.len() > 0 {
        lemma_retention_is_fixed(history, log.drop_last());
    }
}

/// The total is cumulative: after any samples have been recorded, whatever
/// their times and whatever the retention, the total has grown by the sum of
/// their amounts.
pub proof fn lemma_total_is_cumulative(history: HistoryModel, log: Seq<Sample>)
    ensures
        history.record_all(log).total == history.total + sum_of(log),
    decreases log.len(),
{
    if log.len() > 0 {
        lemma_total_is_cumulative(history, log.drop_last());
    }
}

/// Recording keeps the invariant of a history.
pub proof fn lemma_record_keeps_wf(history: HistoryModel, time: nat, amount: nat)
    requires
        history.wf(),
    ensures
        history.record(time, amount).wf(),
{
    let sample = Sample { time, amount };
    let pushed = history.samples.push(sample);
    lemma_sum_since_push(history.samples, sample, 0);
    lemma_evict_drops_stale_front(pushed, time, history.retention);
    lemma_sum_since_suffix(pushed, pushed.len() - evict(pushed, time, history.retention).len());
}

/// The last samples of a sequence sum to no more than the whole sequence.
proof fn lemma_sum_since_suffix(samples: Seq<Sample>, n: int)
    requires
        0 <= n <= samples.len(),
    ensures
        sum_of(samples.skip(n)) <= sum_of(samples),
    decreases n,
{
    if n == 0 {
        assert(samples.skip(0) =~= samples);
    } else {
        lemma_sum_since_suffix(samples, n - 1);
        lemma_sum_since_drop_first(samples.skip(n - 1), 0);
        assert(samples.skip(n - 1).drop_first() =~= samples.skip(n));
    }
}

/// A sample recorded no earlier than the latest one keeps the history in the
/// order of its times, and is its newest sample afterwards.
pub proof fn lemma_record_keeps_order(history: HistoryModel, time: nat, amount: nat)
    requires
        ordered(history.samples),
        history.samples.len() > 0 ==> history.samples.last().time <= time,
    ensures
        ordered(history.record(time, amount).samples),
        history.record(time, amount).samples.len() > 0,
        history.record(time, amount).samples.last() == (Sample { time, amount }),
{
    let sample = Sample { time, amount };
    let pushed = history.samples.push(sample);
    let kept = evict(pushed, time, history.retention);
    lemma_evict_drops_stale_front(pushed, time, history.retention);
    let dropped = pushed.len() - kept.len();
    assert(!is_stale(time, pushed.last().time, history.retention));
    assert(dropped < pushed.len());
    assert forall|i: int, j: int| 0 <= i <= j < kept.len() implies kept[i].time
        <= kept[j].time by {
        assert(kept[i] == pushed[i + dropped] && kept[j] == pushed[j + dropped]);
        if j + dropped < history.samples.len() {
            assert(pushed[i + dropped] == history.samples[i + dropped]);
            assert(pushed[j + dropped] == history.samples[j + dropped]);
        } else if i + dropped < history.samples.len() {
            assert(pushed[i + dropped] == history.samples[i + dropped]);
            assert(history.samples[i + dropped].time <= history.samples.last().time);
        }
    }
    assert(kept.last() == pushed[kept.len() - 1 + dropped]);
}

/// Recording samples one by one, each no earlier than the one before, leaves
/// what a single eviction, seen from the latest time, leaves of the held
/// samples followed by the recorded ones.
pub proof fn lemma_record_all_evicts_once(history: HistoryModel, log: Seq<Sample>)
    requires
        log.len() > 0,
        ordered(log),
    ensures
        history.record_all(log).samples == evict(
            history.samples + log,
            log.last().time,
            history.retention,
        ),
    decreases log.len(),
{
    let init = log.drop_last();
    let last = log.last();
    lemma_retention_is_fixed(history, init);
    assert((history.samples + init).push(last) =~= history.samples + log);
    if init.len() == 0 {
        assert(history.samples + init =~= history.samples);
    } else {
        assert forall|i: int, j: int| 0 <= i <= j < init.len() implies init[i].time
            <= init[j].time by {
            assert(init[i] == log[i] && init[j] == log[j]);
        }
        lemma_record_all_evicts_once(history, init);
        assert(init.last() == log[log.len() - 2]);
        lemma_evict_absorbs_earlier(
            history.samples + init,
            last,
            init.last().time,
            last.time,
            history.retention,
        );
    }
}

/// After samples have been recorded in the order of their times, a sum since
/// a cutoff is the sum of all samples, held before or recorded since, from the
/// cutoff or the start of the window behind the latest time, whichever is
/// later.
pub proof fn lemma_sum_is_over_the_window(history: HistoryModel, log: Seq<Sample>, cutoff: nat)
    requires
        log.len() > 0,
        ordered(history.samples + log),
    ensures
        history.record_all(log).sum_since(cutoff) == sum_since(
            history.samples + log,
            if cutoff >= window_start(log.last().time, history.retention) {
                cutoff
            } else {
                window_start(log.last().time, history.retention)
            },
        ),
{
    lemma_ordered_tail(history.samples, log);
    lemma_record_all_evicts_once(history, log);
    lemma_evict_keeps_the_window(
        history.samples + log,
        log.last().time,
        history.retention,
        cutoff,
    );
}

/// The second part of a sequence in the order of its times is in that order.
proof fn lemma_ordered_tail(first: Seq<Sample>, second: Seq<Sample>)
    requires
        ordered(first + second),
    ensures
        ordered(second),
{
    let all = first + second;
    assert forall|i: int, j: int| 0 <= i <= j < second.len() implies second[i].time
        <= second[j].time by {
        assert(all[first.len() + i] == second[i] && all[first.len() + j] == second[j]);
    }
}

/// After a record, no held sample is stale: where samples are recorded in the
/// order of their times, each held sample is no older, seen from the latest
/// time, than the retention.
pub proof fn lemma_no_stale_sample_is_held(history: HistoryModel, log: Seq<Sample>)
    requires
        log.len() > 0,
        ordered(history.samples + log),
    ensures
        forall|i: int|
            0 <= i < history.record_all(log).samples.len() ==> !is_stale(
                log.last().time,
                (#[trigger] history.record_all(log).samples[i]).time,
                history.retention,
            ),
{
    lemma_ordered_tail(history.samples, log);
    lemma_record_all_evicts_once(history, log);
    lemma_evict_keeps_the_window(history.samples + log, log.last().time, history.retention, 0);
}

/// Window exclusion: once a recorded sample is older, seen from the latest
/// recorded time, than the retention, every sum is what it would be had that
/// sample never been recorded.
pub proof fn lemma_window_exclusion(
    history: HistoryModel,
    log: Seq<Sample>,
    i: int,
    cutoff: nat,
)
    requires
        ordered(history.samples + log),
        0 <= i < log.len(),
        is_stale(log.last().time, log[i].time, history.retention),
    ensures
        history.record_all(log).sum_since(cutoff) == history.record_all(log.remove(i)).sum_since(
            cutoff,
        ),
{
    let all = history.samples + log;
    let at = history.samples.len() + i;
    let without = log.remove(i);
    let start = window_start(log.last().time, history.retention);
    let from = if cutoff >= start {
        cutoff
    } else {
        start
    };
    assert(i < log.len() - 1);
    assert(without.last() == log.last());
    assert(history.samples + without =~= all.remove(at));
    assert forall|a: int, b: int| 0 <= a <= b < all.remove(at).len() implies all.remove(
        at,
    )[a].time <= all.remove(at)[b].time by {
        let a_all = if a < at {
            a
        } else {
            a + 1
        };
        let b_all = if b < at {
            b
        } else {
            b + 1
        };
        assert(all.remove(at)[a] == all[a_all] && all.remove(at)[b] == all[b_all]);
    }
    lemma_sum_is_over_the_window(history, log, cutoff);
    lemma_sum_is_over_the_window(history, without, cutoff);
    lemma_sum_since_remove(all, at, from);
    assert(all[at] == log[i]);
}

/// Window inclusion: a recorded sample that is no older, seen from the latest
/// recorded time, than the retention is still held, as far from the newest
/// sample as it was recorded, and a sum since a cutoff at or before its time
/// holds its whole amount on top of what the other held samples give.
pub proof fn lemma_window_inclusion(
    history: HistoryModel,
    log: Seq<Sample>,
    i: int,
    cutoff: nat,
)
    requires
        ordered(log),
        0 <= i < log.len(),
        !is_stale(log.last().time, log[i].time, history.retention),
        log[i].time >= cutoff,
    ensures
        history.record_all(log).samples.len() >= log.len() - i,
        history.record_all(log).samples[history.record_all(log).samples.len() - (log.len() - i)]
            == log[i],
        history.record_all(log).sum_since(cutoff) == log[i].amount + sum_since(
            history.record_all(log).samples.remove(
                history.record_all(log).samples.len() - (log.len() - i),
            ),
            cutoff,
        ),
{
    let all = history.samples + log;
    let at = history.samples.len() + i;
    let held = history.record_all(log).samples;
    lemma_record_all_evicts_once(history, log);
    lemma_evict_drops_stale_front(all, log.last().time, history.retention);
    let dropped = all.len() - held.len();
    assert(all[at] == log[i]);
    assert(dropped <= at);
    assert(held[at - dropped] == all[at]);
    lemma_sum_since_remove(held, at - dropped, cutoff);
}

/// Queries are idempotent: the sum since a cutoff is a function of the history
/// and the cutoff, so two values that are each the sum of one history since
/// one cutoff are the same value.
pub proof fn lemma_sum_since_is_determined<T: Quantity>(
    history: &ValueHistory<T>,
    t: u64,
    first: T,
    second: T,
)
    requires
        first.amount() == history@.sum_since(t as nat),
        second.amount() == history@.sum_since(t as nat),
    ensures
        first == second,
{
    first.lemma_amount_is_injective(second);
}

/// The empty-sum law: a history that holds no sample, because none was recorded
/// yet or because all were evicted, sums to zero since any cutoff.
pub proof fn lemma_empty_history_sums_to_zero(history: HistoryModel, cutoff: nat)
    requires
        history.samples.len() == 0,
    ensures
        history.sum_since(cutoff) == 0,
{
}

} // verus!

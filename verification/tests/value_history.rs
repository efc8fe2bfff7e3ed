use std::time::{Duration, Instant};
use value_history::history::{ValueHistory, DEFAULT_VALUE_HISTORY_DURATION};
use value_history::quantity::Quantity;

const MS: u64 = 1_000_000;
const SEC: u64 = 1_000_000_000;

#[test]
fn test() {
    let now = Instant::now();
    let origin = now - Duration::from_secs(2);
    let at = |t: Instant| -> u64 { u64::try_from(t.duration_since(origin).as_nanos()).unwrap() };
    let span = |d: Duration| -> u64 { u64::try_from(d.as_nanos()).unwrap() };

    let mut h: ValueHistory<u64> = ValueHistory::new(11, span(Duration::from_secs(1)));

    h.push(at(now - Duration::from_millis(1500)), 22);
    h.push(at(now - Duration::from_millis(500)), 22);

    let sum = h.sum_since(at(now - Duration::from_millis(600)));
    assert_eq!(sum, 22);

    let sum = h.sum_since(at(now - Duration::from_millis(1600)));
    assert_eq!(sum, 44);

    h.push(at(now), 0); // the oldest element will be discarded
    let sum = h.sum_since(at(now - Duration::from_millis(1600)));
    assert_eq!(sum, 22);
}

#[test]
fn scenario_on_fixed_times() {
    let now: u64 = 10 * SEC;
    let mut h: ValueHistory<u64> = ValueHistory::new(11, SEC);

    h.push(now - 1500 * MS, 22);
    h.push(now - 500 * MS, 22);
    assert_eq!(h.total(), 55);
    assert_eq!(h.len(), 2);
    assert_eq!(h.sum_since(now - 600 * MS), 22);
    assert_eq!(h.sum_since(now - 1600 * MS), 44);

    h.push(now, 0);
    assert_eq!(h.total(), 55);
    assert_eq!(h.len(), 2);
    assert_eq!(h.sum_since(now - 1600 * MS), 22);
    assert_eq!(h.sum_since(0), 22);
}

#[test]
fn total_is_cumulative() {
    let values: [u64; 6] = [5, 0, 17, 1, 1000, 3];
    for retention in [0, 1, 10, u64::MAX] {
        let mut h: ValueHistory<u64> = ValueHistory::new(0, retention);
        let mut expected: u64 = 0;
        let mut t: u64 = 100;
        for v in values {
            h.push(t, v);
            expected += v;
            t += 7;
            assert_eq!(h.total(), expected);
        }
        assert_eq!(h.total(), 1026);
    }
}

#[test]
fn total_counts_the_starting_value() {
    let mut h: ValueHistory<u32> = ValueHistory::new(40, 5);
    h.push(1, 1);
    h.push(100, 1);
    assert_eq!(h.total(), 42);
}

#[test]
fn total_does_not_depend_on_the_order_of_times() {
    let mut h: ValueHistory<u64> = ValueHistory::new(0, 10);
    h.push(1000, 1);
    h.push(10, 2);
    h.push(500, 4);
    h.push(0, 8);
    assert_eq!(h.total(), 15);
}

#[test]
fn window_exclusion() {
    let mut h: ValueHistory<u64> = ValueHistory::new(0, 100);
    h.push(1000, 7);
    h.push(1050, 5);
    assert_eq!(h.sum_since(1000), 12);
    // 1101 - 1000 exceeds the retention, 1101 - 1050 does not.
    h.push(1101, 3);
    assert_eq!(h.sum_since(1000), 8);
    assert_eq!(h.sum_since(999), 8);
    assert_eq!(h.sum_since(0), 8);
    assert_eq!(h.len(), 2);
    assert_eq!(h.total(), 15);
}

#[test]
fn window_exclusion_drops_every_stale_sample() {
    let mut h: ValueHistory<u64> = ValueHistory::new(0, 10);
    h.push(1, 1);
    h.push(2, 2);
    h.push(3, 4);
    h.push(20, 8);
    assert_eq!(h.len(), 1);
    assert_eq!(h.sum_since(0), 8);
}

#[test]
fn window_inclusion() {
    let mut h: ValueHistory<u64> = ValueHistory::new(0, 100);
    h.push(1000, 7);
    h.push(1050, 5);
    h.push(1100, 3);
    // 1100 - 1000 is the retention exactly: the first sample stays.
    assert_eq!(h.len(), 3);
    assert_eq!(h.sum_since(1000), 15);
    assert_eq!(h.sum_since(1001), 8);
    assert_eq!(h.sum_since(1050), 8);
    assert_eq!(h.sum_since(1051), 3);
    assert_eq!(h.sum_since(1100), 3);
    assert_eq!(h.sum_since(1101), 0);
}

#[test]
fn cutoff_is_inclusive() {
    let mut h: ValueHistory<u64> = ValueHistory::new(0, 100);
    h.push(50, 9);
    assert_eq!(h.sum_since(50), 9);
    assert_eq!(h.sum_since(51), 0);
    assert_eq!(h.sum_since(49), 9);
}

#[test]
fn queries_are_idempotent() {
    let mut h: ValueHistory<u64> = ValueHistory::new(3, 100);
    h.push(10, 1);
    h.push(20, 2);
    h.push(30, 4);
    let first = h.sum_since(15);
    let second = h.sum_since(15);
    let third = h.sum_since(15);
    assert_eq!(first, 6);
    assert_eq!(second, first);
    assert_eq!(third, first);
    assert_eq!(h.len(), 3);
    assert_eq!(h.total(), 10);
}

#[test]
fn empty_sum_on_a_new_history() {
    let h: ValueHistory<u64> = ValueHistory::default();
    assert_eq!(h.sum_since(0), 0);
    assert_eq!(h.sum_since(12345), 0);
    assert_eq!(h.sum_since(u64::MAX), 0);

    let seeded: ValueHistory<u64> = ValueHistory::new(11, SEC);
    assert_eq!(seeded.sum_since(0), 0);
    assert_eq!(seeded.total(), 11);
}

#[test]
fn empty_sum_after_everything_was_evicted() {
    let mut h: ValueHistory<u64> = ValueHistory::new(0, 10);
    h.push(1, 5);
    h.push(2, 6);
    assert_eq!(h.drain(100), None);
    assert_eq!(h.len(), 0);
    assert_eq!(h.sum_since(0), 0);
    assert_eq!(h.total(), 11);
}

#[test]
fn default_is_empty_with_two_seconds() {
    let h: ValueHistory<u64> = ValueHistory::default();
    assert_eq!(h.total(), 0);
    assert_eq!(h.len(), 0);
    assert_eq!(h.max_time(), 2 * SEC);
    assert_eq!(DEFAULT_VALUE_HISTORY_DURATION, 2_000_000_000);
}

#[test]
fn default_retention_keeps_two_seconds() {
    let mut h: ValueHistory<u64> = ValueHistory::default();
    h.push(0, 1);
    h.push(2 * SEC, 2);
    assert_eq!(h.sum_since(0), 3);
    h.push(2 * SEC + 1, 4);
    assert_eq!(h.sum_since(0), 6);
    assert_eq!(h.total(), 7);
}

#[test]
fn new_keeps_its_arguments() {
    let h: ValueHistory<u16> = ValueHistory::new(300, 77);
    assert_eq!(h.total(), 300);
    assert_eq!(h.max_time(), 77);
    assert_eq!(h.len(), 0);
}

#[test]
fn zero_retention_keeps_the_latest_time_only() {
    let mut h: ValueHistory<u64> = ValueHistory::new(0, 0);
    h.push(5, 1);
    assert_eq!(h.len(), 1);
    h.push(5, 2);
    assert_eq!(h.len(), 2);
    assert_eq!(h.sum_since(0), 3);
    h.push(6, 4);
    assert_eq!(h.len(), 1);
    assert_eq!(h.sum_since(0), 4);
    assert_eq!(h.total(), 7);
}

#[test]
fn drain_says_whether_anything_is_left() {
    let mut h: ValueHistory<u64> = ValueHistory::new(0, 10);
    assert_eq!(h.drain(0), None);
    h.push(100, 1);
    h.push(105, 2);
    assert_eq!(h.drain(110), Some(()));
    assert_eq!(h.len(), 2);
    assert_eq!(h.drain(111), Some(()));
    assert_eq!(h.len(), 1);
    assert_eq!(h.sum_since(0), 2);
    assert_eq!(h.drain(116), None);
    assert_eq!(h.len(), 0);
    assert_eq!(h.total(), 3);
}

#[test]
fn drain_from_an_earlier_time_drops_nothing() {
    let mut h: ValueHistory<u64> = ValueHistory::new(0, 10);
    h.push(100, 1);
    h.push(105, 2);
    assert_eq!(h.drain(0), Some(()));
    assert_eq!(h.len(), 2);
    assert_eq!(h.sum_since(0), 3);
}

// Known limitation: a time earlier than one recorded before is outside the
// supported use. The call returns and the total is right; which samples stay
// held is not promised, and is not asserted here.
#[test]
fn out_of_order_time_keeps_the_total() {
    let mut h: ValueHistory<u64> = ValueHistory::new(0, 10);
    h.push(100, 1);
    h.push(50, 2);
    h.push(200, 4);
    h.push(0, 8);
    assert_eq!(h.total(), 15);
    let sum = h.sum_since(0);
    assert!(sum <= h.total());
}

#[test]
fn quantities_add_up() {
    assert_eq!(<u8 as Quantity>::zero(), 0);
    assert_eq!(<u16 as Quantity>::zero(), 0);
    assert_eq!(<u32 as Quantity>::zero(), 0);
    assert_eq!(<u64 as Quantity>::zero(), 0);
    assert_eq!(<u128 as Quantity>::zero(), 0);
    assert_eq!(<usize as Quantity>::zero(), 0);
    assert_eq!(200u8.plus(55), 255);
    assert_eq!(60_000u16.plus(5_535), 65_535);
    assert_eq!(4_000_000_000u32.plus(294_967_295), u32::MAX);
    assert_eq!(7u64.plus(u64::MAX - 7), u64::MAX);
    assert_eq!(1u128.plus(u128::from(u64::MAX)), 18_446_744_073_709_551_616);
    assert_eq!(3usize.plus(4), 7);
}

#[test]
fn history_of_small_quantities() {
    let mut h: ValueHistory<u8> = ValueHistory::new(0, 5);
    h.push(1, 100);
    h.push(2, 100);
    h.push(3, 55);
    assert_eq!(h.total(), 255);
    assert_eq!(h.sum_since(0), 255);
    assert_eq!(h.sum_since(2), 155);
}

#[test]
fn times_up_to_the_largest() {
    let mut h: ValueHistory<u64> = ValueHistory::new(0, u64::MAX);
    h.push(0, 1);
    h.push(u64::MAX, 2);
    assert_eq!(h.len(), 2);
    assert_eq!(h.sum_since(u64::MAX), 2);
    assert_eq!(h.sum_since(0), 3);

    let mut k: ValueHistory<u64> = ValueHistory::new(0, u64::MAX - 1);
    k.push(0, 1);
    k.push(u64::MAX, 2);
    assert_eq!(k.len(), 1);
    assert_eq!(k.sum_since(0), 2);
}

use fn_time::{Counter, Error, FnTimer, Spot};
use std::time::{Duration, Instant};

const MS: u64 = 1_000_000;

#[test]
fn four_checkpoints_drain_to_three_gaps() {
    let mut timer = FnTimer::new(4, 0);
    assert_eq!(timer.capture_at(65, 0), Ok(()));
    assert_eq!(timer.capture_at(66, 50 * MS), Ok(()));
    assert_eq!(timer.capture_at(67, 120 * MS), Ok(()));
    assert_eq!(timer.capture_at(68, 130 * MS), Ok(()));
    let times = timer.make_durations();
    assert_eq!(times, vec![(65, 0), (66, 50 * MS), (67, 70 * MS), (68, 10 * MS)]);
    assert_eq!(timer.make_counts(), Vec::<Counter>::new());
}

#[test]
fn first_duration_is_zero_whatever_the_timestamp() {
    let mut timer = FnTimer::new(2, 0);
    timer.capture_at(1, 987_654_321).unwrap();
    timer.capture_at(2, 987_654_921).unwrap();
    assert_eq!(timer.make_durations(), vec![(1, 0), (2, 600)]);
}

#[test]
fn empty_cycle_drains_to_nothing() {
    let mut timer = FnTimer::new(3, 3);
    assert_eq!(timer.make_durations(), Vec::<(u32, u64)>::new());
    assert_eq!(timer.make_counts(), Vec::<Counter>::new());
}

#[test]
fn partial_cycle_drains_only_what_was_captured() {
    let mut timer = FnTimer::new(5, 0);
    timer.capture_at(10, 100).unwrap();
    timer.capture_at(11, 250).unwrap();
    assert_eq!(timer.make_durations(), vec![(10, 0), (11, 150)]);
}

#[test]
fn next_cycle_starts_clean() {
    let mut timer = FnTimer::new(3, 2);
    timer.capture_at(1, 10).unwrap();
    timer.capture_at(2, 20).unwrap();
    timer.capture_at(3, 40).unwrap();
    timer.counter(9, 5).unwrap();
    assert_eq!(timer.make_durations(), vec![(1, 0), (2, 10), (3, 20)]);
    assert_eq!(timer.make_counts(), vec![Counter { line: 9, n: 5 }]);

    timer.capture_at(7, 1000).unwrap();
    assert_eq!(timer.make_durations(), vec![(7, 0)]);
    assert_eq!(timer.make_counts(), Vec::<Counter>::new());
}

#[test]
fn clock_that_steps_back_counts_as_no_time() {
    let mut timer = FnTimer::new(3, 0);
    timer.capture_at(1, 500).unwrap();
    timer.capture_at(2, 400).unwrap();
    timer.capture_at(3, 450).unwrap();
    assert_eq!(timer.make_durations(), vec![(1, 0), (2, 0), (3, 50)]);
}

#[test]
fn counters_keep_call_order_between_captures() {
    let mut timer = FnTimer::new(3, 3);
    timer.counter(20, 0).unwrap();
    timer.capture_at(1, 5).unwrap();
    timer.counter(21, 1).unwrap();
    timer.capture_at(2, 9).unwrap();
    timer.capture_at(3, 12).unwrap();
    timer.counter(22, 2).unwrap();
    let counts = timer.make_counts();
    assert_eq!(
        counts,
        vec![
            Counter { line: 20, n: 0 },
            Counter { line: 21, n: 1 },
            Counter { line: 22, n: 2 }
        ]
    );
    assert_eq!(timer.make_durations(), vec![(1, 0), (2, 4), (3, 3)]);
}

#[test]
fn draining_counters_leaves_checkpoints_alone() {
    let mut timer = FnTimer::new(2, 2);
    timer.capture_at(1, 5).unwrap();
    timer.counter(8, 3).unwrap();
    assert_eq!(timer.make_counts(), vec![Counter { line: 8, n: 3 }]);
    timer.capture_at(2, 11).unwrap();
    assert_eq!(timer.make_durations(), vec![(1, 0), (2, 6)]);
}

#[test]
fn capture_beyond_capacity_fails_and_changes_nothing() {
    let mut timer = FnTimer::new(2, 1);
    assert_eq!(timer.capture_at(1, 10), Ok(()));
    assert_eq!(timer.capture_at(2, 30), Ok(()));
    assert_eq!(timer.capture_at(3, 60), Err(Error::CapacityExceeded));
    assert_eq!(timer.capture(4), Err(Error::CapacityExceeded));
    assert_eq!(timer.capture_at(5, 90), Err(Error::CapacityExceeded));
    assert_eq!(timer.make_durations(), vec![(1, 0), (2, 20)]);
    assert_eq!(timer.capture_at(6, 100), Ok(()));
}

#[test]
fn counter_beyond_capacity_fails_and_changes_nothing() {
    let mut timer = FnTimer::new(1, 2);
    assert_eq!(timer.counter(1, 7), Ok(()));
    assert_eq!(timer.counter(2, 8), Ok(()));
    assert_eq!(timer.counter(3, 9), Err(Error::CapacityExceeded));
    assert_eq!(timer.capture_at(4, 1), Ok(()));
    assert_eq!(
        timer.make_counts(),
        vec![Counter { line: 1, n: 7 }, Counter { line: 2, n: 8 }]
    );
    assert_eq!(timer.make_durations(), vec![(4, 0)]);
}

#[test]
fn buffer_without_slots_takes_nothing() {
    let mut timer = FnTimer::new(0, 0);
    assert_eq!(timer.capture(1), Err(Error::CapacityExceeded));
    assert_eq!(timer.capture_at(1, 1), Err(Error::CapacityExceeded));
    assert_eq!(timer.counter(1, 1), Err(Error::CapacityExceeded));
    assert_eq!(timer.make_durations(), Vec::<(u32, u64)>::new());
}

#[test]
fn capture_reads_the_running_clock() {
    let mut timer = FnTimer::new(3, 0);
    assert_eq!(timer.capture(1), Ok(()));
    let begun = Instant::now();
    while begun.elapsed() < Duration::from_millis(3) {}
    assert_eq!(timer.capture(2), Ok(()));
    assert_eq!(timer.capture(3), Ok(()));
    let waited = begun.elapsed();
    let times = timer.make_durations();
    assert_eq!(times.len(), 3);
    assert_eq!(times[0], (1, 0));
    assert_eq!(times[1].0, 2);
    assert_eq!(times[2].0, 3);
    assert!(times[1].1 >= 3 * MS);
    assert!(times[1].1 + times[2].1 <= waited.as_nanos() as u64 + 1_000 * MS);
}

#[test]
fn drain_hands_out_both_sequences() {
    let mut timer = FnTimer::new(2, 2);
    timer.capture_at(1, 100).unwrap();
    timer.counter(5, 42).unwrap();
    timer.capture_at(2, 160).unwrap();
    let msg = timer.drain();
    assert_eq!(msg.times, vec![(1, 0), (2, 60)]);
    assert_eq!(msg.counts, vec![Counter { line: 5, n: 42 }]);
    let next = timer.drain();
    assert_eq!(next.times, Vec::<(u32, u64)>::new());
    assert_eq!(next.counts, Vec::<Counter>::new());
}

#[test]
fn spot_keeps_label_and_time() {
    let spot = Spot::capture(17, 2_500);
    assert_eq!(spot.line(), 17);
    assert_eq!(spot.when(), 2_500);
}

use utp_core::congestion::cwnd_after_ack;
use utp_core::delay::DelayHistory;
use utp_core::params::DELAY_INFINITY;

#[test]
fn scenario_base_delay_is_the_minimum_sample() {
    let mut h = DelayHistory::new();
    assert_eq!(h.base_delay(), DELAY_INFINITY);

    // Delay samples 50 ms, 120 ms, 130 ms, 40 ms within one minute.
    h.add_delay(50_000, 0);
    h.add_delay(120_000, 10);
    h.add_delay(130_000, 20);
    h.add_delay(40_000, 30);

    // The base delay is the bucket minimum: 40 ms.
    assert_eq!(h.base_delay(), 40_000);

    // The smoothed current delay after the four samples (weight 2/61
    // on each new sample, seeded by the first).
    assert_eq!(h.current_delay(), 54_355);

    // Off-target favors growth only while current delay stays within
    // TARGET of that base: queuing is 14 355 us against a 100 000 us
    // target, so the window grows...
    let grown = cwnd_after_ack(2_800, 54_355 - 40_000, 1_420, 1_420);
    assert!(grown > 2_800);
    assert_eq!(grown, 2_820);

    // ...while a queuing delay beyond the target pushes it down to the
    // floor.
    let shrunk = cwnd_after_ack(2_800, 150_000, 1_420, 1_420);
    assert_eq!(shrunk, 2_800);
}

#[test]
fn bucket_rollover_drops_the_oldest_minimum() {
    let mut h = DelayHistory::new();
    h.add_delay(70_000, 0);
    assert_eq!(h.base_delay(), 70_000);

    // A minute later the next sample opens a fresh bucket; the old
    // minimum stays in its own bucket.
    h.add_delay(90_000, 60_000_000);
    assert_eq!(h.base_delay(), 70_000);
    assert_eq!(h.last_rollover, 60_000_000);

    // Within the new bucket the smaller sample becomes its minimum.
    h.add_delay(30_000, 60_000_500);
    assert_eq!(h.base_delay(), 30_000);
}

#[test]
fn ewma_is_seeded_by_the_first_sample() {
    let mut h = DelayHistory::new();
    assert_eq!(h.current_delay(), DELAY_INFINITY);
    assert!(!h.has_sample());
    h.add_delay(80_000, 0);
    assert!(h.has_sample());
    assert_eq!(h.current_delay(), 80_000);
    // (2 * 20000 + 59 * 80000) / 61 = 78032
    h.add_delay(20_000, 5);
    assert_eq!(h.current_delay(), 78_032);
}

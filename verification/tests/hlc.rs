use lis::rhc::hlc::{HLCError, HLCTimestamp, PhysicalClock, SystemClock, HLC, MAX_CLOCK_DRIFT_MS};
use std::cmp;
use std::time::Duration;

#[test]
fn test_hlc_timestamp_ordering() {
    // Test that timestamps order correctly
    let ts1 = HLCTimestamp::new(100, 0);
    let ts2 = HLCTimestamp::new(100, 1);
    let ts3 = HLCTimestamp::new(101, 0);

    assert!(ts1 < ts2);
    assert!(ts2 < ts3);
    assert!(ts1 < ts3);
}

#[test]
fn test_hlc_timestamp_display() {
    let ts = HLCTimestamp::new(1234567890, 42);
    assert_eq!(ts.to_string(), "1234567890:42");
}

#[test]
fn test_hlc_now_advances() {
    let mut hlc = HLC::new();

    let ts1 = hlc.now();
    pause(Duration::from_millis(2));
    let ts2 = hlc.now();

    assert!(ts2 > ts1);
    assert!(ts2.physical >= ts1.physical);
}

#[test]
fn test_hlc_logical_counter_increments() {
    let mut hlc = HLC::new();

    // Generate multiple timestamps quickly (within same millisecond)
    let mut timestamps = Vec::new();
    for _ in 0..5 {
        timestamps.push(hlc.now());
    }

    // Check that logical counters increment when physical time doesn't
    for i in 1..timestamps.len() {
        assert!(timestamps[i] > timestamps[i - 1]);
        if timestamps[i].physical == timestamps[i - 1].physical {
            assert_eq!(timestamps[i].logical, timestamps[i - 1].logical + 1);
        }
    }
}

#[test]
fn test_hlc_update_with_future_timestamp() {
    let mut hlc = HLC::new();

    let local_ts = hlc.now();
    let future_ts = HLCTimestamp::new(local_ts.physical + 1000, 5);

    let updated = hlc.update(future_ts).unwrap();

    // HLC should adopt the future timestamp
    assert_eq!(updated.physical, future_ts.physical);
    assert_eq!(updated.logical, future_ts.logical + 1);
}

#[test]
fn test_hlc_update_with_past_timestamp() {
    let mut hlc = HLC::new();

    let ts1 = hlc.now();
    pause(Duration::from_millis(10));
    let ts2 = hlc.now();

    // Try to update with an old timestamp
    let past_ts = HLCTimestamp::new(ts1.physical - 100, 0);
    let updated = hlc.update(past_ts).unwrap();

    // HLC should maintain monotonicity
    assert!(updated >= ts2);
}

#[test]
fn test_hlc_update_same_physical_time() {
    // Force same physical time by giving both clocks the same reading
    let physical = SystemClock.now_ms();
    let mut hlc1 = HLC::new_with_clock(Box::new(move || physical));
    let mut hlc2 = HLC::new_with_clock(Box::new(move || physical));

    // Generate timestamps with same physical time
    let ts1 = hlc1.now();
    let ts2 = hlc2.now();

    assert_eq!(ts1.physical, ts2.physical);

    // Update hlc1 with ts2
    let updated = hlc1.update(ts2).unwrap();

    // Logical counter should be max(ts1.logical, ts2.logical) + 1
    assert_eq!(updated.physical, physical);
    assert_eq!(updated.logical, cmp::max(ts1.logical, ts2.logical) + 1);
}

#[test]
fn test_hlc_clock_drift_detection() {
    let mut hlc = HLC::new();

    let current = hlc.now();
    let too_far_future = HLCTimestamp::new(current.physical + MAX_CLOCK_DRIFT_MS + 1000, 0);

    let result = hlc.update(too_far_future);
    assert!(result.is_err());

    match result {
        Err(HLCError::ClockDriftExceeded { .. }) => {}
        _ => panic!("Expected ClockDriftExceeded error"),
    }
}

#[test]
fn test_hlc_last_timestamp() {
    let mut hlc = HLC::new();

    assert_eq!(hlc.last(), HLCTimestamp::zero());

    let ts1 = hlc.now();
    assert_eq!(hlc.last(), ts1);

    let ts2 = hlc.now();
    assert_eq!(hlc.last(), ts2);
    assert!(ts2 > ts1);
}

#[test]
fn test_hlc_zero_timestamp() {
    let zero = HLCTimestamp::zero();
    assert!(zero.is_zero());
    assert_eq!(zero.physical, 0);
    assert_eq!(zero.logical, 0);

    let non_zero = HLCTimestamp::new(1, 0);
    assert!(!non_zero.is_zero());
}

#[test]
fn hlc_now_at_fixed_times() {
    let mut hlc = HLC::new();
    let a = hlc.now_at(500);
    assert_eq!((a.physical, a.logical), (500, 0));
    let b = hlc.now_at(500);
    assert_eq!((b.physical, b.logical), (500, 1));
    // A clock that goes backwards does not move the HLC back.
    let c = hlc.now_at(400);
    assert_eq!((c.physical, c.logical), (500, 2));
    let d = hlc.now_at(600);
    assert_eq!((d.physical, d.logical), (600, 0));
}

#[test]
fn hlc_update_at_takes_the_latest_of_three() {
    let mut hlc = HLC::new();
    hlc.now_at(1000);
    // Remote ahead of both local clock and last timestamp.
    let r = hlc.update_at(HLCTimestamp::new(1500, 7), 1200).unwrap();
    assert_eq!((r.physical, r.logical), (1500, 8));
    // Local clock ahead of both.
    let r = hlc.update_at(HLCTimestamp::new(1400, 9), 2000).unwrap();
    assert_eq!((r.physical, r.logical), (2000, 0));
}

#[test]
fn hlc_update_at_refuses_drift() {
    let mut hlc = HLC::new();
    let remote = HLCTimestamp::new(1000 + MAX_CLOCK_DRIFT_MS + 1, 0);
    let r = hlc.update_at(remote, 1000);
    assert_eq!(
        r,
        Err(HLCError::ClockDriftExceeded {
            remote_physical: 1000 + MAX_CLOCK_DRIFT_MS + 1,
            local_physical: 1000,
            max_drift: MAX_CLOCK_DRIFT_MS,
        })
    );
    // Exactly at the limit is accepted.
    assert!(hlc.update_at(HLCTimestamp::new(1000 + MAX_CLOCK_DRIFT_MS, 0), 1000).is_ok());
}

#[test]
fn hlc_error_texts() {
    let e = HLCError::ClockDriftExceeded { remote_physical: 5, local_physical: 3, max_drift: 1 };
    assert_eq!(e.to_string(), "Clock drift exceeded: remote=5, local=3, max_drift=1ms");
    assert_eq!(
        e.debug_string(),
        "ClockDriftExceeded { remote_physical: 5, local_physical: 3, max_drift: 1 }"
    );
}

#[test]
fn hlc_within_drift() {
    let ts = HLCTimestamp::new(1000 + MAX_CLOCK_DRIFT_MS, 0);
    assert!(ts.is_within_drift(1000));
    assert!(!HLCTimestamp::new(1001 + MAX_CLOCK_DRIFT_MS, 0).is_within_drift(1000));
    assert!(HLCTimestamp::new(0, 0).is_within_drift(1000));
}

/// Waits for at least `d` without yielding the thread.
fn pause(d: Duration) {
    let start = std::time::Instant::now();
    while start.elapsed() < d {}
}

#[test]
fn hlc_default_starts_at_zero() {
    let h = lis::rhc::hlc::HLC::default();
    assert_eq!(h.last(), lis::rhc::hlc::HLCTimestamp::zero());
}

#[test]
fn timestamp_as_system_time() {
    assert_eq!(
        HLCTimestamp::new(1500, 3).as_system_time(),
        Some(std::time::UNIX_EPOCH + std::time::Duration::from_millis(1500))
    );
}

#[test]
fn hlc_update_with_exhausted_counter() {
    // The local clock is ahead: the counter restarts, whatever the remote's.
    let mut hlc = HLC::new_with_clock(Box::new(|| 1000u64));
    let r = hlc.update(HLCTimestamp::new(500, u32::MAX)).unwrap();
    assert_eq!((r.physical, r.logical), (1000, 0));
    // Same physical time everywhere: the remote counter cannot be passed.
    let r = hlc.update(HLCTimestamp::new(1000, u32::MAX));
    assert_eq!(r, Err(HLCError::LogicalCounterExhausted));
    assert_eq!(hlc.last(), HLCTimestamp::new(1000, 0));
    let e = HLCError::LogicalCounterExhausted;
    assert_eq!(e.to_string(), "Logical counter exhausted");
    assert_eq!(e.debug_string(), "LogicalCounterExhausted");
}

#[test]
fn hlc_update_never_goes_back_on_a_tie_with_the_last() {
    let mut hlc = HLC::new();
    hlc.now_at(1000);
    for _ in 0..6 {
        hlc.now_at(1000);
    }
    assert_eq!(hlc.last(), HLCTimestamp::new(1000, 6));
    // The clock still reads 1000 and the remote is older: the counter goes on.
    let r = hlc.update_at(HLCTimestamp::new(900, 0), 1000).unwrap();
    assert_eq!(r, HLCTimestamp::new(1000, 7));
    // The last timestamp ahead of the clock and tied with the remote.
    let r = hlc.update_at(HLCTimestamp::new(1000, 9), 800).unwrap();
    assert_eq!(r, HLCTimestamp::new(1000, 10));
    let r = hlc.update_at(HLCTimestamp::new(700, 3), 800).unwrap();
    assert_eq!(r, HLCTimestamp::new(1000, 11));
}

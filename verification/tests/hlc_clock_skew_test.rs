use lis::rhc::hlc::{HLCTimestamp, HLC};
use std::time::{Duration, SystemTime, UNIX_EPOCH};

/// Mock time source that allows us to simulate clock skew
#[derive(Clone)]
struct MockClock {
    skew_ms: i64,
}

impl MockClock {
    fn new(skew_ms: i64) -> Self {
        Self { skew_ms }
    }

    fn now(&self) -> u64 {
        let real_time = SystemTime::now().duration_since(UNIX_EPOCH).unwrap().as_millis() as u64;

        if self.skew_ms >= 0 {
            real_time + self.skew_ms as u64
        } else {
            real_time - (-self.skew_ms) as u64
        }
    }
}

/// Demonstrates that HLC maintains correct ordering even with severe clock skew
#[test]
fn test_hlc_handles_clock_skew() {
    // Create three nodes with different clock skews
    let clock_a = MockClock::new(0); // Accurate clock
    let clock_b = MockClock::new(30_000); // 30 seconds ahead
    let clock_c = MockClock::new(-25_000); // 25 seconds behind

    // Create HLCs using mock clocks
    let clock_a_clone = clock_a.clone();
    let clock_b_clone = clock_b.clone();
    let clock_c_clone = clock_c.clone();

    let mut hlc_a = HLC::new_with_clock(Box::new(move || clock_a_clone.now()));
    let mut hlc_b = HLC::new_with_clock(Box::new(move || clock_b_clone.now()));
    let mut hlc_c = HLC::new_with_clock(Box::new(move || clock_c_clone.now()));

    // Generate timestamps
    let ts_a1 = hlc_a.now();
    let ts_b1 = hlc_b.now();
    let ts_c1 = hlc_c.now();

    println!("Initial timestamps:");
    println!("  A (accurate): {}", ts_a1.to_string());
    println!("  B (+30s):     {}", ts_b1.to_string());
    println!("  C (-25s):     {}", ts_c1.to_string());

    // Despite clock skew, HLC ensures causal ordering when nodes communicate

    // A receives timestamp from B (future)
    let result_a = hlc_a.update(ts_b1);
    println!("\nA updates with B's timestamp: {:?}", result_a);
    let ts_a2 = hlc_a.now();
    println!("A's new timestamp: {}", ts_a2.to_string());
    assert!(ts_a2 > ts_b1, "A's new timestamp must be after B's");

    // C receives timestamp from A
    let result_c = hlc_c.update(ts_a2);
    println!("\nC updates with A's timestamp: {:?}", result_c);
    let ts_c2 = hlc_c.now();
    println!("C's new timestamp: {}", ts_c2.to_string());
    assert!(ts_c2 > ts_a2, "C's new timestamp must be after A's");

    // B receives timestamp from C
    let result_b = hlc_b.update(ts_c2);
    println!("\nB updates with C's timestamp: {:?}", result_b);
    let ts_b2 = hlc_b.now();
    println!("B's new timestamp: {}", ts_b2.to_string());
    assert!(ts_b2 > ts_c2, "B's new timestamp must be after C's");

    println!("\nAfter communication:");
    println!("  A: {} -> {}", ts_a1.to_string(), ts_a2.to_string());
    println!("  B: {} -> {}", ts_b1.to_string(), ts_b2.to_string());
    println!("  C: {} -> {}", ts_c1.to_string(), ts_c2.to_string());

    // All timestamps maintain correct causal ordering
    assert!(ts_a1 < ts_b1);
    assert!(ts_b1 < ts_a2);
    assert!(ts_a2 < ts_c2);
    assert!(ts_c2 < ts_b2);
}

/// Demonstrates that HLC handles extreme clock jumps (like VM pause/resume)
#[test]
fn test_hlc_handles_clock_jumps() {
    let mut hlc = HLC::new();

    // Normal operation
    let ts1 = hlc.now();
    pause(Duration::from_millis(10));
    let ts2 = hlc.now();
    assert!(ts2 > ts1);

    // Simulate clock jumping backward (VM restore from snapshot)
    // HLC should still produce monotonically increasing timestamps
    let ts3 = hlc.now();
    assert!(ts3 > ts2, "HLC maintains monotonicity even if clock goes backward");

    // Generate many timestamps rapidly (faster than clock resolution)
    let mut timestamps = Vec::new();
    for _ in 0..1000 {
        timestamps.push(hlc.now());
    }

    // Verify strict monotonicity via logical counter
    for i in 1..timestamps.len() {
        assert!(timestamps[i] > timestamps[i - 1], "Logical counter ensures uniqueness at timestamp {}", i);
    }
}

/// Waits for at least `d` without yielding the thread.
fn pause(d: Duration) {
    let start = std::time::Instant::now();
    while start.elapsed() < d {}
}

#[test]
fn test_hlc_coordination_with_skewed_clocks() {
    // Nodes with very different clocks: accurate, 20 s fast, 25 s slow, 30 s fast.
    let skews: [(&str, i64); 4] =
        [("Accurate Server", 0), ("Fast Node", 20_000), ("Slow Node", -25_000), ("Broken Node", 30_000)];
    let mut nodes = Vec::new();
    for (name, skew) in skews.iter() {
        let clock = MockClock::new(*skew);
        nodes.push((name.to_string(), HLC::new_with_clock(Box::new(move || clock.now()))));
    }

    // Each node generates some events.
    let mut events = Vec::new();
    for (name, hlc) in nodes.iter_mut() {
        for i in 0..3 {
            let ts = hlc.now();
            events.push((name.clone(), i, ts));
            pause(Duration::from_millis(1));
        }
    }
    assert_eq!(events.len(), 12);

    // Message passing between nodes: Fast -> Accurate -> Slow -> Broken -> Fast.
    let fast_ts = nodes[1].1.now();
    let _ = nodes[0].1.update(fast_ts);
    let accurate_ts = nodes[0].1.now();
    let _ = nodes[2].1.update(accurate_ts);
    let slow_ts = nodes[2].1.now();
    let _ = nodes[3].1.update(slow_ts);
    let broken_ts = nodes[3].1.now();
    let _ = nodes[1].1.update(broken_ts);
    // Broken also updates Accurate and Slow, so that all have seen the highest timestamp.
    let _ = nodes[0].1.update(broken_ts);
    let _ = nodes[2].1.update(broken_ts);

    // All new events are at least the last coordinated timestamp.
    for (name, hlc) in nodes.iter_mut() {
        let ts = hlc.now();
        assert!(ts >= broken_ts, "{} timestamp {} not >= coordination timestamp {}", name, ts.to_string(), broken_ts.to_string());
    }
}

#[test]
fn test_lease_expiry_with_clock_skew() {
    let mut accurate = HLC::new();
    let mut fast = HLC::new();
    let mut slow = HLC::new();

    // Grant a 30 second lease from the accurate node.
    let lease_start = accurate.now();
    let lease_duration_ms = 30_000;
    let lease_end = HLCTimestamp::new(lease_start.physical + lease_duration_ms, lease_start.logical);

    // The fast node sees the lease end time.
    pause(Duration::from_millis(100));
    let _fast_ts = fast.now();
    let _ = fast.update(lease_end);
    let fast_check = fast.now();

    // The slow node sees it too.
    let _ = slow.update(lease_end);
    let slow_check = slow.now();

    // Both nodes agree on lease validity despite clock skew.
    assert_eq!(fast_check >= lease_end, slow_check >= lease_end, "Nodes must agree on lease validity");
}

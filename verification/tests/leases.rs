use lis::path::FsPath;
use lis::rhc::hlc::{HLCTimestamp, HLC};
use lis::rhc::leases::lease::{Lease, LeaseId, LeaseScope};
use lis::rhc::leases::manager::{LeaseError, LeaseManager};
use lis::rhc::leases::state::LeaseState;
use lis::time::Duration;

#[test]
fn test_lease_scope_covers() {
    let file_lease = LeaseScope::File(FsPath::new("/data/file.txt"));
    assert!(file_lease.covers(&FsPath::new("/data/file.txt")));
    assert!(!file_lease.covers(&FsPath::new("/data/other.txt")));

    let dir_lease = LeaseScope::Directory { path: FsPath::new("/data"), recursive: true };
    assert!(dir_lease.covers(&FsPath::new("/data/file.txt")));
    assert!(dir_lease.covers(&FsPath::new("/data/subdir/file.txt")));
    assert!(!dir_lease.covers(&FsPath::new("/other/file.txt")));

    let non_recursive = LeaseScope::Directory { path: FsPath::new("/data"), recursive: false };
    assert!(non_recursive.covers(&FsPath::new("/data/file.txt")));
    assert!(!non_recursive.covers(&FsPath::new("/data/subdir/file.txt")));
}

#[test]
fn test_lease_specificity() {
    let root = LeaseScope::Directory { path: FsPath::new("/"), recursive: true };
    let data = LeaseScope::Directory { path: FsPath::new("/data"), recursive: true };
    let data_eu = LeaseScope::Directory { path: FsPath::new("/data/eu"), recursive: true };
    let file = LeaseScope::File(FsPath::new("/data/eu/file.txt"));

    assert!(data.is_more_specific_than(&root));
    assert!(data_eu.is_more_specific_than(&data));
    assert!(file.is_more_specific_than(&data_eu));
    assert!(!root.is_more_specific_than(&data));
}

#[test]
fn test_lease_expiration() {
    let now = HLCTimestamp::new(1000, 0);
    let lease = Lease::new(
        LeaseScope::File(FsPath::new("/data/file.txt")),
        "node1".to_string(),
        now,
        Duration::from_secs(30),
    );

    assert!(!lease.is_expired(now));
    assert!(!lease.is_expired(HLCTimestamp::new(1000 + 29_999, 0)));
    assert!(lease.is_expired(HLCTimestamp::new(1000 + 30_000, 0)));
    assert!(lease.is_expired(HLCTimestamp::new(1000 + 30_001, 0)));
}

#[test]
fn lease_test_lease_renewal() {
    let now = HLCTimestamp::new(1000, 0);
    let mut lease = Lease::new(
        LeaseScope::File(FsPath::new("/data/file.txt")),
        "node1".to_string(),
        now,
        Duration::from_secs(30),
    );

    assert_eq!(lease.renewal_count, 0);
    assert_eq!(lease.expires_at.physical, 31_000);

    // Renew at 25 seconds
    let renewal_time = HLCTimestamp::new(26_000, 0);
    lease.renew(renewal_time, Duration::from_secs(30));

    assert_eq!(lease.renewal_count, 1);
    assert_eq!(lease.expires_at.physical, 56_000); // 26s + 30s
}

#[test]
fn test_lease_state_management() {
    let mut state = LeaseState::new("node1".to_string());
    let now = HLCTimestamp::new(1000, 0);

    // Add a lease
    let lease = Lease::new(
        LeaseScope::Directory { path: FsPath::new("/data"), recursive: true },
        "node1".to_string(),
        now,
        Duration::from_secs(30),
    );
    let lease_id = lease.id;
    state.add_lease(lease);

    // Find lease by path
    let found = state.find_lease_for_path(&FsPath::new("/data/file.txt"), now);
    assert!(found.is_some());
    assert_eq!(found.unwrap().id, lease_id);

    // Remove lease
    let removed = state.remove_lease(lease_id);
    assert!(removed.is_some());

    // Should not find it anymore
    let not_found = state.find_lease_for_path(&FsPath::new("/data/file.txt"), now);
    assert!(not_found.is_none());
}

#[test]
fn test_most_specific_lease() {
    let mut state = LeaseState::new("node1".to_string());
    let now = HLCTimestamp::new(1000, 0);

    // Add general lease
    let general = Lease::new(
        LeaseScope::Directory { path: FsPath::new("/data"), recursive: true },
        "node1".to_string(),
        now,
        Duration::from_secs(30),
    );
    state.add_lease(general);

    // Add more specific lease
    let specific = Lease::new(
        LeaseScope::Directory { path: FsPath::new("/data/eu/uk"), recursive: true },
        "node2".to_string(),
        now,
        Duration::from_secs(30),
    );
    let specific_id = specific.id;
    state.add_lease(specific);

    // Should find the more specific lease
    let found = state.find_lease_for_path(&FsPath::new("/data/eu/uk/london.txt"), now);
    assert!(found.is_some());
    assert_eq!(found.unwrap().id, specific_id);
}

#[test]
fn test_lease_acquisition() {
    let hlc = HLC::new();
    let mut manager = LeaseManager::new("node1".to_string(), hlc);

    // Acquire a lease
    let scope = LeaseScope::File(FsPath::new("/data/file.txt"));
    let lease = manager.acquire_lease(scope.clone(), Duration::from_secs(30)).unwrap();

    assert_eq!(lease.holder, "node1");
    assert!(manager.can_write(&FsPath::new("/data/file.txt")));

    // Try to acquire conflicting lease
    let result = manager.acquire_lease(scope, Duration::from_secs(30));
    assert!(matches!(result, Err(LeaseError::Conflict { .. })));
}

#[test]
fn manager_test_lease_renewal() {
    let hlc = HLC::new();
    let mut manager = LeaseManager::new("node1".to_string(), hlc);

    // Acquire and renew a lease
    let scope = LeaseScope::File(FsPath::new("/data/file.txt"));
    let lease = manager.acquire_lease(scope, Duration::from_secs(30)).unwrap();

    let result = manager.renew_lease(lease.id, Duration::from_secs(30));
    assert!(result.is_ok());
}

#[test]
fn lease_delegate_and_release() {
    let hlc = HLC::new();
    let mut manager = LeaseManager::new("node1".to_string(), hlc);
    let lease = manager
        .acquire_lease(
            LeaseScope::Directory { path: FsPath::new("/data"), recursive: true },
            Duration::from_secs(30),
        )
        .unwrap();
    // Releasing twice: the second time the lease is gone.
    assert!(manager.release_lease(lease.id).is_ok());
    assert_eq!(manager.release_lease(lease.id), Err(LeaseError::NotFound { lease_id: lease.id }));
    // Renewing a lease that does not exist.
    assert_eq!(
        manager.renew_lease(LeaseId(7), Duration::from_secs(1)),
        Err(LeaseError::NotFound { lease_id: LeaseId(7) })
    );
}

#[test]
fn lease_error_debug_text() {
    let e = LeaseError::Conflict { existing: LeaseId(42) };
    let mut s = String::new();
    e.push_debug(&mut s);
    assert_eq!(s, "Conflict { existing: LeaseId(42) }");
    let mut t = String::from("err: ");
    LeaseError::Unauthorized.push_debug(&mut t);
    assert_eq!(t, "err: Unauthorized");
}

#[test]
fn lease_time_remaining_and_delegate() {
    let now = HLCTimestamp::new(1000, 0);
    let lease = Lease::new(
        LeaseScope::Directory { path: FsPath::new("/data"), recursive: true },
        "node1".to_string(),
        now,
        Duration::from_secs(30),
    );
    assert_eq!(lease.time_remaining(HLCTimestamp::new(21_000, 0)).map(|d| d.as_millis()), Some(10_000));
    assert!(lease.time_remaining(HLCTimestamp::new(31_000, 0)).is_none());
    let child = lease.delegate(LeaseScope::File(FsPath::new("/data/x")), "node2".to_string(), HLCTimestamp::new(5000, 0));
    assert_eq!(child.parent_lease, Some(lease.id));
    assert_eq!(child.expires_at, lease.expires_at);
    assert_eq!(child.holder, "node2");
}

#[test]
fn lease_scope_debug_string() {
    let scope = LeaseScope::File(FsPath::new("/data/file.txt"));
    assert_eq!(scope.debug_string(), "File(\"/data/file.txt\")");
    let dir = LeaseScope::Directory { path: FsPath::new("/data"), recursive: true };
    assert_eq!(dir.debug_string(), "Directory { path: \"/data\", recursive: true }");
    let block = LeaseScope::Block("b\"1".to_string());
    assert_eq!(block.debug_string(), "Block(\"b\\\"1\")");
}

#[test]
fn recursive_directory_grant_blocks_same_scope() {
    let mut manager = LeaseManager::new("node1".to_string(), HLC::new());
    let scope = LeaseScope::Directory { path: FsPath::new("/data"), recursive: true };
    let again = LeaseScope::Directory { path: FsPath::new("/data"), recursive: true };
    assert!(manager.acquire_lease(scope, Duration::from_secs(30)).is_ok());
    assert!(manager.can_write(&FsPath::new("/data")));
    let result = manager.acquire_lease(again, Duration::from_secs(30));
    assert!(matches!(result, Err(LeaseError::Conflict { .. })));
}

#[test]
fn flat_directory_grant_does_not_cover_itself() {
    let mut manager = LeaseManager::new("node1".to_string(), HLC::new());
    let scope = LeaseScope::Directory { path: FsPath::new("/data"), recursive: false };
    let again = LeaseScope::Directory { path: FsPath::new("/data"), recursive: false };
    assert!(manager.acquire_lease(scope, Duration::from_secs(30)).is_ok());
    assert!(manager.acquire_lease(again, Duration::from_secs(30)).is_ok());
    assert!(manager.can_write(&FsPath::new("/data/file.txt")));
}

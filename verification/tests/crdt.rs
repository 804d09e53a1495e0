use lis::path::FsPath;
use lis::rhc::crdt::lww_register::LWWRegister;
use lis::rhc::crdt::mv_register::MVRegister;
use lis::rhc::crdt::or_set::ORSet;
use lis::rhc::crdt::pn_counter::PNCounter;
use lis::rhc::crdt::rga::RGA;
use lis::rhc::crdt::lease_state::LeaseStateCRDT;
use lis::rhc::crdt::{ActorId, CRDT};
use lis::rhc::hlc::HLCTimestamp;
use lis::rhc::leases::lease::LeaseScope;

#[test]
fn test_lww_register_basic() {
    let mut reg = LWWRegister::new();

    let ts1 = HLCTimestamp::new(100, 0);
    let ts2 = HLCTimestamp::new(200, 0);

    reg.set("value1", ts1);
    assert_eq!(reg.get(), Some(&"value1"));

    reg.set("value2", ts2);
    assert_eq!(reg.get(), Some(&"value2"));

    // Older timestamp should not overwrite
    let ts0 = HLCTimestamp::new(50, 0);
    reg.set("value0", ts0);
    assert_eq!(reg.get(), Some(&"value2"));
}

#[test]
fn test_lww_register_merge() {
    let mut reg1 = LWWRegister::new();
    let mut reg2 = LWWRegister::new();

    let ts1 = HLCTimestamp::new(100, 0);
    let ts2 = HLCTimestamp::new(200, 0);

    reg1.set("value1", ts1);
    reg2.set("value2", ts2);

    reg1.merge(&reg2);
    assert_eq!(reg1.get(), Some(&"value2"));

    // Merge is commutative
    let mut reg3 = LWWRegister::new();
    let mut reg4 = LWWRegister::new();
    reg3.set("value1", ts1);
    reg4.set("value2", ts2);

    reg4.merge(&reg3);
    assert_eq!(reg4.get(), Some(&"value2"));
}

#[test]
fn lww_register_tie_keeps_current() {
    let mut reg = LWWRegister::new();
    let ts = HLCTimestamp::new(100, 0);
    reg.set("first", ts);
    reg.set("second", ts);
    assert_eq!(reg.get(), Some(&"first"));
    assert_eq!(reg.timestamp(), Some(ts));
    let empty: LWWRegister<&str> = LWWRegister::new();
    assert!(empty.happens_before(&reg));
    assert!(!reg.happens_before(&empty));
}

#[test]
fn test_mv_register_concurrent_values() {
    let mut reg1 = MVRegister::new();
    let mut reg2 = MVRegister::new();

    let actor1 = ActorId::new("node1");
    let actor2 = ActorId::new("node2");

    // Concurrent writes
    reg1.set("value1", actor1.clone(), HLCTimestamp::new(100, 0));
    reg2.set("value2", actor2.clone(), HLCTimestamp::new(100, 1));

    // Merge should preserve both values
    reg1.merge(&reg2);
    let values = reg1.get();
    assert_eq!(values.len(), 2);
    assert!(values.contains(&&"value1"));
    assert!(values.contains(&&"value2"));
}

#[test]
fn test_mv_register_superseding() {
    let mut reg = MVRegister::new();
    let actor = ActorId::new("node1");

    // Initial value
    reg.set("v1", actor.clone(), HLCTimestamp::new(100, 0));
    assert_eq!(reg.get().len(), 1);

    // New value supersedes old
    reg.set("v2", actor.clone(), HLCTimestamp::new(200, 0));
    let values = reg.get();
    assert_eq!(values.len(), 1);
    assert_eq!(values[0], &"v2");
}

#[test]
fn mv_register_merge_drops_superseded() {
    let actor = ActorId::new("node1");
    let mut old = MVRegister::new();
    old.set("v1", actor.clone(), HLCTimestamp::new(100, 0));
    let mut new = old.clone();
    new.set("v2", actor.clone(), HLCTimestamp::new(200, 0));
    // The old state learns of the newer write: only it remains.
    old.merge(&new);
    assert_eq!(old.get(), vec![&"v2"]);
    assert!(!old.is_empty());
    assert!(MVRegister::<&str>::new().is_empty());
    // Merging with itself changes nothing.
    let copy = old.clone();
    old.merge(&copy);
    assert_eq!(old.get_versioned().len(), 1);
}

#[test]
fn test_or_set_add_remove() {
    let mut set = ORSet::new();
    let actor1 = ActorId::new("node1");
    let actor2 = ActorId::new("node2");

    let ts1 = HLCTimestamp::new(100, 0);
    let ts2 = HLCTimestamp::new(200, 0);

    set.add("item1", actor1.clone(), ts1);
    assert!(set.contains(&"item1"));

    set.add("item1", actor2.clone(), ts2);
    assert_eq!(set.tags(&"item1").unwrap().len(), 2);

    set.remove(&"item1");
    assert!(!set.contains(&"item1"));
}

#[test]
fn test_or_set_merge() {
    let mut set1 = ORSet::new();
    let mut set2 = ORSet::new();

    let actor1 = ActorId::new("node1");
    let actor2 = ActorId::new("node2");

    let ts1 = HLCTimestamp::new(100, 0);
    let ts2 = HLCTimestamp::new(200, 0);

    set1.add("item1", actor1.clone(), ts1);
    set2.add("item2", actor2.clone(), ts2);

    set1.merge(&set2);

    assert!(set1.contains(&"item1"));
    assert!(set1.contains(&"item2"));
    assert_eq!(set1.elements().len(), 2);
}

#[test]
fn or_set_merge_unions_tags() {
    let mut a = ORSet::new();
    let mut b = ORSet::new();
    a.add(7u32, ActorId::new("n1"), HLCTimestamp::new(1, 0));
    b.add(7u32, ActorId::new("n2"), HLCTimestamp::new(1, 0));
    b.add(7u32, ActorId::new("n1"), HLCTimestamp::new(1, 0));
    a.merge(&b);
    assert_eq!(a.tags(&7).unwrap().len(), 2);
    assert_eq!(a.elements(), vec![&7u32]);
    assert!(!a.happens_before(&b));
}

#[test]
fn test_pn_counter_basic() {
    let mut counter = PNCounter::new();
    let actor1 = ActorId::new("node1");
    let actor2 = ActorId::new("node2");

    counter.increment(actor1.clone(), 5);
    counter.increment(actor2.clone(), 3);
    assert_eq!(counter.value(), 8);

    counter.decrement(actor1.clone(), 2);
    assert_eq!(counter.value(), 6);
}

#[test]
fn test_pn_counter_merge() {
    let mut counter1 = PNCounter::new();
    let mut counter2 = PNCounter::new();

    let actor1 = ActorId::new("node1");
    let actor2 = ActorId::new("node2");

    counter1.increment(actor1.clone(), 5);
    counter1.decrement(actor1.clone(), 2);

    counter2.increment(actor2.clone(), 3);
    counter2.increment(actor1.clone(), 2); // Less than counter1

    counter1.merge(&counter2);

    // Should take max of each actor's counts
    assert_eq!(counter1.positive_count(&actor1), 5); // max(5, 2)
    assert_eq!(counter1.positive_count(&actor2), 3);
    assert_eq!(counter1.negative_count(&actor1), 2);
    assert_eq!(counter1.value(), 6); // (5 + 3) - 2
}

#[test]
fn pn_counter_merge_is_idempotent() {
    let mut c = PNCounter::new();
    c.increment(ActorId::new("a"), 4);
    c.decrement(ActorId::new("b"), 9);
    let copy = c.clone();
    c.merge(&copy);
    assert_eq!(c.value(), -5);
    assert_eq!(c.positive_count(&ActorId::new("zz")), 0);
}

#[test]
fn test_rga_insert_and_iterate() {
    let actor = ActorId::new("node1");
    let mut rga = RGA::new(actor.clone());

    let root = rga.root().clone();
    let id1 = rga.insert_after(&root, 'H', actor.clone(), HLCTimestamp::new(100, 0));
    let id2 = rga.insert_after(&id1, 'e', actor.clone(), HLCTimestamp::new(200, 0));
    let id3 = rga.insert_after(&id2, 'l', actor.clone(), HLCTimestamp::new(300, 0));
    let id4 = rga.insert_after(&id3, 'l', actor.clone(), HLCTimestamp::new(400, 0));
    let _id5 = rga.insert_after(&id4, 'o', actor.clone(), HLCTimestamp::new(500, 0));

    let text: String = rga.to_vec().into_iter().collect();
    assert_eq!(text, "Hello");
}

#[test]
fn test_rga_delete() {
    let actor = ActorId::new("node1");
    let mut rga = RGA::new(actor.clone());

    let root = rga.root().clone();
    let id1 = rga.insert_after(&root, 'A', actor.clone(), HLCTimestamp::new(100, 0));
    let id2 = rga.insert_after(&id1, 'B', actor.clone(), HLCTimestamp::new(200, 0));
    let _id3 = rga.insert_after(&id2, 'C', actor.clone(), HLCTimestamp::new(300, 0));

    rga.delete(&id2);

    let text: String = rga.to_vec().into_iter().collect();
    assert_eq!(text, "AC");
}

#[test]
fn rga_merge_orders_by_identifier() {
    let a = ActorId::new("a");
    let b = ActorId::new("b");
    let mut left = RGA::new(a.clone());
    let root = left.root().clone();
    let x = left.insert_after(&root, 'x', a.clone(), HLCTimestamp::new(300, 0));
    let mut right = RGA::new(a.clone());
    let root_r = right.root().clone();
    right.insert_after(&root_r, 'y', b.clone(), HLCTimestamp::new(100, 0));
    right.insert_after(&root_r, 'z', a.clone(), HLCTimestamp::new(200, 0));
    // After merging, elements follow (actor, timestamp) order: a@200, a@300, b@100.
    left.merge(&right);
    let text: String = left.to_vec().into_iter().collect();
    assert_eq!(text, "zxy");
    // A deletion on one side reaches the other.
    let mut other = left.clone();
    other.delete(&x);
    left.merge(&other);
    let text: String = left.to_vec().into_iter().collect();
    assert_eq!(text, "zy");
}

#[test]
fn rga_replicas_with_different_heads_converge() {
    let a = ActorId::new("a");
    let b = ActorId::new("b");
    let mut left = RGA::new(a.clone());
    let lroot = left.root().clone();
    let l1 = left.insert_after(&lroot, 'l', a.clone(), HLCTimestamp::new(100, 0));
    left.insert_after(&l1, 'm', a.clone(), HLCTimestamp::new(300, 0));
    let mut right = RGA::new(b.clone());
    let rroot = right.root().clone();
    let r1 = right.insert_after(&rroot, 'r', b.clone(), HLCTimestamp::new(200, 0));
    right.delete(&r1);
    right.insert_after(&rroot, 's', b.clone(), HLCTimestamp::new(50, 0));
    let left_before = left.clone();
    left.merge(&right);
    right.merge(&left_before);
    let lt: String = left.to_vec().into_iter().collect();
    let rt: String = right.to_vec().into_iter().collect();
    assert_eq!(lt, rt);
    assert_eq!(lt, "lms");
}

#[test]
fn rga_insert_after_smaller_identifier_goes_later() {
    let a = ActorId::new("a");
    let mut rga = RGA::new(a.clone());
    let root = rga.root().clone();
    rga.insert_after(&root, '1', a.clone(), HLCTimestamp::new(500, 0));
    // The element already after the head has the greater identifier, so it
    // stays first and the new one follows it.
    rga.insert_after(&root, '0', a.clone(), HLCTimestamp::new(100, 0));
    let text: String = rga.to_vec().into_iter().collect();
    assert_eq!(text, "10");
}

#[test]
fn rga_insert_in_the_middle_keeps_the_rest() {
    let a = ActorId::new("a");
    let mut rga = RGA::new(a.clone());
    let root = rga.root().clone();
    let h = rga.insert_after(&root, 'H', a.clone(), HLCTimestamp::new(100, 0));
    let l = rga.insert_after(&h, 'l', a.clone(), HLCTimestamp::new(200, 0));
    rga.insert_after(&l, 'o', a.clone(), HLCTimestamp::new(300, 0));
    rga.insert_after(&l, 'l', a.clone(), HLCTimestamp::new(400, 0));
    rga.insert_after(&h, 'e', a.clone(), HLCTimestamp::new(500, 0));
    let text: String = rga.to_vec().into_iter().collect();
    assert_eq!(text, "Hello");
    rga.insert_after(&root, '>', a.clone(), HLCTimestamp::new(600, 0));
    let text: String = rga.to_vec().into_iter().collect();
    assert_eq!(text, ">Hello");
}

#[test]
fn test_lease_grant_and_check() {
    let mut crdt = LeaseStateCRDT::new(ActorId::new("cg1"));
    let scope = LeaseScope::File(FsPath::new("/data/file.txt"));
    let holder = ActorId::new("node1");

    let granted_at = HLCTimestamp::new(1000, 0);
    let expires_at = HLCTimestamp::new(2000, 0);

    let _lease_id = crdt.grant_lease(&scope, holder.clone(), granted_at, expires_at);

    // Check at various times
    let check1 = HLCTimestamp::new(1500, 0); // During lease
    let info1 = crdt.is_lease_valid(&scope, check1);
    assert!(info1.is_some());
    assert_eq!(info1.unwrap().holder, holder);

    let check2 = HLCTimestamp::new(2500, 0); // After expiry
    let info2 = crdt.is_lease_valid(&scope, check2);
    assert!(info2.is_none());
}

#[test]
fn test_lease_fence() {
    let mut crdt = LeaseStateCRDT::new(ActorId::new("cg1"));
    let scope = LeaseScope::File(FsPath::new("/data/file.txt"));
    let holder = ActorId::new("node1");

    let granted_at = HLCTimestamp::new(1000, 0);
    let expires_at = HLCTimestamp::new(3000, 0);

    crdt.grant_lease(&scope, holder, granted_at, expires_at);

    // Fence at time 1500
    let fence_ts = HLCTimestamp::new(1500, 0);
    crdt.fence_lease(&scope, fence_ts);

    // Check before fence - should be valid
    let check1 = HLCTimestamp::new(1400, 0);
    assert!(crdt.is_lease_valid(&scope, check1).is_some());

    // Check after fence - should be invalid
    let check2 = HLCTimestamp::new(1600, 0);
    assert!(crdt.is_lease_valid(&scope, check2).is_none());
}

#[test]
fn test_lease_crdt_merge() {
    let mut crdt1 = LeaseStateCRDT::new(ActorId::new("cg1"));
    let mut crdt2 = LeaseStateCRDT::new(ActorId::new("cg2"));

    let scope1 = LeaseScope::File(FsPath::new("/data/file1.txt"));
    let scope2 = LeaseScope::File(FsPath::new("/data/file2.txt"));

    // CG1 grants lease for file1
    crdt1.grant_lease(&scope1, ActorId::new("node1"), HLCTimestamp::new(1000, 0), HLCTimestamp::new(2000, 0));

    // CG2 grants lease for file2
    crdt2.grant_lease(&scope2, ActorId::new("node2"), HLCTimestamp::new(1100, 0), HLCTimestamp::new(2100, 0));

    // Merge CG2 into CG1
    crdt1.merge(&crdt2);

    // CG1 should now know about both leases
    let check_ts = HLCTimestamp::new(1500, 0);
    assert!(crdt1.is_lease_valid(&scope1, check_ts).is_some());
    assert!(crdt1.is_lease_valid(&scope2, check_ts).is_some());
}

#[test]
fn lease_crdt_active_leases() {
    let mut crdt = LeaseStateCRDT::new(ActorId::new("cg1"));
    let s1 = LeaseScope::File(FsPath::new("/a"));
    let s2 = LeaseScope::Directory { path: FsPath::new("/b"), recursive: false };
    crdt.grant_lease(&s1, ActorId::new("n1"), HLCTimestamp::new(10, 0), HLCTimestamp::new(100, 0));
    crdt.grant_lease(&s2, ActorId::new("n2"), HLCTimestamp::new(10, 0), HLCTimestamp::new(50, 0));
    let active = crdt.active_leases(HLCTimestamp::new(60, 0));
    assert_eq!(active.len(), 1);
    assert_eq!(active[0].0, "File(\"/a\")");
    assert_eq!(active[0].1.holder, ActorId::new("n1"));
    // A fenced lease is no longer active, and a fence written before the
    // grant does not take effect.
    crdt.fence_lease(&s1, HLCTimestamp::new(5, 0));
    assert_eq!(crdt.active_leases(HLCTimestamp::new(60, 0)).len(), 1);
    crdt.fence_lease(&s1, HLCTimestamp::new(20, 0));
    assert_eq!(crdt.active_leases(HLCTimestamp::new(60, 0)).len(), 0);
}

#[test]
fn or_set_remove_survives_merge_with_older_replica() {
    let mut s = ORSet::new();
    let a = ActorId::new("a");
    s.add("x", a.clone(), HLCTimestamp::new(100, 0));
    s.add("y", a.clone(), HLCTimestamp::new(150, 0));
    let r = s.clone();
    s.remove(&"x");
    s.merge(&r);
    assert!(!s.contains(&"x"));
    assert!(s.tags(&"x").is_none());
    assert!(s.contains(&"y"));
    // A concurrent add of x that the remove did not observe survives.
    let mut other = r.clone();
    other.add("x", ActorId::new("b"), HLCTimestamp::new(200, 0));
    s.merge(&other);
    assert!(s.contains(&"x"));
    assert_eq!(s.tags(&"x").unwrap().len(), 1);
}

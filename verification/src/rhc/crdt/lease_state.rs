//! CRDT for managing lease state in consensus groups.

use vstd::prelude::*;
use vstd::pervasive::strictly_cloned;
use crate::keyed::KeyedVec;
use crate::rhc::crdt::{ActorId, CRDT, LWWRegister, TimestampedValue};
use crate::rhc::crdt::lww_register::{
    copy_of, lemma_lww_join_associative, lemma_lww_join_commutative, lww_join,
};
use crate::rhc::hlc::HLCTimestamp;
use crate::rhc::leases::lease::{LeaseId, LeaseScope, scope_key};

verus! {

#[derive(Debug)]
pub struct LeaseEntry {
    pub holder: ActorId,
    pub lease_id: LeaseId,
    pub granted_at: HLCTimestamp,
    pub expires_at: HLCTimestamp,
    pub is_active: bool,
    pub fence_ts: Option<HLCTimestamp>,
}

impl Clone for LeaseEntry {
    fn clone(&self) -> (r: Self)
        ensures
            r == *self,
    {
        LeaseEntry {
            holder: self.holder.clone(),
            lease_id: self.lease_id,
            granted_at: self.granted_at,
            expires_at: self.expires_at,
            is_active: self.is_active,
            fence_ts: self.fence_ts,
        }
    }
}

#[derive(Debug)]
pub struct LeaseInfo {
    pub holder: ActorId,
    pub lease_id: LeaseId,
    pub expires_at: HLCTimestamp,
}

impl Clone for LeaseInfo {
    fn clone(&self) -> (r: Self)
        ensures
            r == *self,
    {
        LeaseInfo { holder: self.holder.clone(), lease_id: self.lease_id, expires_at: self.expires_at }
    }
}

/// What is reported of a lease entry.
pub open spec fn info_of(e: LeaseEntry) -> LeaseInfo {
    LeaseInfo { holder: e.holder, lease_id: e.lease_id, expires_at: e.expires_at }
}

/// The register state under a key; empty when there is none.
pub open spec fn reg_of(m: Map<Seq<char>, Option<TimestampedValue<LeaseEntry>>>, k: Seq<char>) -> Option<TimestampedValue<LeaseEntry>> {
    if m.contains_key(k) {
        m[k]
    } else {
        None
    }
}

/// The lease under a key, if it is valid at `check`: it exists, is not
/// fenced before `check`, and has not expired before `check`.
pub open spec fn valid_lease(
    m: Map<Seq<char>, Option<TimestampedValue<LeaseEntry>>>,
    k: Seq<char>,
    check: HLCTimestamp,
) -> Option<LeaseInfo> {
    match reg_of(m, k) {
        None => None,
        Some(tv) => if (tv.value.fence_ts matches Some(f) && f.precedes(check)) || tv.value.expires_at.precedes(check) {
            None
        } else {
            Some(info_of(tv.value))
        },
    }
}

/// Whether a register holds an active lease that expires after `now`.
pub open spec fn active_at(r: Option<TimestampedValue<LeaseEntry>>, now: HLCTimestamp) -> bool {
    r matches Some(tv) && tv.value.is_active && now.precedes(tv.value.expires_at)
}

/// The active leases under `keys`, in that order.
pub open spec fn active_in(
    m: Map<Seq<char>, Option<TimestampedValue<LeaseEntry>>>,
    keys: Seq<Seq<char>>,
    now: HLCTimestamp,
) -> Seq<(Seq<char>, LeaseInfo)>
    decreases keys.len(),
{
    if keys.len() == 0 {
        Seq::empty()
    } else {
        let k = keys.last();
        active_in(m, keys.drop_last(), now) + if active_at(m[k], now) {
            seq![(k, info_of(m[k]->0.value))]
        } else {
            Seq::empty()
        }
    }
}

/// Merge of two lease tables: every key of either, with the merge of its
/// registers.
pub open spec fn lease_join(
    a: Map<Seq<char>, Option<TimestampedValue<LeaseEntry>>>,
    b: Map<Seq<char>, Option<TimestampedValue<LeaseEntry>>>,
) -> Map<Seq<char>, Option<TimestampedValue<LeaseEntry>>> {
    Map::new(|k: Seq<char>| a.contains_key(k) || b.contains_key(k), |k: Seq<char>| lww_join(reg_of(a, k), reg_of(b, k)))
}

/// CRDT for lease state that can handle concurrent updates.
/// Uses LWW-Register for each lease entry.
#[derive(Debug)]
pub struct LeaseStateCRDT {
    /// Map from lease scope (its debug text) to lease information
    leases: KeyedVec<String, LWWRegister<LeaseEntry>>,
    /// Node/CG ID that owns this CRDT
    actor: ActorId,
}

impl View for LeaseStateCRDT {
    type V = Map<Seq<char>, Option<TimestampedValue<LeaseEntry>>>;

    closed spec fn view(&self) -> Map<Seq<char>, Option<TimestampedValue<LeaseEntry>>> {
        self.leases.map().map_values(|r: LWWRegister<LeaseEntry>| r@)
    }
}

impl LeaseStateCRDT {
    /// The scope keys in iteration order.
    pub closed spec fn order(&self) -> Seq<Seq<char>> {
        self.leases.key_order()
    }

    /// The owner of the table.
    pub closed spec fn actor_id(&self) -> Seq<char> {
        self.actor@
    }

    /// The internal consistency of the table.
    pub closed spec fn wf(&self) -> bool {
        self.leases.wf()
    }

    pub fn new(actor: ActorId) -> (r: Self)
        ensures
            r.wf(),
            r@ == Map::<Seq<char>, Option<TimestampedValue<LeaseEntry>>>::empty(),
            r.actor_id() == actor@,
    {
        let r = Self { leases: KeyedVec::new(), actor };
        proof {
            assert(r@ =~= Map::<Seq<char>, Option<TimestampedValue<LeaseEntry>>>::empty());
        }
        r
    }

    /// Grant a new lease: its entry is written to the scope's register at
    /// `granted_at`, which keeps the later of the two writes.
    pub fn grant_lease(
        &mut self,
        scope: &LeaseScope,
        holder: ActorId,
        granted_at: HLCTimestamp,
        expires_at: HLCTimestamp,
    ) -> (r: LeaseId)
        requires
            old(self).wf(),
        ensures
            final(self).wf(),
            final(self).actor_id() == old(self).actor_id(),
            final(self)@ == old(self)@.insert(
                scope_key(scope@),
                lww_join(
                    reg_of(old(self)@, scope_key(scope@)),
                    Some(TimestampedValue {
                        value: LeaseEntry { holder, lease_id: r, granted_at, expires_at, is_active: true, fence_ts: None },
                        timestamp: granted_at,
                    }),
                ),
            ),
    {
        let lease_id = LeaseId::new();
        let entry = LeaseEntry { holder, lease_id, granted_at, expires_at, is_active: true, fence_ts: None };
        let ghost entry_v = entry;
        let scope_key = scope.debug_string();
        let ghost k = scope_key@;
        let ghost before = self@;
        match self.leases.get_mut(&scope_key) {
            Some(reg) => {
                reg.set(entry, granted_at);
            },
            None => {
                let mut reg = LWWRegister::new();
                reg.set(entry, granted_at);
                let _ = self.leases.insert(scope_key, reg);
            },
        }
        proof {
            assert(self@ =~= before.insert(
                k,
                lww_join(reg_of(before, k), Some(TimestampedValue { value: entry_v, timestamp: granted_at })),
            ));
        }
        lease_id
    }

    /// Create a fence for lease migration: the scope's lease, marked inactive
    /// and fenced at `fence_ts`, is written to its register at `fence_ts`.
    pub fn fence_lease(&mut self, scope: &LeaseScope, fence_ts: HLCTimestamp)
        requires
            old(self).wf(),
        ensures
            final(self).wf(),
            final(self).actor_id() == old(self).actor_id(),
            final(self)@ == match reg_of(old(self)@, scope_key(scope@)) {
                Some(tv) => old(self)@.insert(
                    scope_key(scope@),
                    lww_join(
                        Some(tv),
                        Some(TimestampedValue {
                            value: LeaseEntry { fence_ts: Some(fence_ts), is_active: false, ..tv.value },
                            timestamp: fence_ts,
                        }),
                    ),
                ),
                None => old(self)@,
            },
    {
        let scope_key = scope.debug_string();
        let ghost k = scope_key@;
        let ghost before = self@;
        match self.leases.get_mut(&scope_key) {
            Some(reg) => {
                match reg.get_timestamped() {
                    Some(tv) => {
                        let mut entry = tv.value.clone();
                        entry.fence_ts = Some(fence_ts);
                        entry.is_active = false;
                        reg.set(entry, fence_ts);
                    },
                    None => {},
                }
            },
            None => {},
        }
        proof {
            match reg_of(before, k) {
                Some(tv) => {
                    assert(self@ =~= before.insert(
                        k,
                        lww_join(
                            Some(tv),
                            Some(TimestampedValue {
                                value: LeaseEntry { fence_ts: Some(fence_ts), is_active: false, ..tv.value },
                                timestamp: fence_ts,
                            }),
                        ),
                    ));
                },
                None => {
                    assert(self@ =~= before);
                },
            }
        }
    }

    /// Check if a lease is valid at a given timestamp
    pub fn is_lease_valid(&self, scope: &LeaseScope, check_ts: HLCTimestamp) -> (r: Option<LeaseInfo>)
        requires
            self.wf(),
        ensures
            r == valid_lease(self@, scope_key(scope@), check_ts),
    {
        let scope_key = scope.debug_string();
        match self.leases.get(&scope_key) {
            None => None,
            Some(reg) => match reg.get_timestamped() {
                None => None,
                Some(entry) => {
                    let lease = &entry.value;
                    // Check if lease is fenced
                    if let Some(fence_ts) = lease.fence_ts {
                        if fence_ts.is_before(&check_ts) {
                            return None;
                        }
                    }
                    // Check if lease is expired
                    if lease.expires_at.is_before(&check_ts) {
                        return None;
                    }
                    Some(LeaseInfo { holder: lease.holder.clone(), lease_id: lease.lease_id, expires_at: lease.expires_at })
                },
            },
        }
    }

    /// Get all active leases, in iteration order
    pub fn active_leases(&self, now: HLCTimestamp) -> (r: Vec<(String, LeaseInfo)>)
        requires
            self.wf(),
        ensures
            r@.map_values(|p: (String, LeaseInfo)| (p.0@, p.1)) == active_in(self@, self.order(), now),
    {
        proof {
            self.leases.lemma_key_order();
        }
        let ghost ko = self.order();
        let n = self.leases.len();
        let mut r: Vec<(String, LeaseInfo)> = Vec::new();
        let mut i: usize = 0;
        proof {
            assert(ko.take(0) =~= Seq::<Seq<char>>::empty());
            assert(r@.map_values(|p: (String, LeaseInfo)| (p.0@, p.1)) =~= active_in(self@, ko.take(0), now));
        }
        while i < n
            invariant
                self.wf(),
                ko == self.order(),
                n == ko.len(),
                i <= n,
                r@.map_values(|p: (String, LeaseInfo)| (p.0@, p.1)) == active_in(self@, ko.take(i as int), now),
            decreases n - i,
        {
            let (scope, reg) = self.leases.entry_at(i);
            let ghost before = r@;
            let ghost k = ko[i as int];
            proof {
                assert(ko.take(i + 1).drop_last() =~= ko.take(i as int));
                assert(ko.take(i + 1).last() == k);
                assert(self@[k] == reg@);
            }
            match reg.get_timestamped() {
                Some(entry) => {
                    let lease = &entry.value;
                    if lease.is_active && now.is_before(&lease.expires_at) {
                        let info = LeaseInfo { holder: lease.holder.clone(), lease_id: lease.lease_id, expires_at: lease.expires_at };
                        r.push((scope.clone(), info));
                        proof {
                            assert(r@.map_values(|p: (String, LeaseInfo)| (p.0@, p.1)) =~= before.map_values(
                                |p: (String, LeaseInfo)| (p.0@, p.1),
                            ).push((k, info_of(self@[k]->0.value))));
                        }
                    }
                },
                None => {},
            }
            i = i + 1;
        }
        proof {
            assert(ko.take(n as int) =~= ko);
        }
        r
    }
}

impl Clone for LeaseStateCRDT {
    fn clone(&self) -> (r: Self)
        ensures
            self.wf() ==> r.wf() && r@ == self@ && r.order() == self.order(),
            r.actor_id() == self.actor_id(),
    {
        let leases = self.leases.clone_entries();
        let r = LeaseStateCRDT { leases, actor: self.actor.clone() };
        proof {
            if self.wf() {
                assert(crate::keyed::clone_exact::<String>()) by {
                    assert forall|a: String, b: String| #[trigger] strictly_cloned(a, b) implies a == b by {}
                }
                assert forall|a: LWWRegister<LeaseEntry>, b: LWWRegister<LeaseEntry>| #[trigger] strictly_cloned(a, b) implies a@
                    == b@ by {
                    assert(copy_of(a.entry(), b.entry()));
                }
                self.leases.lemma_view_clone(&r.leases);
                assert(r@ =~= self@);
            }
        }
        r
    }
}

impl CRDT for LeaseStateCRDT {
    open spec fn crdt_wf(&self) -> bool {
        self.wf()
    }

    /// Every scope of either table, with its registers merged.
    fn merge(&mut self, other: &Self)
        ensures
            final(self)@ == lease_join(old(self)@, other@),
            final(self).actor_id() == old(self).actor_id(),
    {
        proof {
            other.leases.lemma_key_order();
        }
        let ghost ko = other.order();
        let ghost start = self@;
        let ghost theirs = other@;
        let n = other.leases.len();
        let mut i: usize = 0;
        proof {
            let empty = theirs.restrict(ko.take(0).to_set());
            assert(empty =~= Map::<Seq<char>, Option<TimestampedValue<LeaseEntry>>>::empty());
            assert(lease_join(start, empty) =~= start);
        }
        while i < n
            invariant
                self.wf(),
                other.wf(),
                self.actor@ == old(self).actor@,
                ko == other.order(),
                theirs == other@,
                n == ko.len(),
                ko.no_duplicates(),
                forall|k: Seq<char>| #[trigger] theirs.contains_key(k) <==> ko.contains(k),
                i <= n,
                self@ == lease_join(start, theirs.restrict(ko.take(i as int).to_set())),
            decreases n - i,
        {
            let (scope, other_reg) = other.leases.entry_at(i);
            let ghost k = scope@;
            let ghost before = self@;
            match self.leases.get_mut(scope) {
                Some(reg) => {
                    reg.merge(other_reg);
                    proof {
                        assert(self@ =~= before.insert(k, lww_join(before[k], other_reg@)));
                    }
                },
                None => {
                    let mut reg = LWWRegister::new();
                    reg.merge(other_reg);
                    let _ = self.leases.insert(scope.clone(), reg);
                    proof {
                        assert(self@ =~= before.insert(k, lww_join(None, other_reg@)));
                    }
                },
            }
            proof {
                let t0 = ko.take(i as int);
                let t1 = ko.take(i + 1);
                assert forall|x: Seq<char>| #[trigger] t1.to_set().contains(x) <==> (t0.to_set().contains(x) || x == k) by {
                    if t1.to_set().contains(x) {
                        let j = choose|j: int| 0 <= j < t1.len() && #[trigger] t1[j] == x;
                        if j < i {
                            assert(t0[j] == x);
                        }
                    }
                    if t0.to_set().contains(x) {
                        let j = choose|j: int| 0 <= j < t0.len() && #[trigger] t0[j] == x;
                        assert(t1[j] == x);
                    }
                    if x == k {
                        assert(t1[i as int] == x);
                    }
                }
                assert(!t0.to_set().contains(k)) by {
                    if t0.to_set().contains(k) {
                        let j = choose|j: int| 0 <= j < t0.len() && #[trigger] t0[j] == k;
                        assert(ko[j] == ko[i as int]);
                    }
                }
                let r0 = theirs.restrict(t0.to_set());
                let r1 = theirs.restrict(t1.to_set());
                assert(r1 =~= r0.insert(k, theirs[k]));
                assert(self@ =~= lease_join(start, r1));
            }
            i = i + 1;
        }
        proof {
            assert(ko.take(n as int) =~= ko);
            assert(theirs.restrict(ko.take(n as int).to_set()) =~= theirs);
        }
    }

    /// Lease state doesn't have a single timestamp.
    fn happens_before(&self, _other: &Self) -> (r: bool)
        ensures
            !r,
    {
        false
    }
}


/// Merging lease tables is associative.
pub proof fn lemma_lease_join_associative(
    a: Map<Seq<char>, Option<TimestampedValue<LeaseEntry>>>,
    b: Map<Seq<char>, Option<TimestampedValue<LeaseEntry>>>,
    c: Map<Seq<char>, Option<TimestampedValue<LeaseEntry>>>,
)
    ensures
        lease_join(lease_join(a, b), c) == lease_join(a, lease_join(b, c)),
{
    assert forall|k: Seq<char>| #[trigger] lease_join(lease_join(a, b), c).contains_key(k) implies lease_join(lease_join(a, b), c)[k]
        == lease_join(a, lease_join(b, c))[k] by {
        lemma_lww_join_associative(reg_of(a, k), reg_of(b, k), reg_of(c, k));
    }
    assert(lease_join(lease_join(a, b), c) =~= lease_join(a, lease_join(b, c)));
}

/// Merging a lease table with itself changes nothing.
pub proof fn lemma_lease_join_idempotent(a: Map<Seq<char>, Option<TimestampedValue<LeaseEntry>>>)
    ensures
        lease_join(a, a) == a,
{
    assert(lease_join(a, a) =~= a);
}

/// Merging lease tables is commutative, unless some scope holds different
/// entries written at the same timestamp on the two sides.
pub proof fn lemma_lease_join_commutative(
    a: Map<Seq<char>, Option<TimestampedValue<LeaseEntry>>>,
    b: Map<Seq<char>, Option<TimestampedValue<LeaseEntry>>>,
)
    requires
        forall|k: Seq<char>| !(#[trigger] reg_of(a, k) matches Some(x) && reg_of(b, k) matches Some(y) && x.timestamp == y.timestamp && x != y),
    ensures
        lease_join(a, b) == lease_join(b, a),
{
    assert forall|k: Seq<char>| #[trigger] lease_join(a, b).contains_key(k) implies lease_join(a, b)[k] == lease_join(b, a)[k] by {
        lemma_lww_join_commutative(reg_of(a, k), reg_of(b, k));
    }
    assert(lease_join(a, b) =~= lease_join(b, a));
}

/// A lease granted on a scope whose register holds nothing later is valid,
/// with its holder and expiry, at every time up to its expiry.
pub proof fn lemma_granted_lease_valid(
    m: Map<Seq<char>, Option<TimestampedValue<LeaseEntry>>>,
    k: Seq<char>,
    entry: LeaseEntry,
    check: HLCTimestamp,
)
    requires
        entry.is_active,
        entry.fence_ts is None,
        reg_of(m, k) matches Some(tv) ==> tv.timestamp.precedes(entry.granted_at),
        !entry.expires_at.precedes(check),
    ensures
        valid_lease(
            m.insert(k, lww_join(reg_of(m, k), Some(TimestampedValue { value: entry, timestamp: entry.granted_at }))),
            k,
            check,
        ) == Some(info_of(entry)),
{
}

/// A lease that has expired is no longer valid.
pub proof fn lemma_expired_lease_invalid(m: Map<Seq<char>, Option<TimestampedValue<LeaseEntry>>>, k: Seq<char>, check: HLCTimestamp)
    requires
        reg_of(m, k) matches Some(tv) && tv.value.expires_at.precedes(check),
    ensures
        valid_lease(m, k, check) is None,
{
}

/// After a fence that takes effect (it is later than the lease's write), the
/// lease is invalid past the fence and unchanged up to it.
pub proof fn lemma_fence(
    m: Map<Seq<char>, Option<TimestampedValue<LeaseEntry>>>,
    k: Seq<char>,
    fence_ts: HLCTimestamp,
    check: HLCTimestamp,
)
    requires
        reg_of(m, k) matches Some(tv) && tv.timestamp.precedes(fence_ts),
    ensures
        ({
            let tv = reg_of(m, k)->0;
            let fenced = m.insert(
                k,
                lww_join(
                    Some(tv),
                    Some(TimestampedValue {
                        value: LeaseEntry { fence_ts: Some(fence_ts), is_active: false, ..tv.value },
                        timestamp: fence_ts,
                    }),
                ),
            );
            &&& fence_ts.precedes(check) ==> valid_lease(fenced, k, check) is None
            &&& !fence_ts.precedes(check) ==> valid_lease(fenced, k, check) == (if tv.value.expires_at.precedes(check) {
                None
            } else {
                Some(info_of(tv.value))
            })
        }),
{
}

} // verus!

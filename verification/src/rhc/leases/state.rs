//! Lease state tracking and validation.

use vstd::prelude::*;
use crate::keyed::KeyedVec;
use crate::path::FsPath;
use crate::rhc::hlc::HLCTimestamp;
use crate::rhc::leases::lease::{
    Lease, LeaseId, LeaseScope, LeaseView, ScopeView, expired_at, more_specific, scope_covers,
    scope_path,
};
use crate::time::Duration;

verus! {

/// Current status of a lease
#[derive(Debug, Clone, Copy, PartialEq, Eq, Structural)]
pub enum LeaseStatus {
    /// Lease is active and valid
    Active,
    /// Lease has expired
    Expired,
    /// Lease was revoked/released
    Revoked,
    /// Lease is being transferred
    Transferring,
}

/// A lease is a candidate for a path at `now` when its scope covers the
/// path and it has not expired.
pub open spec fn is_candidate(l: LeaseView, path: Seq<Seq<char>>, now: HLCTimestamp) -> bool {
    scope_covers(l.scope, path) && !expired_at(l, now)
}

/// How specific a lease is: the number of components of its path (0 for a
/// block lease).
pub open spec fn rank(l: LeaseView) -> int {
    match scope_path(l.scope) {
        Some(p) => p.len() as int,
        None => 0,
    }
}

/// The views of a sequence of leases.
pub open spec fn views(s: Seq<Lease>) -> Seq<LeaseView> {
    s.map_values(|l: Lease| l@)
}

/// The views of a sequence of lease references.
pub open spec fn ref_views(s: Seq<&Lease>) -> Seq<LeaseView> {
    s.map_values(|l: &Lease| l@)
}

/// Held by `holder` and not expired at `now`.
pub open spec fn held_and_live(holder: Seq<char>, now: HLCTimestamp) -> spec_fn(LeaseView) -> bool {
    |l: LeaseView| l.holder == holder && !expired_at(l, now)
}

/// Not expired at `now` and expiring no later than `deadline`.
pub open spec fn live_until(now: HLCTimestamp, deadline: HLCTimestamp) -> spec_fn(LeaseView) -> bool {
    |l: LeaseView| !expired_at(l, now) && !deadline.precedes(l.expires_at)
}

/// Expired at `now`.
pub open spec fn expired_pred(now: HLCTimestamp) -> spec_fn(LeaseView) -> bool {
    |l: LeaseView| expired_at(l, now)
}

/// The position, among the first `n` of `s`, of the lease chosen for `path`
/// at `now`: a candidate with the most path components, of several such the
/// last.
pub open spec fn chosen_upto(s: Seq<LeaseView>, path: Seq<Seq<char>>, now: HLCTimestamp, n: nat) -> Option<int>
    decreases n,
{
    if n == 0 {
        None
    } else {
        let before = chosen_upto(s, path, now, (n - 1) as nat);
        let i = n - 1;
        if is_candidate(s[i], path, now) && (before matches Some(b) ==> rank(s[b]) <= rank(s[i])) {
            Some(i)
        } else {
            before
        }
    }
}

/// Tracks the state of all leases in a node/CG
pub struct LeaseState {
    /// All known leases by ID
    leases: KeyedVec<u128, Lease>,
    /// Our node/CG identifier
    node_id: String,
}

impl LeaseState {
    /// The internal consistency of the state: each lease is stored under its
    /// own ID.
    pub closed spec fn wf(&self) -> bool {
        &&& self.leases.wf()
        &&& forall|k: u128| #[trigger] self.leases.map().contains_key(k) ==> self.leases.map()[k].id.0 == k
    }

    /// The leases by ID.
    pub closed spec fn lease_map(&self) -> Map<u128, Lease> {
        self.leases.map()
    }

    /// The IDs in iteration order.
    pub closed spec fn order(&self) -> Seq<u128> {
        self.leases.key_order()
    }

    /// Our node/CG identifier.
    pub closed spec fn node_id_spec(&self) -> Seq<char> {
        self.node_id@
    }

    /// The lease values by ID.
    pub open spec fn view_map(&self) -> Map<u128, LeaseView> {
        self.lease_map().map_values(|l: Lease| l@)
    }

    /// The lease values in iteration order.
    pub open spec fn view_order(&self) -> Seq<LeaseView> {
        self.order().map_values(|k: u128| self.lease_map()[k]@)
    }

    /// The ID of the lease chosen for `path` at `now`, in iteration order.
    pub open spec fn chosen_for(&self, path: Seq<Seq<char>>, now: HLCTimestamp) -> Option<u128> {
        match chosen_upto(self.view_order(), path, now, self.order().len()) {
            Some(i) => Some(self.order()[i]),
            None => None,
        }
    }

    /// The iteration order lists each ID of the state once.
    pub proof fn lemma_order(&self)
        requires
            self.wf(),
        ensures
            self.order().no_duplicates(),
            forall|k: u128| #[trigger] self.lease_map().contains_key(k) <==> self.order().contains(k),
            self.order().len() == self.lease_map().dom().len(),
    {
        self.leases.lemma_key_order();
    }

    /// Create a new lease state tracker
    pub fn new(node_id: String) -> (s: Self)
        ensures
            s.wf(),
            s.lease_map() == Map::<u128, Lease>::empty(),
            s.node_id_spec() == node_id@,
    {
        LeaseState { leases: KeyedVec::new(), node_id }
    }

    /// Get a lease by ID
    pub fn get_lease(&self, lease_id: &LeaseId) -> (r: Option<&Lease>)
        requires
            self.wf(),
        ensures
            r matches Some(l) ==> self.lease_map().contains_key(lease_id.0) && *l == self.lease_map()[lease_id.0],
            r is None ==> !self.lease_map().contains_key(lease_id.0),
    {
        self.leases.get(&lease_id.0)
    }

    /// Get a mutable reference to a lease by ID
    pub fn get_lease_mut(&mut self, lease_id: &LeaseId) -> (r: Option<&mut Lease>)
        requires
            old(self).wf(),
        ensures
            (r matches Some(l) ==> final(l).id == l.id) ==> final(self).wf(),
            final(self).node_id_spec() == old(self).node_id_spec(),
            final(self).order() == old(self).order(),
            r is None ==> !old(self).lease_map().contains_key(lease_id.0) && final(self).lease_map()
                == old(self).lease_map(),
            r matches Some(l) ==> {
                &&& old(self).lease_map().contains_key(lease_id.0)
                &&& *l == old(self).lease_map()[lease_id.0]
                &&& final(self).lease_map() == old(self).lease_map().insert(lease_id.0, *final(l))
            },
    {
        self.leases.get_mut(&lease_id.0)
    }

    /// Add a lease to the state, under its ID (replacing a lease of the
    /// same ID)
    pub fn add_lease(&mut self, lease: Lease)
        requires
            old(self).wf(),
        ensures
            final(self).wf(),
            final(self).node_id_spec() == old(self).node_id_spec(),
            final(self).lease_map() == old(self).lease_map().insert(lease.id.0, lease),
    {
        let id = lease.id.0;
        self.leases.insert(id, lease);
    }

    /// Remove a lease from the state, returning it if it was there
    pub fn remove_lease(&mut self, lease_id: LeaseId) -> (r: Option<Lease>)
        requires
            old(self).wf(),
        ensures
            final(self).wf(),
            final(self).node_id_spec() == old(self).node_id_spec(),
            final(self).lease_map() == old(self).lease_map().remove(lease_id.0),
            r matches Some(l) ==> old(self).lease_map().contains_key(lease_id.0) && l == old(self).lease_map()[lease_id.0],
            r is None ==> !old(self).lease_map().contains_key(lease_id.0),
            forall|k: u128| #[trigger] final(self).lease_map().contains_key(k) ==> final(self).lease_map()[k].id != lease_id,
    {
        self.leases.remove(&lease_id.0)
    }

    /// Each lease of a consistent state is stored under its own ID.
    pub proof fn lemma_keyed_by_id(&self)
        requires
            self.wf(),
        ensures
            forall|k: u128| #[trigger] self.lease_map().contains_key(k) ==> self.lease_map()[k].id.0 == k,
    {
    }

    /// Find the most specific active lease covering a path: a lease whose
    /// scope covers the path, not expired at `now`, with the most path
    /// components (of several such, the last in iteration order).
    pub fn find_lease_for_path(&self, path: &FsPath, now: HLCTimestamp) -> (r: Option<&Lease>)
        requires
            self.wf(),
        ensures
            match self.chosen_for(path@, now) {
                None => r is None,
                Some(k) => self.lease_map().contains_key(k) && (r matches Some(l) && *l == self.lease_map()[k]),
            },
            r is None <==> forall|k: u128| #[trigger] self.lease_map().contains_key(k)
                ==> !is_candidate(self.lease_map()[k]@, path@, now),
            r matches Some(l) ==> {
                &&& exists|k: u128| #[trigger] self.lease_map().contains_key(k) && self.lease_map()[k] == *l
                &&& is_candidate(l@, path@, now)
                &&& forall|k: u128| #[trigger] self.lease_map().contains_key(k) && is_candidate(
                    self.lease_map()[k]@,
                    path@,
                    now,
                ) ==> rank(self.lease_map()[k]@) <= rank(l@)
            },
    {
        proof {
            self.lemma_order();
        }
        let n = self.leases.len();
        let mut best: Option<&Lease> = None;
        let mut best_rank: usize = 0;
        let mut i: usize = 0;
        while i < n
            invariant
                self.wf(),
                n == self.order().len(),
                i <= n,
                self.order().no_duplicates(),
                forall|k: u128| #[trigger] self.lease_map().contains_key(k) <==> self.order().contains(k),
                match chosen_upto(self.view_order(), path@, now, i as nat) {
                    None => best is None,
                    Some(j) => 0 <= j < i && (best matches Some(l) && *l == self.lease_map()[self.order()[j]]),
                },
                best is None ==> forall|j: int| 0 <= j < i ==> !is_candidate(
                    self.lease_map()[#[trigger] self.order()[j]]@,
                    path@,
                    now,
                ),
                best matches Some(l) ==> {
                    &&& exists|k: u128| #[trigger] self.lease_map().contains_key(k) && self.lease_map()[k] == *l
                    &&& is_candidate(l@, path@, now)
                    &&& rank(l@) == best_rank
                    &&& forall|j: int| 0 <= j < i && is_candidate(
                        self.lease_map()[#[trigger] self.order()[j]]@,
                        path@,
                        now,
                    ) ==> rank(self.lease_map()[self.order()[j]]@) <= best_rank
                },
            decreases n - i,
        {
            let (_, lease) = self.leases.entry_at(i);
            proof {
                assert(self.view_order()[i as int] == lease@);
                if let Some(j) = chosen_upto(self.view_order(), path@, now, i as nat) {
                    assert(self.view_order()[j] == self.lease_map()[self.order()[j]]@);
                }
            }
            if lease.scope.covers(path) && !lease.is_expired(now) {
                let r = match lease.scope.path() {
                    Some(p) => p.component_count(),
                    None => 0,
                };
                if best.is_none() || r >= best_rank {
                    best = Some(lease);
                    best_rank = r;
                }
            }
            i = i + 1;
        }
        proof {
            assert forall|k: u128| #[trigger] self.lease_map().contains_key(k) implies
                (is_candidate(self.lease_map()[k]@, path@, now) ==> best is Some && rank(self.lease_map()[k]@) <= best_rank) by {
                let j = self.order().index_of(k);
                assert(self.order()[j] == k);
            }
            if let Some(j) = chosen_upto(self.view_order(), path@, now, n as nat) {
                assert(self.order().contains(self.order()[j]));
            }
        }
        best
    }

    /// Get all active leases held by this node, in iteration order
    pub fn my_leases(&self, now: HLCTimestamp) -> (r: Vec<&Lease>)
        requires
            self.wf(),
        ensures
            ref_views(r@) == self.view_order().filter(held_and_live(self.node_id_spec(), now)),
    {
        let n = self.leases.len();
        let mut result: Vec<&Lease> = Vec::new();
        let mut i: usize = 0;
        let ghost pred = held_and_live(self.node_id_spec(), now);
        while i < n
            invariant
                self.wf(),
                n == self.order().len(),
                i <= n,
                pred == held_and_live(self.node_id_spec(), now),
                ref_views(result@) == self.view_order().take(i as int).filter(pred),
            decreases n - i,
        {
            let (_, lease) = self.leases.entry_at(i);
            proof {
                assert(self.view_order().take(i + 1).drop_last() =~= self.view_order().take(i as int));
                assert(self.view_order()[i as int] == lease@);
                reveal_with_fuel(Seq::<LeaseView>::filter, 1);
            }
            if lease.holder == self.node_id && !lease.is_expired(now) {
                result.push(lease);
                proof {
                    assert(ref_views(result@) =~= ref_views(result@.drop_last()).push(lease@));
                }
            }
            i = i + 1;
        }
        proof {
            assert(self.view_order().take(n as int) =~= self.view_order());
        }
        result
    }

    /// Get all leases expiring within the given duration of `now` (not yet
    /// expired, and expiring no later than physical time `now + within`),
    /// in iteration order
    pub fn expiring_soon(&self, now: HLCTimestamp, within: Duration) -> (r: Vec<&Lease>)
        requires
            self.wf(),
            now.physical + within.millis_u64() <= u64::MAX,
        ensures
            ref_views(r@) == self.view_order().filter(
                live_until(now, HLCTimestamp { physical: (now.physical + within.millis_u64()) as u64, logical: 0 }),
            ),
    {
        let within_ms = #[verifier::truncate] (within.as_millis() as u64);
        let deadline = HLCTimestamp::new(now.physical + within_ms, 0);
        let n = self.leases.len();
        let mut result: Vec<&Lease> = Vec::new();
        let mut i: usize = 0;
        let ghost pred = live_until(now, deadline);
        while i < n
            invariant
                self.wf(),
                n == self.order().len(),
                i <= n,
                pred == live_until(now, deadline),
                ref_views(result@) == self.view_order().take(i as int).filter(pred),
            decreases n - i,
        {
            let (_, lease) = self.leases.entry_at(i);
            proof {
                assert(self.view_order().take(i + 1).drop_last() =~= self.view_order().take(i as int));
                assert(self.view_order()[i as int] == lease@);
                reveal_with_fuel(Seq::<LeaseView>::filter, 1);
            }
            if !lease.is_expired(now) && !deadline.is_before(&lease.expires_at) {
                result.push(lease);
                proof {
                    assert(ref_views(result@) =~= ref_views(result@.drop_last()).push(lease@));
                }
            }
            i = i + 1;
        }
        proof {
            assert(self.view_order().take(n as int) =~= self.view_order());
        }
        result
    }

    /// Clean up expired leases: every lease expired at `now` is removed and
    /// returned (in iteration order); the others stay as they were.
    pub fn cleanup_expired(&mut self, now: HLCTimestamp) -> (r: Vec<Lease>)
        requires
            old(self).wf(),
        ensures
            final(self).wf(),
            final(self).node_id_spec() == old(self).node_id_spec(),
            views(r@) == old(self).view_order().filter(expired_pred(now)),
            forall|k: u128| #[trigger] final(self).lease_map().contains_key(k) <==> (old(self).lease_map().contains_key(k)
                && !expired_at(old(self).lease_map()[k]@, now)),
            forall|k: u128| #[trigger] final(self).lease_map().contains_key(k) ==> final(self).lease_map()[k]
                == old(self).lease_map()[k],
    {
        proof {
            self.lemma_order();
        }
        let mut rest: KeyedVec<u128, Lease> = KeyedVec::new();
        std::mem::swap(&mut rest, &mut self.leases);
        let ghost old_order = rest.key_order();
        let ghost old_map = rest.map();
        let ghost old_views = old_order.map_values(|k: u128| old_map[k]@);
        let ghost pred = expired_pred(now);
        let ghost nid = self.node_id@;
        let mut removed: Vec<Lease> = Vec::new();
        let n = rest.len();
        let mut j: usize = 0;
        proof {
            assert(old_order.skip(0) =~= old_order);
            assert(old_views.take(0) =~= Seq::<LeaseView>::empty());
            assert(views(removed@) =~= Seq::<LeaseView>::empty());
        }
        while j < n
            invariant
                rest.wf(),
                self.leases.wf(),
                self.node_id@ == nid,
                n == old_order.len(),
                j <= n,
                old_order.no_duplicates(),
                forall|k: u128| #[trigger] old_map.contains_key(k) <==> old_order.contains(k),
                old_views == old_order.map_values(|k: u128| old_map[k]@),
                pred == expired_pred(now),
                rest.key_order() == old_order.skip(j as int),
                forall|k: u128| #[trigger] rest.map().contains_key(k) ==> old_map.contains_key(k) && rest.map()[k] == old_map[k],
                forall|k: u128| #[trigger] self.leases.map().contains_key(k) <==> (old_order.take(j as int).contains(k)
                    && !expired_at(old_map[k]@, now)),
                forall|k: u128| #[trigger] self.leases.map().contains_key(k) ==> self.leases.map()[k] == old_map[k],
                forall|k: u128| #[trigger] old_map.contains_key(k) ==> old_map[k].id.0 == k,
                forall|k: u128| #[trigger] self.leases.map().contains_key(k) ==> self.leases.map()[k].id.0 == k,
                views(removed@) == old_views.take(j as int).filter(pred),
            decreases n - j,
        {
            proof {
                rest.lemma_key_order();
                assert(rest.key_order()[0] == old_order[j as int]);
                assert(rest.key_order().contains(old_order[j as int]));
            }
            let (k, lease) = rest.remove_at(0);
            proof {
                assert(lease == old_map[k]);
                assert(old_views[j as int] == lease@);
                assert(old_views.take(j + 1).drop_last() =~= old_views.take(j as int));
                reveal_with_fuel(Seq::<LeaseView>::filter, 1);
                assert(rest.key_order() =~= old_order.skip(j + 1));
                assert(old_order.take(j + 1) =~= old_order.take(j as int).push(k));
                assert(!old_order.take(j as int).contains(k)) by {
                    if old_order.take(j as int).contains(k) {
                        let x = choose|x: int| 0 <= x < j && old_order.take(j as int)[x] == k;
                        assert(old_order[x] == old_order[j as int]);
                    }
                }
            }
            if lease.is_expired(now) {
                removed.push(lease);
                proof {
                    assert(views(removed@) =~= views(removed@.drop_last()).push(lease@));
                }
            } else {
                self.leases.insert(k, lease);
            }
            proof {
                assert forall|x: u128| #[trigger] old_order.take(j + 1).contains(x) <==> (old_order.take(
                    j as int,
                ).contains(x) || x == k) by {
                    if old_order.take(j + 1).contains(x) {
                        let t = old_order.take(j + 1);
                        let y = choose|y: int| 0 <= y < t.len() && #[trigger] t[y] == x;
                        if y < j {
                            assert(old_order.take(j as int)[y] == x);
                        }
                    }
                    if old_order.take(j as int).contains(x) {
                        let t = old_order.take(j as int);
                        let y = choose|y: int| 0 <= y < t.len() && #[trigger] t[y] == x;
                        assert(old_order.take(j + 1)[y] == x);
                    }
                    if x == k {
                        assert(old_order.take(j + 1)[j as int] == x);
                    }
                }
            }
            j = j + 1;
        }
        proof {
            assert(old_views.take(n as int) =~= old_views);
            assert(old_order.take(n as int) =~= old_order);
            assert(old_views =~= old(self).view_order());
        }
        removed
    }

    /// Check if we can acquire a lease for the given scope. A block scope
    /// never conflicts; a path scope conflicts with the most specific active
    /// lease covering its path unless the scope is more specific than it.
    /// Returns the conflicting lease if one exists.
    pub fn can_acquire_lease(&self, scope: &LeaseScope, now: HLCTimestamp) -> (r: Result<(), &Lease>)
        requires
            self.wf(),
        ensures
            scope_path(scope@) is None ==> r is Ok,
            scope_path(scope@) matches Some(p) ==> (r is Err <==> exists|k: u128| #[trigger] self.lease_map().contains_key(k)
                && is_candidate(self.lease_map()[k]@, p, now) && rank(self.lease_map()[k]@) >= p.len()),
            scope_path(scope@) matches Some(p) ==> match self.chosen_for(p, now) {
                None => r is Ok,
                Some(k) => if more_specific(scope@, self.view_map()[k].scope) {
                    r is Ok
                } else {
                    r matches Err(l) && *l == self.lease_map()[k]
                },
            },
            r matches Err(l) ==> {
                &&& scope_path(scope@) is Some
                &&& exists|k: u128| #[trigger] self.lease_map().contains_key(k) && self.lease_map()[k] == *l
                &&& is_candidate(l@, scope_path(scope@).unwrap(), now)
                &&& !more_specific(scope@, l@.scope)
                &&& forall|k: u128| #[trigger] self.lease_map().contains_key(k) && is_candidate(
                    self.lease_map()[k]@,
                    scope_path(scope@).unwrap(),
                    now,
                ) ==> rank(self.lease_map()[k]@) <= rank(l@)
            },
    {
        match scope.path() {
            Some(path) => {
                match self.find_lease_for_path(path, now) {
                    Some(existing) => {
                        if scope.is_more_specific_than(&existing.scope) {
                            proof {
                                assert forall|k: u128| #[trigger] self.lease_map().contains_key(k)
                                    && is_candidate(self.lease_map()[k]@, path@, now)
                                    implies rank(self.lease_map()[k]@) < path@.len() by {
                                }
                            }
                            Ok(())
                        } else {
                            Err(existing)
                        }
                    },
                    None => Ok(()),
                }
            },
            None => Ok(()),
        }
    }
}

} // verus!

//! Lease manager - handles acquisition, renewal, and delegation.

use vstd::prelude::*;
use crate::keyed::KeyedVec;
use crate::path::FsPath;
use crate::rhc::hlc::{HLC, HLCTimestamp};
use crate::rhc::leases::lease::{
    Lease, LeaseId, LeaseScope, LeaseView, ScopeView, expired_at, expiry, more_specific, scope_covers, scope_path,
};
use crate::rhc::leases::state::{
    LeaseState, held_and_live, is_candidate, live_until, rank, views, expired_pred,
};
use crate::text::decimal;
use crate::time::Duration;

verus! {

/// A pre-committed approval for lease delegation
#[derive(Debug)]
pub struct DelegationApproval {
    /// Pattern this approval covers (e.g., "/data/eu/*")
    pub path_pattern: String,
    /// CG that can use this approval
    pub approved_for: String,
    /// When this approval expires
    pub valid_until: HLCTimestamp,
    /// Cryptographic signature (placeholder)
    pub signature: Vec<u8>,
}

impl Clone for DelegationApproval {
    fn clone(&self) -> (a: Self)
        ensures
            a.path_pattern@ == self.path_pattern@,
            a.approved_for@ == self.approved_for@,
            a.valid_until == self.valid_until,
            a.signature@ == self.signature@,
    {
        DelegationApproval {
            path_pattern: self.path_pattern.clone(),
            approved_for: self.approved_for.clone(),
            valid_until: self.valid_until,
            signature: self.signature.clone(),
        }
    }
}

/// Errors that can occur during lease operations
#[derive(Debug, Clone, Copy, PartialEq, Eq, Structural)]
pub enum LeaseError {
    /// Another lease conflicts with this request
    Conflict { existing: LeaseId },
    /// Lease has expired
    Expired { lease_id: LeaseId },
    /// Not authorized to perform operation
    Unauthorized,
    /// Lease not found
    NotFound { lease_id: LeaseId },
}

impl LeaseError {
    /// The debug text of the error, as `{:?}` prints it.
    pub open spec fn debug_text(self) -> Seq<char> {
        match self {
            LeaseError::Conflict { existing } => "Conflict { existing: "@ + existing.debug_text()
                + " }"@,
            LeaseError::Expired { lease_id } => "Expired { lease_id: "@ + lease_id.debug_text()
                + " }"@,
            LeaseError::Unauthorized => "Unauthorized"@,
            LeaseError::NotFound { lease_id } => "NotFound { lease_id: "@ + lease_id.debug_text()
                + " }"@,
        }
    }

    /// Appends the debug text of the error to `out`.
    pub fn push_debug(&self, out: &mut String)
        ensures
            final(out)@ == old(out)@ + self.debug_text(),
    {
        match self {
            LeaseError::Conflict { existing } => {
                out.append("Conflict { existing: ");
                existing.push_debug(out);
                out.append(" }");
            },
            LeaseError::Expired { lease_id } => {
                out.append("Expired { lease_id: ");
                lease_id.push_debug(out);
                out.append(" }");
            },
            LeaseError::Unauthorized => {
                out.append("Unauthorized");
            },
            LeaseError::NotFound { lease_id } => {
                out.append("NotFound { lease_id: ");
                lease_id.push_debug(out);
                out.append(" }");
            },
        }
    }
}

/// Whether a request for `scope` at `now` conflicts with an existing lease:
/// the scope has a path, and an active lease covering that path is at least
/// as specific.
pub open spec fn conflicts(leases: Map<u128, LeaseView>, scope: ScopeView, now: HLCTimestamp) -> bool {
    scope_path(scope) matches Some(p) && exists|k: u128| #[trigger] leases.contains_key(k) && is_candidate(leases[k], p, now)
        && rank(leases[k]) >= p.len()
}

/// Whether lease `k` is one a request for `scope` at `now` conflicts with:
/// an active lease covering the scope's path that the scope is not more
/// specific than.
pub open spec fn conflicting(leases: Map<u128, LeaseView>, scope: ScopeView, now: HLCTimestamp, k: u128) -> bool {
    &&& scope_path(scope) is Some
    &&& leases.contains_key(k)
    &&& is_candidate(leases[k], scope_path(scope).unwrap(), now)
    &&& !more_specific(scope, leases[k].scope)
}

/// A duration of `ms` milliseconds as it is added to physical time
/// `start`: truncated to 64 bits (as `as u64` truncates it), and cut down
/// where the sum would pass 64 bits, so that a time this far ahead stays at
/// the largest one.
pub open spec fn clamped(start: u64, ms: u128) -> u64 {
    if (ms as u64) > u64::MAX - start {
        (u64::MAX - start) as u64
    } else {
        ms as u64
    }
}

/// `d` as it is added to `start`: see `clamped`.
fn clamp_duration(start: u64, d: Duration) -> (c: Duration)
    ensures
        c@ == clamped(start, d@),
        start + c.millis_u64() <= u64::MAX,
        c.millis_u64() == c@,
{
    let room = u64::MAX - start;
    let ms = #[verifier::truncate] (d.as_millis() as u64);
    if ms > room {
        Duration::from_millis(room)
    } else {
        Duration::from_millis(ms)
    }
}

/// Manages lease lifecycle for a node/CG
pub struct LeaseManager {
    /// HLC for consistent timestamps
    hlc: HLC,
    /// Current lease state
    state: LeaseState,
    /// Node/CG identifier
    node_id: String,
    /// Pre-committed approvals for delegation, by (from_cg, path_pattern)
    delegations: KeyedVec<(String, String), DelegationApproval>,
}

impl LeaseManager {
    /// The internal consistency of the manager.
    pub closed spec fn wf(&self) -> bool {
        &&& self.state.wf()
        &&& self.delegations.wf()
        &&& self.state.node_id_spec() == self.node_id@
        &&& forall|k: u128| #[trigger] self.state.lease_map().contains_key(k) ==> self.state.lease_map()[k].id.0 == k
    }

    /// The clock.
    pub closed spec fn hlc_spec(&self) -> HLC {
        self.hlc
    }

    /// The lease state.
    pub closed spec fn state_spec(&self) -> LeaseState {
        self.state
    }

    /// Node/CG identifier.
    pub closed spec fn node_id_spec(&self) -> Seq<char> {
        self.node_id@
    }

    /// The delegation approvals by (from_cg, path_pattern).
    pub closed spec fn delegation_map(&self) -> Map<(Seq<char>, Seq<char>), DelegationApproval> {
        self.delegations.map()
    }

    /// The clock can produce another timestamp.
    pub open spec fn ready(&self) -> bool {
        self.hlc_spec().last_logical_spec() < u64::MAX
    }

    /// The timestamp of the manager's latest clock reading.
    pub open spec fn now_spec(&self) -> HLCTimestamp {
        self.hlc_spec().last_spec()
    }

    /// Create a new lease manager
    pub fn new(node_id: String, hlc: HLC) -> (m: Self)
        ensures
            m.wf(),
            m.node_id_spec() == node_id@,
            m.hlc_spec() == hlc,
            m.state_spec().lease_map() == Map::<u128, Lease>::empty(),
            m.delegation_map() == Map::<(Seq<char>, Seq<char>), DelegationApproval>::empty(),
    {
        let state = LeaseState::new(node_id.clone());
        LeaseManager { hlc, state, node_id, delegations: KeyedVec::new() }
    }

    /// The logical counter of the manager's clock.
    pub fn clock_counter(&self) -> (r: u64)
        ensures
            r == self.hlc_spec().last_logical_spec(),
    {
        self.hlc.logical_counter()
    }

    /// The manager's clock, which the node shares.
    pub fn clock(&mut self) -> (h: &mut HLC)
        requires
            old(self).wf(),
        ensures
            *h == old(self).hlc_spec(),
            final(self).hlc_spec() == *final(h),
            final(self).wf(),
            final(self).state_spec() == old(self).state_spec(),
            final(self).node_id_spec() == old(self).node_id_spec(),
            final(self).delegation_map() == old(self).delegation_map(),
    {
        &mut self.hlc
    }

    /// Reads the clock.
    fn tick(&mut self) -> (now: HLCTimestamp)
        requires
            old(self).ready(),
        ensures
            final(self).now_spec() == now,
            now.physical >= old(self).hlc_spec().last_physical_spec(),
            final(self).hlc_spec().last_logical_spec() <= old(self).hlc_spec().last_logical_spec() + 1,
            final(self).state == old(self).state,
            final(self).node_id == old(self).node_id,
            final(self).delegations == old(self).delegations,
    {
        self.hlc.now()
    }

    /// Request a new lease over `scope` for `duration` (truncated to 64-bit
    /// milliseconds; see `clamped`), granted at the clock's current timestamp. It
    /// is refused with the conflicting lease's ID when the scope has a path
    /// and an active lease covering that path is at least as specific.
    pub fn acquire_lease(&mut self, scope: LeaseScope, duration: Duration) -> (r: Result<Lease, LeaseError>)
        requires
            old(self).wf(),
            old(self).ready(),
        ensures
            final(self).wf(),
            final(self).node_id_spec() == old(self).node_id_spec(),
            final(self).delegation_map() == old(self).delegation_map(),
            final(self).hlc_spec().last_logical_spec() <= old(self).hlc_spec().last_logical_spec() + 1,
            ({
                let now = final(self).now_spec();
                let st = old(self).state_spec();
                &&& now.physical >= old(self).hlc_spec().last_physical_spec()
                &&& (r is Err <==> conflicts(st.view_map(), scope@, now))
                &&& (r matches Err(e) ==> (e matches LeaseError::Conflict { existing } && conflicting(st.view_map(), scope@, now, existing.0)
                    && final(self).state_spec().lease_map() == st.lease_map()))
                &&& (r matches Err(e) ==> (st.chosen_for(scope_path(scope@).unwrap(), now) matches Some(k)
                    && e == LeaseError::Conflict { existing: st.lease_map()[k].id }))
                &&& (r matches Ok(l) ==> {
                    &&& l@.scope == scope@
                    &&& l@.holder == old(self).node_id_spec()
                    &&& l@.granted_at == now
                    &&& l@.expires_at == HLCTimestamp { physical: (now.physical + clamped(now.physical, duration@)) as u64, logical: 0 }
                    &&& l@.renewal_count == 0
                    &&& l@.parent_lease is None
                    &&& final(self).state_spec().lease_map().dom() == st.lease_map().dom().insert(l.id.0)
                    &&& final(self).state_spec().view_map() == st.view_map().insert(l.id.0, l@)
                })
            }),
    {
        let now = self.tick();
        let conflict = match self.state.can_acquire_lease(&scope, now) {
            Err(existing) => Some(existing.id),
            Ok(()) => None,
        };
        proof {
            let st = old(self).state.view_map();
            let lm = old(self).state.lease_map();
            if conflicts(st, scope@, now) {
                let p = scope_path(scope@).unwrap();
                let k = choose|k: u128| #[trigger] st.contains_key(k) && is_candidate(st[k], p, now) && rank(st[k]) >= p.len();
                assert(lm.contains_key(k));
            }
            if conflict is Some {
                let p = scope_path(scope@).unwrap();
                let k = choose|k: u128| #[trigger] lm.contains_key(k) && is_candidate(lm[k]@, p, now) && rank(lm[k]@) >= p.len();
                assert(st.contains_key(k));
            }
        }
        if let Some(existing) = conflict {
            return Err(LeaseError::Conflict { existing });
        }
        let d = clamp_duration(now.physical, duration);
        let lease = Lease::new(scope, self.node_id.clone(), now, d);
        let copy = lease.clone();
        self.state.add_lease(copy);
        proof {
            assert(self.state.view_map() =~= old(self).state.view_map().insert(lease.id.0, lease@));
        }
        Ok(lease)
    }

    /// Renew an existing lease held by this node for `duration` from the
    /// clock's current timestamp (truncated to 64-bit milliseconds; see
    /// `clamped`). Refused if the lease is unknown, held by another node, or
    /// already expired.
    pub fn renew_lease(&mut self, lease_id: LeaseId, duration: Duration) -> (r: Result<(), LeaseError>)
        requires
            old(self).wf(),
            old(self).ready(),
            old(self).state_spec().lease_map().contains_key(lease_id.0) ==> old(
                self,
            ).state_spec().lease_map()[lease_id.0].renewal_count < u32::MAX,
        ensures
            final(self).wf(),
            final(self).node_id_spec() == old(self).node_id_spec(),
            final(self).delegation_map() == old(self).delegation_map(),
            ({
                let now = final(self).now_spec();
                let st = old(self).state_spec().view_map();
                let l = st[lease_id.0];
                &&& now.physical >= old(self).hlc_spec().last_physical_spec()
                &&& (!st.contains_key(lease_id.0) ==> r == Err::<(), LeaseError>(LeaseError::NotFound { lease_id }))
                &&& (st.contains_key(lease_id.0) && l.holder != old(self).node_id_spec() ==> r == Err::<(), LeaseError>(LeaseError::Unauthorized))
                &&& (st.contains_key(lease_id.0) && l.holder == old(self).node_id_spec() && expired_at(l, now)
                    ==> r == Err::<(), LeaseError>(LeaseError::Expired { lease_id }))
                &&& (r is Err ==> final(self).state_spec().view_map() == st)
                &&& (r is Ok ==> {
                    &&& st.contains_key(lease_id.0)
                    &&& l.holder == old(self).node_id_spec()
                    &&& !expired_at(l, now)
                    &&& final(self).state_spec().view_map() == st.insert(lease_id.0, LeaseView {
                        expires_at: HLCTimestamp { physical: (now.physical + clamped(now.physical, duration@)) as u64, logical: 0 },
                        renewal_count: (l.renewal_count + 1) as u32,
                        ..l
                    })
                })
            }),
    {
        let now = self.tick();
        let node_id = &self.node_id;
        match self.state.get_lease_mut(&lease_id) {
            Some(lease) => {
                if lease.holder != *node_id {
                    return Err(LeaseError::Unauthorized);
                }
                if lease.is_expired(now) {
                    return Err(LeaseError::Expired { lease_id });
                }
                let d = clamp_duration(now.physical, duration);
                lease.renew(now, d);
                Ok(())
            },
            None => Err(LeaseError::NotFound { lease_id }),
        }
    }

    /// Release a lease early: only its holder may.
    pub fn release_lease(&mut self, lease_id: LeaseId) -> (r: Result<(), LeaseError>)
        requires
            old(self).wf(),
        ensures
            final(self).wf(),
            final(self).node_id_spec() == old(self).node_id_spec(),
            final(self).delegation_map() == old(self).delegation_map(),
            final(self).hlc_spec() == old(self).hlc_spec(),
            ({
                let st = old(self).state_spec().view_map();
                &&& (!st.contains_key(lease_id.0) ==> r == Err::<(), LeaseError>(LeaseError::NotFound { lease_id }))
                &&& (st.contains_key(lease_id.0) && st[lease_id.0].holder != old(self).node_id_spec()
                    ==> r == Err::<(), LeaseError>(LeaseError::Unauthorized))
                &&& (st.contains_key(lease_id.0) && st[lease_id.0].holder == old(self).node_id_spec()
                    ==> r is Ok)
                &&& (r is Err ==> final(self).state_spec().view_map() == st)
                &&& (r is Ok ==> final(self).state_spec().view_map() == st.remove(lease_id.0))
            }),
    {
        let holder_ok = match self.state.get_lease(&lease_id) {
            Some(lease) => Some(lease.holder == self.node_id),
            None => None,
        };
        match holder_ok {
            Some(true) => {
                let _ = self.state.remove_lease(lease_id);
                proof {
                    assert(self.state.view_map() =~= old(self).state.view_map().remove(lease_id.0));
                }
                Ok(())
            },
            Some(false) => Err(LeaseError::Unauthorized),
            None => Err(LeaseError::NotFound { lease_id }),
        }
    }

    /// Add a pre-committed delegation approval for (`from_cg`,
    /// `path_pattern`), valid for `valid_for` from the clock's current
    /// timestamp (its milliseconds truncated to 64 bits, see `clamped`). An approval
    /// under the same key is replaced.
    pub fn add_delegation(
        &mut self,
        from_cg: String,
        path_pattern: String,
        approved_for: String,
        valid_for: Duration,
    )
        requires
            old(self).wf(),
            old(self).ready(),
        ensures
            final(self).wf(),
            final(self).node_id_spec() == old(self).node_id_spec(),
            final(self).state_spec() == old(self).state_spec(),
            ({
                let now = final(self).now_spec();
                let key = (from_cg@, path_pattern@);
                let a = final(self).delegation_map()[key];
                &&& now.physical >= old(self).hlc_spec().last_physical_spec()
                &&& final(self).delegation_map().dom() == old(self).delegation_map().dom().insert(key)
                &&& forall|k: (Seq<char>, Seq<char>)| #[trigger] old(self).delegation_map().contains_key(k) && k != key
                    ==> final(self).delegation_map()[k] == old(self).delegation_map()[k]
                &&& a.path_pattern@ == path_pattern@
                &&& a.approved_for@ == approved_for@
                &&& a.valid_until == HLCTimestamp { physical: (now.physical + clamped(now.physical, valid_for@)) as u64, logical: 0 }
                &&& a.signature@ == Seq::<u8>::empty()
            }),
    {
        let now = self.tick();
        let d = clamp_duration(now.physical, valid_for);
        let valid_until = HLCTimestamp::new(now.physical + (d.as_millis() as u64), 0);
        let approval = DelegationApproval {
            path_pattern: path_pattern.clone(),
            approved_for,
            valid_until,
            signature: Vec::new(),
        };
        let _ = self.delegations.insert((from_cg, path_pattern), approval);
        proof {
            assert(self.delegations.map().dom() =~= old(self).delegations.map().dom().insert((from_cg@, path_pattern@)));
        }
    }

    /// Get copies of this node's leases that are not expired at the clock's
    /// current timestamp and expire within `within` of it (see `clamped`, so that
    /// the deadline fits in 64 bits), in iteration order.
    pub fn leases_needing_renewal(&mut self, within: Duration) -> (r: Vec<Lease>)
        requires
            old(self).wf(),
            old(self).ready(),
        ensures
            final(self).wf(),
            final(self).node_id_spec() == old(self).node_id_spec(),
            final(self).state_spec() == old(self).state_spec(),
            final(self).delegation_map() == old(self).delegation_map(),
            ({
                let now = final(self).now_spec();
                let deadline = HLCTimestamp { physical: (now.physical + clamped(now.physical, within@)) as u64, logical: 0 };
                &&& now.physical >= old(self).hlc_spec().last_physical_spec()
                &&& views(r@) == old(self).state_spec().view_order().filter(live_until(now, deadline)).filter(
                    |l: LeaseView| l.holder == old(self).node_id_spec(),
                )
            }),
    {
        let now = self.tick();
        let d = clamp_duration(now.physical, within);
        let soon = self.state.expiring_soon(now, d);
        let ghost src = crate::rhc::leases::state::ref_views(soon@);
        let ghost pred = |l: LeaseView| l.holder == self.node_id@;
        let mut result: Vec<Lease> = Vec::new();
        let mut i: usize = 0;
        while i < soon.len()
            invariant
                i <= soon@.len(),
                src == crate::rhc::leases::state::ref_views(soon@),
                pred == (|l: LeaseView| l.holder == self.node_id@),
                views(result@) == src.take(i as int).filter(pred),
            decreases soon@.len() - i,
        {
            let lease = soon[i];
            proof {
                assert(src.take(i + 1).drop_last() =~= src.take(i as int));
                assert(src[i as int] == lease@);
                reveal_with_fuel(Seq::<LeaseView>::filter, 1);
            }
            if lease.holder == self.node_id {
                let c = lease.clone();
                result.push(c);
                proof {
                    assert(views(result@) =~= views(result@.drop_last()).push(lease@));
                }
            }
            i = i + 1;
        }
        proof {
            assert(src.take(soon@.len() as int) =~= src);
        }
        result
    }

    /// Check if we hold a valid lease for writing to a path: the most
    /// specific active lease covering it at the clock's current timestamp
    /// is held by this node.
    pub fn can_write(&mut self, path: &FsPath) -> (r: bool)
        requires
            old(self).wf(),
            old(self).ready(),
        ensures
            final(self).wf(),
            final(self).node_id_spec() == old(self).node_id_spec(),
            final(self).state_spec() == old(self).state_spec(),
            final(self).delegation_map() == old(self).delegation_map(),
            ({
                let now = final(self).now_spec();
                let m = old(self).state_spec().view_map();
                &&& now.physical >= old(self).hlc_spec().last_physical_spec()
                &&& (r <==> (old(self).state_spec().chosen_for(path@, now) matches Some(k)
                    && m[k].holder == old(self).node_id_spec()))
                &&& (r ==> exists|k: u128| #[trigger] m.contains_key(k) && is_candidate(m[k], path@, now)
                    && m[k].holder == old(self).node_id_spec()
                    && forall|k2: u128| #[trigger] m.contains_key(k2) && is_candidate(m[k2], path@, now) ==> rank(m[k2]) <= rank(m[k]))
                &&& (!r ==> (forall|k: u128| #[trigger] m.contains_key(k) ==> !is_candidate(m[k], path@, now))
                    || exists|k: u128| #[trigger] m.contains_key(k) && is_candidate(m[k], path@, now)
                    && m[k].holder != old(self).node_id_spec()
                    && forall|k2: u128| #[trigger] m.contains_key(k2) && is_candidate(m[k2], path@, now) ==> rank(m[k2]) <= rank(m[k]))
            }),
    {
        let now = self.tick();
        let ghost lm = self.state.lease_map();
        let ghost m = self.state.view_map();
        match self.state.find_lease_for_path(path, now) {
            Some(lease) => {
                proof {
                    let k = choose|k: u128| #[trigger] lm.contains_key(k) && lm[k] == *lease;
                    assert(m.contains_key(k) && m[k] == lease@);
                    assert forall|k2: u128| #[trigger] m.contains_key(k2) && is_candidate(m[k2], path@, now)
                        implies rank(m[k2]) <= rank(m[k]) by {
                        assert(lm.contains_key(k2));
                    }
                }
                lease.holder == self.node_id && !lease.is_expired(now)
            },
            None => {
                proof {
                    assert forall|k: u128| #[trigger] m.contains_key(k) implies !is_candidate(m[k], path@, now) by {
                        assert(lm.contains_key(k));
                    }
                }
                false
            },
        }
    }

    /// Clean up expired leases and delegations: leases expired at the
    /// clock's current timestamp are removed, and so are approvals whose
    /// validity does not extend past it.
    pub fn cleanup(&mut self)
        requires
            old(self).wf(),
            old(self).ready(),
        ensures
            final(self).wf(),
            final(self).node_id_spec() == old(self).node_id_spec(),
            ({
                let now = final(self).now_spec();
                let before = old(self).state_spec().view_map();
                let after = final(self).state_spec().view_map();
                let da = final(self).delegation_map();
                let db = old(self).delegation_map();
                &&& now.physical >= old(self).hlc_spec().last_physical_spec()
                &&& forall|k: u128| #[trigger] after.contains_key(k) <==> before.contains_key(k) && !expired_at(before[k], now)
                &&& forall|k: u128| #[trigger] after.contains_key(k) ==> after[k] == before[k]
                &&& forall|k: (Seq<char>, Seq<char>)| #[trigger] da.contains_key(k) <==> db.contains_key(k) && now.precedes(db[k].valid_until)
                &&& forall|k: (Seq<char>, Seq<char>)| #[trigger] da.contains_key(k) ==> da[k] == db[k]
            }),
    {
        let now = self.tick();
        let _ = self.state.cleanup_expired(now);
        proof {
            let before = old(self).state.view_map();
            let after = self.state.view_map();
            assert forall|k: u128| #[trigger] after.contains_key(k) implies after[k] == before[k] by {
                assert(self.state.lease_map().contains_key(k));
            }
        }
        let mut rest: KeyedVec<(String, String), DelegationApproval> = KeyedVec::new();
        std::mem::swap(&mut rest, &mut self.delegations);
        let ghost old_order = rest.key_order();
        let ghost old_map = rest.map();
        let ghost st = self.state;
        let ghost nid = self.node_id;
        let ghost h = self.hlc;
        proof {
            rest.lemma_key_order();
            assert(old_order.skip(0) =~= old_order);
        }
        let n = rest.len();
        let mut j: usize = 0;
        while j < n
            invariant
                rest.wf(),
                self.delegations.wf(),
                self.state == st,
                self.node_id == nid,
                self.hlc == h,
                n == old_order.len(),
                j <= n,
                old_order.no_duplicates(),
                forall|k: (Seq<char>, Seq<char>)| #[trigger] old_map.contains_key(k) <==> old_order.contains(k),
                rest.key_order() == old_order.skip(j as int),
                forall|k: (Seq<char>, Seq<char>)| #[trigger] rest.map().contains_key(k) ==> old_map.contains_key(k) && rest.map()[k] == old_map[k],
                forall|k: (Seq<char>, Seq<char>)| #[trigger] self.delegations.map().contains_key(k) <==> (old_order.take(j as int).contains(k)
                    && now.precedes(old_map[k].valid_until)),
                forall|k: (Seq<char>, Seq<char>)| #[trigger] self.delegations.map().contains_key(k) ==> self.delegations.map()[k] == old_map[k],
            decreases n - j,
        {
            proof {
                rest.lemma_key_order();
                assert(rest.key_order()[0] == old_order[j as int]);
                assert(rest.key_order().contains(old_order[j as int]));
            }
            let (k, approval) = rest.remove_at(0);
            proof {
                assert(approval == old_map[k@]);
                assert(rest.key_order() =~= old_order.skip(j + 1));
                assert(!old_order.take(j as int).contains(k@)) by {
                    if old_order.take(j as int).contains(k@) {
                        let t = old_order.take(j as int);
                        let x = choose|x: int| 0 <= x < t.len() && #[trigger] t[x] == k@;
                        assert(old_order[x] == old_order[j as int]);
                    }
                }
                assert forall|x: (Seq<char>, Seq<char>)| #[trigger] old_order.take(j + 1).contains(x) <==> (old_order.take(
                    j as int,
                ).contains(x) || x == k@) by {
                    if old_order.take(j + 1).contains(x) {
                        let t = old_order.take(j + 1);
                        let y = choose|y: int| 0 <= y < t.len() && #[trigger] t[y] == x;
                        if y < j {
                            assert(old_order.take(j as int)[y] == x);
                        }
                    }
                    if old_order.take(j as int).contains(x) {
                        let t = old_order.take(j as int);
                        let y = choose|y: int| 0 <= y < t.len() && #[trigger] t[y] == x;
                        assert(old_order.take(j + 1)[y] == x);
                    }
                    if x == k@ {
                        assert(old_order.take(j + 1)[j as int] == x);
                    }
                }
            }
            if now.is_before(&approval.valid_until) {
                let _ = self.delegations.insert(k, approval);
            }
            j = j + 1;
        }
        proof {
            assert(old_order.take(n as int) =~= old_order);
        }
    }
}


/// A scope other than a non-recursive directory covers its own path.
proof fn lemma_covers_own_path(s: ScopeView)
    requires
        scope_path(s) is Some,
        !(s matches ScopeView::Directory(_, false)),
    ensures
        scope_covers(s, scope_path(s).unwrap()),
{
    if let ScopeView::Directory(d, true) = s {
        assert(d.take(d.len() as int) =~= d);
    }
}

/// Once a lease on a scope that covers its own path is in the lease map,
/// any request for the same scope conflicts with it until it expires.
pub proof fn lemma_granted_scope_conflicts(leases: Map<u128, LeaseView>, id: u128, now: HLCTimestamp)
    requires
        leases.contains_key(id),
        scope_path(leases[id].scope) is Some,
        !(leases[id].scope matches ScopeView::Directory(_, false)),
        !expired_at(leases[id], now),
    ensures
        conflicts(leases, leases[id].scope, now),
{
    let s = leases[id].scope;
    lemma_covers_own_path(s);
    assert(is_candidate(leases[id], scope_path(s).unwrap(), now));
}

/// A lease granted without conflict at `granted` on a scope that covers its
/// own path is, at any later `now` before it expires, a live lease on that
/// path, and every other holder's live lease on the path is less specific:
/// the holder may write there.
pub proof fn lemma_granted_scope_writable(
    before: Map<u128, LeaseView>,
    id: u128,
    lease: LeaseView,
    granted: HLCTimestamp,
    now: HLCTimestamp,
)
    requires
        !conflicts(before, lease.scope, granted),
        scope_path(lease.scope) is Some,
        !(lease.scope matches ScopeView::Directory(_, false)),
        granted.precedes_or_eq(now),
        !expired_at(lease, now),
    ensures
        ({
            let after = before.insert(id, lease);
            let p = scope_path(lease.scope).unwrap();
            &&& after.contains_key(id)
            &&& is_candidate(after[id], p, now)
            &&& forall|k: u128| #[trigger] after.contains_key(k) && is_candidate(after[k], p, now)
                && after[k].holder != lease.holder ==> rank(after[k]) < rank(lease)
        }),
{
    let after = before.insert(id, lease);
    let p = scope_path(lease.scope).unwrap();
    lemma_covers_own_path(lease.scope);
    assert forall|k: u128| #[trigger] after.contains_key(k) && is_candidate(after[k], p, now)
        && after[k].holder != lease.holder implies rank(after[k]) < rank(lease) by {
        assert(k != id);
        assert(before.contains_key(k) && before[k] == after[k]);
        assert(is_candidate(before[k], p, granted));
    }
}

} // verus!

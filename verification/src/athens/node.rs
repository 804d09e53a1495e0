//! Athens node - handles consensus for a single location.

use vstd::prelude::*;
use crate::athens::network::NetworkMessage;
use crate::keyed::KeyedVec;
use crate::path::FsPath;
use crate::rhc::hlc::{HLC, HLCTimestamp};
use crate::rhc::leases::lease::{Lease, LeaseId, LeaseScope, ScopeView};
use crate::rhc::leases::manager::{LeaseError, LeaseManager, clamped, conflicts, conflicting};
use crate::time::Duration;

verus! {

/// Storage class of a node
#[derive(Debug, Clone, Copy, PartialEq, Eq, Structural)]
pub enum StorageClass {
    NVMe,
    SSD,
    HDD,
    Hybrid,
}

impl StorageClass {
    /// The name of the storage class.
    pub open spec fn name(self) -> Seq<char> {
        match self {
            StorageClass::NVMe => "NVMe"@,
            StorageClass::SSD => "SSD"@,
            StorageClass::HDD => "HDD"@,
            StorageClass::Hybrid => "Hybrid"@,
        }
    }

    fn name_str(&self) -> (s: &'static str)
        ensures
            s@ == self.name(),
    {
        match self {
            StorageClass::NVMe => "NVMe",
            StorageClass::SSD => "SSD",
            StorageClass::HDD => "HDD",
            StorageClass::Hybrid => "Hybrid",
        }
    }
}

/// Configuration for an Athens node
#[derive(Debug)]
pub struct NodeConfig {
    /// Unique identifier for this node
    pub node_id: String,
    /// Geographic location (e.g., "perth", "london-main")
    pub location: String,
    /// Parent consensus group (if any)
    pub parent_cg: Option<String>,
    /// Storage class of this node
    pub storage_class: StorageClass,
}

impl Clone for NodeConfig {
    fn clone(&self) -> (c: Self)
        ensures
            c.node_id@ == self.node_id@,
            c.location@ == self.location@,
            c.parent_cg == self.parent_cg,
            c.storage_class == self.storage_class,
    {
        NodeConfig {
            node_id: self.node_id.clone(),
            location: self.location.clone(),
            parent_cg: match &self.parent_cg {
                Some(p) => Some(p.clone()),
                None => None,
            },
            storage_class: self.storage_class,
        }
    }
}

/// Length of a lease that a node requests, in milliseconds.
pub const NODE_LEASE_MS: u64 = 30_000;

/// The scope a node requests for `path`: the directory (recursive or not)
/// if the path is a directory, else the file.
pub open spec fn requested_scope(path: Seq<Seq<char>>, recursive: bool, is_dir: bool) -> ScopeView {
    if is_dir {
        ScopeView::Directory(path, recursive)
    } else {
        ScopeView::File(path)
    }
}

/// The text of a refused lease request.
pub open spec fn refusal_text(e: LeaseError) -> Seq<char> {
    "Failed to acquire lease: "@ + e.debug_text()
}

/// The text of a refused clock update.
pub open spec fn hlc_error_text(e: crate::rhc::hlc::HLCError) -> Seq<char> {
    "HLC error: "@ + e.debug_text()
}

/// The text describing a node.
pub open spec fn info_text(node_id: Seq<char>, location: Seq<char>, class: StorageClass) -> Seq<char> {
    "Athens Node: "@ + node_id + " @ "@ + location + " ("@ + class.name() + ")"@
}

/// An Athens consensus node
pub struct AthensNode {
    config: NodeConfig,
    /// Lease manager, holding the node's clock
    lease_manager: LeaseManager,
    /// Network latencies to other nodes (for simulation), by node ID
    latencies: KeyedVec<String, u64>,
}

impl AthensNode {
    /// The internal consistency of the node.
    pub closed spec fn wf(&self) -> bool {
        &&& self.lease_manager.wf()
        &&& self.latencies.wf()
        &&& self.lease_manager.node_id_spec() == self.config.node_id@
    }

    /// The node's identifier.
    pub closed spec fn node_id(&self) -> Seq<char> {
        self.config.node_id@
    }

    /// The node's configuration.
    pub closed spec fn config_spec(&self) -> NodeConfig {
        self.config
    }

    /// The node's lease manager.
    pub closed spec fn manager(&self) -> LeaseManager {
        self.lease_manager
    }

    /// The simulated latencies to other nodes.
    pub closed spec fn latency_map(&self) -> Map<Seq<char>, u64> {
        self.latencies.map()
    }

    /// Create a new Athens node with a fresh clock and no leases.
    pub fn new(config: NodeConfig) -> (n: Self)
        ensures
            n.wf(),
            n.config_spec() == config,
            n.manager().hlc_spec().last_physical_spec() == 0,
            n.manager().hlc_spec().last_logical_spec() == 0,
            n.manager().state_spec().lease_map() == Map::<u128, Lease>::empty(),
            n.latency_map() == Map::<Seq<char>, u64>::empty(),
    {
        let hlc = HLC::new();
        let lease_manager = LeaseManager::new(config.node_id.clone(), hlc);
        AthensNode { config, lease_manager, latencies: KeyedVec::new() }
    }

    /// Set simulated network latency to another node
    pub fn set_latency(&mut self, to_node: String, latency_ms: u64)
        requires
            old(self).wf(),
        ensures
            final(self).wf(),
            final(self).latency_map() == old(self).latency_map().insert(to_node@, latency_ms),
            final(self).manager() == old(self).manager(),
            final(self).config_spec() == old(self).config_spec(),
    {
        let _ = self.latencies.insert(to_node, latency_ms);
    }

    /// Get simulated network latency to another node (0 if unknown)
    pub fn get_latency(&self, to_node: &str) -> (r: u64)
        requires
            self.wf(),
        ensures
            self.latency_map().contains_key(to_node@) ==> r == self.latency_map()[to_node@],
            !self.latency_map().contains_key(to_node@) ==> r == 0,
    {
        let key = String::from_str(to_node);
        match self.latencies.get(&key) {
            Some(l) => *l,
            None => 0,
        }
    }

    /// Request a 30-second lease for `path`, as a directory lease when
    /// `is_dir`, else as a file lease.
    pub fn request_lease_as(&mut self, path: FsPath, recursive: bool, is_dir: bool) -> (r: Result<Lease, String>)
        requires
            old(self).wf(),
            old(self).manager().ready(),
        ensures
            final(self).wf(),
            final(self).config_spec() == old(self).config_spec(),
            final(self).latency_map() == old(self).latency_map(),
            ({
                let now = final(self).manager().now_spec();
                let scope = requested_scope(path@, recursive, is_dir);
                let st = old(self).manager().state_spec().view_map();
                &&& now.physical >= old(self).manager().hlc_spec().last_physical_spec()
                &&& (r is Err <==> conflicts(st, scope, now))
                &&& (r matches Err(msg) ==> exists|id: u128| conflicting(st, scope, now, id) && msg@ == refusal_text(
                    LeaseError::Conflict { existing: LeaseId(id) },
                ))
                &&& (r matches Err(_) ==> final(self).manager().state_spec().view_map() == st)
                &&& (r matches Ok(l) ==> {
                    &&& l@.scope == scope
                    &&& l@.holder == old(self).node_id()
                    &&& l@.granted_at == now
                    &&& l@.expires_at == HLCTimestamp { physical: (now.physical + clamped(now.physical, NODE_LEASE_MS as u128)) as u64, logical: 0 }
                    &&& l@.renewal_count == 0
                    &&& l@.parent_lease is None
                    &&& final(self).manager().state_spec().view_map() == st.insert(l.id.0, l@)
                })
            }),
    {
        let scope = if is_dir {
            LeaseScope::Directory { path, recursive }
        } else {
            LeaseScope::File(path)
        };
        match self.lease_manager.acquire_lease(scope, Duration::from_secs(30)) {
            Ok(lease) => Ok(lease),
            Err(e) => {
                let mut msg = String::new();
                msg.append("Failed to acquire lease: ");
                e.push_debug(&mut msg);
                Err(msg)
            },
        }
    }

    /// Check if we can write to a path: the most specific active lease
    /// covering it is held by this node.
    pub fn can_write(&mut self, path: &FsPath) -> (r: bool)
        requires
            old(self).wf(),
            old(self).manager().ready(),
        ensures
            final(self).wf(),
            final(self).config_spec() == old(self).config_spec(),
            final(self).latency_map() == old(self).latency_map(),
            final(self).manager().state_spec() == old(self).manager().state_spec(),
            ({
                let now = final(self).manager().now_spec();
                let m = old(self).manager().state_spec().view_map();
                &&& now.physical >= old(self).manager().hlc_spec().last_physical_spec()
                &&& (r <==> (old(self).manager().state_spec().chosen_for(path@, now) matches Some(k)
                    && m[k].holder == old(self).node_id()))
                &&& (r ==> exists|k: u128| #[trigger] m.contains_key(k) && crate::rhc::leases::state::is_candidate(m[k], path@, now)
                    && m[k].holder == old(self).node_id()
                    && forall|k2: u128| #[trigger] m.contains_key(k2) && crate::rhc::leases::state::is_candidate(m[k2], path@, now)
                        ==> crate::rhc::leases::state::rank(m[k2]) <= crate::rhc::leases::state::rank(m[k]))
                &&& (!r ==> (forall|k: u128| #[trigger] m.contains_key(k) ==> !crate::rhc::leases::state::is_candidate(m[k], path@, now))
                    || exists|k: u128| #[trigger] m.contains_key(k) && crate::rhc::leases::state::is_candidate(m[k], path@, now)
                    && m[k].holder != old(self).node_id()
                    && forall|k2: u128| #[trigger] m.contains_key(k2) && crate::rhc::leases::state::is_candidate(m[k2], path@, now)
                        ==> crate::rhc::leases::state::rank(m[k2]) <= crate::rhc::leases::state::rank(m[k]))
            }),
    {
        self.lease_manager.can_write(path)
    }

    /// Get current HLC timestamp
    pub fn now(&mut self) -> (ts: HLCTimestamp)
        requires
            old(self).wf(),
            old(self).manager().ready(),
        ensures
            final(self).wf(),
            final(self).config_spec() == old(self).config_spec(),
            final(self).latency_map() == old(self).latency_map(),
            final(self).manager().state_spec() == old(self).manager().state_spec(),
            final(self).manager().now_spec() == ts,
            ts.physical >= old(self).manager().hlc_spec().last_physical_spec(),
            old(self).manager().hlc_spec().last_logical_spec() < u32::MAX ==> old(self).manager().now_spec().precedes(ts),
    {
        self.lease_manager.clock().now()
    }

    /// The node's identifier.
    pub fn id(&self) -> (r: &String)
        ensures
            r@ == self.config_spec().node_id@,
    {
        &self.config.node_id
    }

    /// The logical counter of the node's clock.
    pub fn clock_counter(&self) -> (r: u64)
        requires
            self.wf(),
        ensures
            r == self.manager().hlc_spec().last_logical_spec(),
    {
        self.lease_manager.clock_counter()
    }

    /// Handles a message from another node: a lease request brings the
    /// node's clock up to the request's timestamp (refused if that is too
    /// far ahead, or if a logical counter it would increment is exhausted);
    /// a lease transfer changes nothing.
    pub fn apply_message(&mut self, msg: &NetworkMessage) -> (r: Result<(), String>)
        requires
            old(self).wf(),
        ensures
            final(self).wf(),
            final(self).config_spec() == old(self).config_spec(),
            final(self).latency_map() == old(self).latency_map(),
            final(self).manager().state_spec() == old(self).manager().state_spec(),
            msg is LeaseTransfer ==> r is Ok && final(self).manager() == old(self).manager(),
            msg matches NetworkMessage::LeaseRequest { timestamp, .. } ==> {
                &&& (r matches Err(text) ==> exists|e: crate::rhc::hlc::HLCError| text@ == hlc_error_text(e) && ((e matches crate::rhc::hlc::HLCError::ClockDriftExceeded { remote_physical, local_physical, max_drift }
                    && remote_physical == timestamp.physical && remote_physical > local_physical + max_drift)
                    || (e is LogicalCounterExhausted && (timestamp.logical == u32::MAX
                    || (old(self).manager().hlc_spec().last_logical_spec() as u32) == u32::MAX))))
                &&& (r is Err ==> final(self).manager().hlc_spec() == old(self).manager().hlc_spec())
                &&& (r is Ok ==> timestamp.precedes(final(self).manager().now_spec())
                    && final(self).manager().now_spec().physical >= old(self).manager().hlc_spec().last_physical_spec())
            },
    {
        match msg {
            NetworkMessage::LeaseRequest { path: _, timestamp } => {
                match self.lease_manager.clock().update(*timestamp) {
                    Ok(_) => Ok(()),
                    Err(e) => {
                        let mut text = String::new();
                        text.append("HLC error: ");
                        let d = e.debug_string();
                        text.append(d.as_str());
                        proof {
                            assert(text@ =~= hlc_error_text(e));
                        }
                        Err(text)
                    },
                }
            },
            NetworkMessage::LeaseTransfer { .. } => Ok(()),
        }
    }

    /// Get node info for debugging: `Athens Node: ID @ LOCATION (CLASS)`.
    pub fn info(&self) -> (s: String)
        ensures
            s@ == info_text(self.config_spec().node_id@, self.config_spec().location@, self.config_spec().storage_class),
    {
        let mut s = String::new();
        s.append("Athens Node: ");
        s.append(self.config.node_id.as_str());
        s.append(" @ ");
        s.append(self.config.location.as_str());
        s.append(" (");
        s.append(self.config.storage_class.name_str());
        s.append(")");
        s
    }
}

} // verus!

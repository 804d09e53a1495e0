//! Network simulation for Athens consensus.

use vstd::prelude::*;
use crate::keyed::KeyedVec;
use crate::path::FsPath;
use crate::rhc::hlc::HLCTimestamp;
use crate::rhc::leases::LeaseId;

verus! {

/// Messages that can be sent between Athens nodes
#[derive(Debug)]
pub enum NetworkMessage {
    /// Request a lease for a path
    LeaseRequest { path: FsPath, timestamp: HLCTimestamp },
    /// Transfer a lease to a new holder
    LeaseTransfer { lease_id: LeaseId, new_holder: String },
}

/// The latencies a simulator starts with, between named locations.
pub open spec fn base_latencies() -> Map<(Seq<char>, Seq<char>), u64> {
    Map::<(Seq<char>, Seq<char>), u64>::empty()
        .insert(("perth"@, "london"@), 250)
        .insert(("london"@, "perth"@), 250)
        .insert(("london-main"@, "london-mini"@), 2)
        .insert(("london-mini"@, "london-main"@), 2)
        .insert(("london-main"@, "london-secondary"@), 5)
        .insert(("london-secondary"@, "london-main"@), 5)
        .insert(("london-mini"@, "london-secondary"@), 3)
        .insert(("london-secondary"@, "london-mini"@), 3)
        .insert(("perth"@, "perth"@), 0)
        .insert(("london-main"@, "london-main"@), 0)
}

/// The region of a location: every location starting with `london` is in
/// the `london` region, any other location is its own region.
pub open spec fn region(loc: Seq<char>) -> Seq<char> {
    if loc.len() >= 6 && loc.take(6) == "london"@ {
        "london"@
    } else {
        loc
    }
}

/// The simulated latency between two locations: none within a location,
/// a known latency in either direction, else 250ms across regions and 5ms
/// within one.
pub open spec fn latency_between(
    m: Map<(Seq<char>, Seq<char>), u64>,
    from: Seq<char>,
    to: Seq<char>,
) -> u64 {
    if from == to {
        0
    } else if m.contains_key((from, to)) {
        m[(from, to)]
    } else if m.contains_key((to, from)) {
        m[(to, from)]
    } else if region(from) != region(to) {
        250
    } else {
        5
    }
}

/// Whether `s` starts with `london`.
fn starts_with_london(s: &str) -> (r: bool)
    ensures
        r == (s@.len() >= 6 && s@.take(6) == "london"@),
{
    proof {
        reveal_strlit("london");
    }
    let n = s.unicode_len();
    if n < 6 {
        return false;
    }
    let prefix = s.substring_char(0, 6);
    let a = String::from_str(prefix);
    let b = String::from_str("london");
    proof {
        assert(s@.subrange(0, 6) =~= s@.take(6));
    }
    a == b
}

/// Simulates network conditions between nodes
pub struct LatencySimulator {
    /// Base latencies between locations
    location_latencies: KeyedVec<(String, String), u64>,
}

fn route(from: &str, to: &str) -> (k: (String, String))
    ensures
        k@ == (from@, to@),
{
    (String::from_str(from), String::from_str(to))
}

impl LatencySimulator {
    /// The known latencies between locations.
    pub closed spec fn latencies(&self) -> Map<(Seq<char>, Seq<char>), u64> {
        self.location_latencies.map()
    }

    /// The internal consistency of the simulator.
    pub closed spec fn wf(&self) -> bool {
        self.location_latencies.wf()
    }

    /// Create a realistic latency simulator: Perth-London ~250ms, between
    /// London sites 2-5ms, within a site 0ms.
    pub fn new() -> (s: Self)
        ensures
            s.wf(),
            s.latencies() == base_latencies(),
    {
        let mut m: KeyedVec<(String, String), u64> = KeyedVec::new();
        m.insert(route("perth", "london"), 250);
        m.insert(route("london", "perth"), 250);
        m.insert(route("london-main", "london-mini"), 2);
        m.insert(route("london-mini", "london-main"), 2);
        m.insert(route("london-main", "london-secondary"), 5);
        m.insert(route("london-secondary", "london-main"), 5);
        m.insert(route("london-mini", "london-secondary"), 3);
        m.insert(route("london-secondary", "london-mini"), 3);
        m.insert(route("perth", "perth"), 0);
        m.insert(route("london-main", "london-main"), 0);
        LatencySimulator { location_latencies: m }
    }

    /// Get latency between two locations
    pub fn get_latency(&self, from: &str, to: &str) -> (r: u64)
        requires
            self.wf(),
        ensures
            r == latency_between(self.latencies(), from@, to@),
    {
        let f = String::from_str(from);
        let t = String::from_str(to);
        if f == t {
            return 0;
        }
        let forward = route(from, to);
        if let Some(latency) = self.location_latencies.get(&forward) {
            return *latency;
        }
        let backward = route(to, from);
        if let Some(latency) = self.location_latencies.get(&backward) {
            return *latency;
        }
        let london = String::from_str("london");
        let from_region = if starts_with_london(from) {
            london.clone()
        } else {
            f
        };
        let to_region = if starts_with_london(to) {
            london
        } else {
            t
        };
        proof {
            reveal_strlit("london");
        }
        if from_region != to_region {
            250
        } else {
            5
        }
    }
}

/// Between two different locations with no known route in either
/// direction, a route across regions is simulated as a cross-region link
/// (250ms) and one within a region as a local link (5ms): so an unknown
/// route across regions is always slower than one within a region. A
/// known route gives its latency in both directions, and a location is 0ms
/// from itself.
pub proof fn lemma_unknown_routes_by_region(
    m: Map<(Seq<char>, Seq<char>), u64>,
    a: Seq<char>,
    b: Seq<char>,
    c: Seq<char>,
    d: Seq<char>,
)
    ensures
        latency_between(m, a, a) == 0,
        a != b && m.contains_key((a, b)) ==> latency_between(m, a, b) == m[(a, b)],
        a != b && !m.contains_key((a, b)) && m.contains_key((b, a)) ==> latency_between(m, a, b) == m[(b, a)],
        a != b && !m.contains_key((a, b)) && !m.contains_key((b, a)) ==> {
            &&& region(a) != region(b) ==> latency_between(m, a, b) == 250
            &&& region(a) == region(b) ==> latency_between(m, a, b) == 5
        },
        ({
            &&& a != b && !m.contains_key((a, b)) && !m.contains_key((b, a)) && region(a) != region(b)
            &&& c != d && !m.contains_key((c, d)) && !m.contains_key((d, c)) && region(c) == region(d)
        }) ==> latency_between(m, a, b) > latency_between(m, c, d),
{
}

} // verus!

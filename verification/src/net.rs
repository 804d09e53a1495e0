//! What the node does on the events of its peer-to-peer network: which
//! addresses it records, which peers it dials, when it bootstraps, and the
//! network status it shows. The network itself is driven by the caller,
//! which hands each event in and carries the actions out.

use vstd::prelude::*;
use crate::time::Duration;
use crate::text::{decimal, push_decimal};

verus! {

/// An event of the peer-to-peer network, peers and addresses by their text.
#[derive(Debug)]
pub enum NetEvent {
    /// The node listens on a new address
    NewListenAddr { address: String },
    /// A connection to a peer is up, at the peer's address
    ConnectionEstablished { peer: String, remote: String },
    /// A connection to a peer is down
    ConnectionClosed { peer: String, cause: String },
    /// A peer told what it runs, and the first address it listens on
    Identified { peer: String, protocol: String, listen_addr: Option<String> },
    /// A bootstrap query made progress
    BootstrapProgress { successes: u64, millis: u128 },
    /// A query for the closest peers found these
    ClosestPeers { peers: Vec<String> },
    /// A query for providers found these
    Providers { providers: Vec<String> },
    /// A query for providers found none, but these closest peers
    NoProviders { closest: Vec<String> },
    /// A relay event
    Relay { detail: String },
    /// A hole-punching event
    HolePunch { detail: String },
    /// A connection could not be made
    OutgoingError { peer: Option<String>, error: String },
    /// Any other event
    Other,
}

/// What the node does in answer to an event.
#[derive(Debug)]
pub enum NetAction {
    /// Record an address of a peer in the routing table
    AddAddress { peer: String, addr: String },
    /// Start a bootstrap of the routing table
    Bootstrap,
    /// Dial a peer
    Dial { peer: String },
}

/// The value of an action.
pub enum ActionView {
    AddAddress(Seq<char>, Seq<char>),
    Bootstrap,
    Dial(Seq<char>),
}

impl View for NetAction {
    type V = ActionView;

    open spec fn view(&self) -> ActionView {
        match self {
            NetAction::AddAddress { peer, addr } => ActionView::AddAddress(peer@, addr@),
            NetAction::Bootstrap => ActionView::Bootstrap,
            NetAction::Dial { peer } => ActionView::Dial(peer@),
        }
    }
}

/// The texts of some strings.
pub open spec fn texts(v: Seq<String>) -> Seq<Seq<char>> {
    v.map_values(|s: String| s@)
}

/// The peers among `peers` worth dialing, in order: neither the node itself
/// nor one it is connected to.
pub open spec fn dial_targets(peers: Seq<Seq<char>>, local: Seq<char>, connected: Seq<Seq<char>>) -> Seq<Seq<char>>
    decreases peers.len(),
{
    if peers.len() == 0 {
        Seq::empty()
    } else {
        let prev = dial_targets(peers.drop_last(), local, connected);
        let p = peers.last();
        if p != local && !connected.contains(p) {
            prev.push(p)
        } else {
            prev
        }
    }
}

/// The dial actions for `targets`.
pub open spec fn dials(targets: Seq<Seq<char>>) -> Seq<ActionView> {
    targets.map_values(|p: Seq<char>| ActionView::Dial(p))
}

/// The status text of a connection change: `Connected to` or
/// `Disconnected from`, `bootstrap peer ` for a bootstrap peer, then the
/// peer.
pub open spec fn peer_status(lead: Seq<char>, is_bootstrap: bool, peer: Seq<char>) -> Seq<char> {
    lead + (if is_bootstrap { "bootstrap peer "@ } else { Seq::<char>::empty() }) + peer
}

/// Whether `peer` is among the bootstrap peers, where they are known.
pub open spec fn is_bootstrap_peer(bootstrap_peers: Option<Seq<Seq<char>>>, peer: Seq<char>) -> bool {
    bootstrap_peers matches Some(ps) && ps.contains(peer)
}

/// Whether `s` is among `v`.
fn contains_text(v: &Vec<String>, s: &String) -> (r: bool)
    ensures
        r == texts(v@).contains(s@),
{
    let mut i: usize = 0;
    while i < v.len()
        invariant
            i <= v@.len(),
            forall|j: int| 0 <= j < i ==> v@[j]@ != s@,
        decreases v@.len() - i,
    {
        if v[i] == *s {
            proof {
                assert(texts(v@)[i as int] == s@);
            }
            return true;
        }
        i = i + 1;
    }
    proof {
        if texts(v@).contains(s@) {
            let j = choose|j: int| 0 <= j < texts(v@).len() && texts(v@)[j] == s@;
            assert(v@[j]@ == s@);
        }
    }
    false
}

/// The dial actions for the peers among `peers` worth dialing.
fn dial_actions(peers: &Vec<String>, local: &String, connected: &Vec<String>) -> (r: Vec<NetAction>)
    ensures
        r@.map_values(|a: NetAction| a@) == dials(dial_targets(texts(peers@), local@, texts(connected@))),
{
    let mut r: Vec<NetAction> = Vec::new();
    let mut i: usize = 0;
    while i < peers.len()
        invariant
            i <= peers@.len(),
            r@.map_values(|a: NetAction| a@) == dials(dial_targets(texts(peers@.take(i as int)), local@, texts(connected@))),
        decreases peers@.len() - i,
    {
        let ghost before = r@;
        proof {
            assert(texts(peers@.take(i + 1)).drop_last() =~= texts(peers@.take(i as int)));
            assert(texts(peers@.take(i + 1)).last() == peers@[i as int]@);
        }
        let p = &peers[i];
        if *p != *local && !contains_text(connected, p) {
            r.push(NetAction::Dial { peer: p.clone() });
            proof {
                assert(r@.map_values(|a: NetAction| a@) =~= before.map_values(|a: NetAction| a@).push(ActionView::Dial(p@)));
            }
        }
        proof {
            assert(r@.map_values(|a: NetAction| a@) =~= dials(dial_targets(texts(peers@.take(i + 1)), local@, texts(connected@))));
        }
        i = i + 1;
    }
    proof {
        assert(peers@.take(peers@.len() as int) =~= peers@);
    }
    r
}

/// The actions for an event, and the new network status (`None` leaves it
/// as it was). `bootstrap_peers` are the known bootstrap peers, `local` the
/// node itself, `connected` the peers it is connected to, and `has_swarm`
/// whether the network runs at all: without it, nothing is recorded or
/// dialed.
pub open spec fn event_outcome(
    bootstrap_peers: Option<Seq<Seq<char>>>,
    local: Seq<char>,
    connected: Seq<Seq<char>>,
    has_swarm: bool,
    event: NetEvent,
) -> (Seq<ActionView>, Option<Seq<char>>) {
    match event {
        NetEvent::NewListenAddr { address } => (Seq::empty(), Some("Listening on "@ + address@)),
        NetEvent::ConnectionEstablished { peer, remote } => {
            let b = is_bootstrap_peer(bootstrap_peers, peer@);
            let acts = if has_swarm {
                if b {
                    seq![ActionView::AddAddress(peer@, remote@), ActionView::Bootstrap]
                } else {
                    seq![ActionView::AddAddress(peer@, remote@)]
                }
            } else {
                Seq::empty()
            };
            (acts, Some(peer_status("Connected to "@, b, peer@)))
        },
        NetEvent::ConnectionClosed { peer, .. } => (
            Seq::empty(),
            Some(peer_status("Disconnected from "@, is_bootstrap_peer(bootstrap_peers, peer@), peer@)),
        ),
        NetEvent::Identified { peer, listen_addr, .. } => match listen_addr {
            Some(a) => if has_swarm {
                (seq![ActionView::AddAddress(peer@, a@)], None)
            } else {
                (Seq::empty(), None)
            },
            None => (Seq::empty(), None),
        },
        NetEvent::ClosestPeers { peers } => if has_swarm {
            (dials(dial_targets(texts(peers@), local, connected)), None)
        } else {
            (Seq::empty(), None)
        },
        NetEvent::Providers { providers } => if has_swarm {
            (dials(dial_targets(texts(providers@), local, connected)), None)
        } else {
            (Seq::empty(), None)
        },
        NetEvent::NoProviders { closest } => if has_swarm {
            (dials(dial_targets(texts(closest@), local, connected)), None)
        } else {
            (Seq::empty(), None)
        },
        _ => (Seq::empty(), None),
    }
}

/// The status text of a connection change.
fn status_text(lead: &str, is_bootstrap: bool, peer: &String) -> (s: String)
    ensures
        s@ == peer_status(lead@, is_bootstrap, peer@),
{
    let mut s = String::from_str(lead);
    if is_bootstrap {
        s.append("bootstrap peer ");
        proof {
            reveal_strlit("bootstrap peer ");
        }
    }
    s.append(peer.as_str());
    proof {
        reveal_strlit("bootstrap peer ");
        if !is_bootstrap {
            assert(s@ =~= peer_status(lead@, is_bootstrap, peer@));
        }
    }
    s
}

/// Whether `peer` is among the bootstrap peers, where they are known.
fn bootstrap_peer(bootstrap_peers: &Option<Vec<String>>, peer: &String) -> (r: bool)
    ensures
        r == is_bootstrap_peer(
            match bootstrap_peers {
                Some(ps) => Some(texts(ps@)),
                None => None,
            },
            peer@,
        ),
{
    match bootstrap_peers {
        Some(ps) => contains_text(ps, peer),
        None => false,
    }
}

/// The actions for a network event and the new network status; see
/// `event_outcome`.
pub fn handle_event(
    bootstrap_peers: &Option<Vec<String>>,
    local: &String,
    connected: &Vec<String>,
    has_swarm: bool,
    event: NetEvent,
) -> (r: (Vec<NetAction>, Option<String>))
    ensures
        ({
            let bp = match bootstrap_peers {
                Some(ps) => Some(texts(ps@)),
                None => None,
            };
            let (acts, status) = event_outcome(bp, local@, texts(connected@), has_swarm, event);
            &&& r.0@.map_values(|a: NetAction| a@) == acts
            &&& match r.1 {
                Some(s) => status == Some(s@),
                None => status is None,
            }
        }),
{
    let ghost ev = event;
    match event {
        NetEvent::NewListenAddr { address } => {
            let mut s = String::from_str("Listening on ");
            s.append(address.as_str());
            let acts: Vec<NetAction> = Vec::new();
            proof {
                reveal_strlit("Listening on ");
                assert(acts@.map_values(|a: NetAction| a@) =~= Seq::<ActionView>::empty());
            }
            (acts, Some(s))
        },
        NetEvent::ConnectionEstablished { peer, remote } => {
            let b = bootstrap_peer(bootstrap_peers, &peer);
            let status = status_text("Connected to ", b, &peer);
            let mut acts: Vec<NetAction> = Vec::new();
            if has_swarm {
                acts.push(NetAction::AddAddress { peer: peer.clone(), addr: remote.clone() });
                if b {
                    acts.push(NetAction::Bootstrap);
                }
            }
            proof {
                if has_swarm {
                    if b {
                        assert(acts@.map_values(|a: NetAction| a@) =~= seq![ActionView::AddAddress(peer@, remote@), ActionView::Bootstrap]);
                    } else {
                        assert(acts@.map_values(|a: NetAction| a@) =~= seq![ActionView::AddAddress(peer@, remote@)]);
                    }
                } else {
                    assert(acts@.map_values(|a: NetAction| a@) =~= Seq::<ActionView>::empty());
                }
            }
            (acts, Some(status))
        },
        NetEvent::ConnectionClosed { peer, .. } => {
            let b = bootstrap_peer(bootstrap_peers, &peer);
            let status = status_text("Disconnected from ", b, &peer);
            let acts: Vec<NetAction> = Vec::new();
            proof {
                assert(acts@.map_values(|a: NetAction| a@) =~= Seq::<ActionView>::empty());
            }
            (acts, Some(status))
        },
        NetEvent::Identified { peer, listen_addr, .. } => {
            let mut acts: Vec<NetAction> = Vec::new();
            if let Some(a) = listen_addr {
                if has_swarm {
                    acts.push(NetAction::AddAddress { peer: peer.clone(), addr: a.clone() });
                }
            }
            proof {
                assert(acts@.map_values(|a: NetAction| a@) =~= event_outcome(
                    match bootstrap_peers {
                        Some(ps) => Some(texts(ps@)),
                        None => None,
                    },
                    local@,
                    texts(connected@),
                    has_swarm,
                    ev,
                ).0);
            }
            (acts, None)
        },
        NetEvent::ClosestPeers { peers } => {
            let acts = if has_swarm {
                dial_actions(&peers, local, connected)
            } else {
                Vec::new()
            };
            proof {
                assert(acts@.map_values(|a: NetAction| a@) =~= event_outcome(
                    match bootstrap_peers {
                        Some(ps) => Some(texts(ps@)),
                        None => None,
                    },
                    local@,
                    texts(connected@),
                    has_swarm,
                    ev,
                ).0);
            }
            (acts, None)
        },
        NetEvent::Providers { providers } => {
            let acts = if has_swarm {
                dial_actions(&providers, local, connected)
            } else {
                Vec::new()
            };
            proof {
                assert(acts@.map_values(|a: NetAction| a@) =~= event_outcome(
                    match bootstrap_peers {
                        Some(ps) => Some(texts(ps@)),
                        None => None,
                    },
                    local@,
                    texts(connected@),
                    has_swarm,
                    ev,
                ).0);
            }
            (acts, None)
        },
        NetEvent::NoProviders { closest } => {
            let acts = if has_swarm {
                dial_actions(&closest, local, connected)
            } else {
                Vec::new()
            };
            proof {
                assert(acts@.map_values(|a: NetAction| a@) =~= event_outcome(
                    match bootstrap_peers {
                        Some(ps) => Some(texts(ps@)),
                        None => None,
                    },
                    local@,
                    texts(connected@),
                    has_swarm,
                    ev,
                ).0);
            }
            (acts, None)
        },
        _ => {
            let acts: Vec<NetAction> = Vec::new();
            proof {
                assert(acts@.map_values(|a: NetAction| a@) =~= Seq::<ActionView>::empty());
            }
            (acts, None)
        },
    }
}

/// The topic under which the members of a cluster announce and look for
/// each other: `lis-cluster:` and the cluster's name.
pub fn cluster_topic(cluster: &str) -> (t: String)
    ensures
        t@ == "lis-cluster:"@ + cluster@,
{
    let mut t = String::from_str("lis-cluster:");
    t.append(cluster);
    proof {
        reveal_strlit("lis-cluster:");
    }
    t
}

/// The configuration a new cluster starts with: its name, and a
/// replication factor of 2.
pub fn cluster_config_text(name: &str) -> (t: String)
    ensures
        t@ == "name = \""@ + name@ + "\"\nreplication = 2\n"@,
{
    let mut t = String::from_str("name = \"");
    t.append(name);
    t.append("\"\nreplication = 2\n");
    proof {
        reveal_strlit("name = \"");
        reveal_strlit("\"\nreplication = 2\n");
    }
    t
}


/// A wait for the network's bootstrap: whether a bootstrap of the routing
/// table has been started, and the peers connected so far, each once.
#[derive(Debug)]
pub struct BootstrapWait {
    pub attempted: bool,
    pub peers: Vec<String>,
}

/// What a round of the wait does first.
#[derive(Debug, Clone, Copy, PartialEq, Eq, Structural)]
pub enum RoundAction {
    /// The wait has lasted longer than its limit: it ends without bootstrap
    TimedOut,
    /// Start a bootstrap, then look at the network's next event
    StartBootstrap,
    /// Look at the network's next event
    Poll,
}

/// An event of the network during the wait.
#[derive(Debug)]
pub enum WaitEvent {
    /// A bootstrap query finished
    BootstrapDone,
    /// A connection to a peer is up
    Connected(String),
    /// Anything else
    Other,
}

/// What the wait does on an event.
#[derive(Debug, Clone, Copy, PartialEq, Eq, Structural)]
pub enum WaitAction {
    /// The bootstrap succeeded: the wait ends
    Succeeded,
    /// Start a bootstrap again, with the newly connected peer
    RetryBootstrap,
    /// Wait on
    Continue,
}

/// `s` holds no text twice.
pub open spec fn distinct_texts(s: Seq<Seq<char>>) -> bool {
    forall|i: int, j: int| 0 <= i < j < s.len() ==> s[i] != s[j]
}

impl BootstrapWait {
    /// The peers connected so far.
    pub open spec fn peer_set(&self) -> Set<Seq<char>> {
        texts(self.peers@).to_set()
    }

    /// The wait keeps each peer once.
    pub open spec fn wf(&self) -> bool {
        distinct_texts(texts(self.peers@))
    }

    /// A wait that has started nothing and seen no peer.
    pub fn new() -> (w: BootstrapWait)
        ensures
            w.wf(),
            !w.attempted,
            w.peer_set() == Set::<Seq<char>>::empty(),
    {
        let w = BootstrapWait { attempted: false, peers: Vec::new() };
        proof {
            assert(w.peer_set() =~= Set::<Seq<char>>::empty());
        }
        w
    }

    /// Counts `peer` as connected.
    fn add_peer(&mut self, peer: &String)
        requires
            old(self).wf(),
        ensures
            final(self).wf(),
            final(self).attempted == old(self).attempted,
            final(self).peer_set() == old(self).peer_set().insert(peer@),
    {
        if !contains_text(&self.peers, peer) {
            let ghost before = texts(self.peers@);
            self.peers.push(peer.clone());
            proof {
                assert(texts(self.peers@) =~= before.push(peer@));
                assert forall|x: Seq<char>| #[trigger] self.peer_set().contains(x) == old(self).peer_set().insert(peer@).contains(x) by {
                    if x == peer@ {
                        assert(texts(self.peers@)[before.len() as int] == x);
                    }
                    if before.contains(x) {
                        let j = choose|j: int| 0 <= j < before.len() && before[j] == x;
                        assert(texts(self.peers@)[j] == x);
                    }
                    if texts(self.peers@).contains(x) {
                        let j = choose|j: int| 0 <= j < texts(self.peers@).len() && texts(self.peers@)[j] == x;
                        if j < before.len() {
                            assert(before[j] == x);
                        }
                    }
                }
                assert(self.peer_set() =~= old(self).peer_set().insert(peer@));
            }
        } else {
            proof {
                assert(self.peer_set() =~= old(self).peer_set().insert(peer@));
            }
        }
    }

    /// A round of the wait, `elapsed` after it began, the network reporting
    /// `connected` as the peers connected now: past `timeout` the wait ends;
    /// else the peers are counted, and a bootstrap is started the first
    /// time there are any.
    pub fn round(&mut self, elapsed: Duration, timeout: Duration, connected: &Vec<String>) -> (r: RoundAction)
        requires
            old(self).wf(),
        ensures
            final(self).wf(),
            elapsed@ > timeout@ ==> r == RoundAction::TimedOut && final(self).peer_set() == old(self).peer_set()
                && final(self).attempted == old(self).attempted,
            elapsed@ <= timeout@ ==> {
                &&& final(self).peer_set() == old(self).peer_set() + texts(connected@).to_set()
                &&& if !old(self).attempted && !final(self).peer_set().is_empty() {
                    r == RoundAction::StartBootstrap && final(self).attempted
                } else {
                    r == RoundAction::Poll && final(self).attempted == old(self).attempted
                }
            },
    {
        if elapsed.as_millis() > timeout.as_millis() {
            return RoundAction::TimedOut;
        }
        let mut i: usize = 0;
        while i < connected.len()
            invariant
                self.wf(),
                i <= connected@.len(),
                self.attempted == old(self).attempted,
                self.peer_set() == old(self).peer_set() + texts(connected@.take(i as int)).to_set(),
            decreases connected@.len() - i,
        {
            self.add_peer(&connected[i]);
            proof {
                let a = texts(connected@.take(i as int));
                let b = texts(connected@.take(i + 1));
                let x = connected@[i as int]@;
                assert(b =~= a.push(x));
                assert forall|y: Seq<char>| #[trigger] b.to_set().contains(y) == a.to_set().insert(x).contains(y) by {
                    if a.contains(y) {
                        let j = choose|j: int| 0 <= j < a.len() && a[j] == y;
                        assert(b[j] == y);
                    }
                    if y == x {
                        assert(b[a.len() as int] == y);
                    }
                    if b.contains(y) {
                        let j = choose|j: int| 0 <= j < b.len() && b[j] == y;
                        if j < a.len() {
                            assert(a[j] == y);
                        }
                    }
                }
                assert(b.to_set() =~= a.to_set().insert(x));
                assert(self.peer_set() =~= old(self).peer_set() + b.to_set());
            }
            i = i + 1;
        }
        proof {
            assert(connected@.take(connected@.len() as int) =~= connected@);
        }
        if !self.attempted && self.peers.len() > 0 {
            proof {
                assert(self.peer_set().contains(texts(self.peers@)[0]));
            }
            self.attempted = true;
            return RoundAction::StartBootstrap;
        }
        proof {
            if self.peers@.len() == 0 {
                assert(self.peer_set() =~= Set::<Seq<char>>::empty());
            }
        }
        RoundAction::Poll
    }

    /// What the wait does on event `e`: a finished bootstrap ends it once
    /// some peer is connected; a new connection counts its peer, and starts
    /// a bootstrap again if one was started before.
    pub fn event(&mut self, e: WaitEvent) -> (r: WaitAction)
        requires
            old(self).wf(),
        ensures
            final(self).wf(),
            final(self).attempted == old(self).attempted,
            match e {
                WaitEvent::BootstrapDone => final(self).peer_set() == old(self).peer_set() && r == (if old(self).peer_set().is_empty() {
                    WaitAction::Continue
                } else {
                    WaitAction::Succeeded
                }),
                WaitEvent::Connected(p) => final(self).peer_set() == old(self).peer_set().insert(p@) && r == (if old(self).attempted {
                    WaitAction::RetryBootstrap
                } else {
                    WaitAction::Continue
                }),
                WaitEvent::Other => final(self).peer_set() == old(self).peer_set() && r == WaitAction::Continue,
            },
    {
        match e {
            WaitEvent::BootstrapDone => {
                if self.peers.len() > 0 {
                    proof {
                        assert(self.peer_set().contains(texts(self.peers@)[0]));
                    }
                    WaitAction::Succeeded
                } else {
                    proof {
                        assert(self.peer_set() =~= Set::<Seq<char>>::empty());
                    }
                    WaitAction::Continue
                }
            },
            WaitEvent::Connected(p) => {
                self.add_peer(&p);
                if self.attempted {
                    WaitAction::RetryBootstrap
                } else {
                    WaitAction::Continue
                }
            },
            WaitEvent::Other => WaitAction::Continue,
        }
    }
}


/// The number of one-second rounds that each wait of a join lasts at most.
pub const JOIN_ROUNDS: u32 = 30;

/// How far a join of a cluster has come.
#[derive(Debug, Clone, Copy, PartialEq, Eq, Structural)]
pub enum JoinPhase {
    /// Waiting for the bootstrap of the routing table
    Bootstrap,
    /// Waiting for a connection to the cluster's host
    Host,
    /// Connected to the host
    Joined,
    /// The host was not reached in time
    Failed,
}

/// The waits of a join: its phase and the rounds waited in it.
#[derive(Debug)]
pub struct JoinWait {
    pub phase: JoinPhase,
    pub rounds: u32,
}

/// What the end of a round without the awaited event asks for.
#[derive(Debug, Clone, Copy, PartialEq, Eq, Structural)]
pub struct RoundEnd {
    /// Report how many rounds have been waited
    pub report: bool,
    /// Ask the network again for the cluster's providers and the host's
    /// closest peers
    pub rediscover: bool,
}

impl JoinWait {
    /// A wait still running has rounds left.
    pub open spec fn wf(&self) -> bool {
        (self.phase == JoinPhase::Bootstrap || self.phase == JoinPhase::Host) ==> self.rounds < JOIN_ROUNDS
    }

    /// A join that waits for the bootstrap first.
    pub fn new() -> (w: JoinWait)
        ensures
            w.wf(),
            w.phase == JoinPhase::Bootstrap,
            w.rounds == 0,
    {
        JoinWait { phase: JoinPhase::Bootstrap, rounds: 0 }
    }

    /// What the join does on a network event, `host` being the host's
    /// peer: a finished bootstrap query ends the bootstrap wait; while the
    /// host is awaited, a connection to it ends the join (its address is
    /// recorded) and peers found by a query are dialed, but for the node
    /// itself and those connected already. Nothing else matters.
    pub fn on_event(&mut self, host: &String, local: &String, connected: &Vec<String>, event: NetEvent) -> (r: Vec<NetAction>)
        requires
            old(self).wf(),
        ensures
            final(self).wf(),
            old(self).phase == JoinPhase::Bootstrap ==> {
                &&& r@.len() == 0
                &&& if event is BootstrapProgress {
                    final(self).phase == JoinPhase::Host && final(self).rounds == 0
                } else {
                    *final(self) == *old(self)
                }
            },
            old(self).phase == JoinPhase::Host ==> match event {
                NetEvent::ConnectionEstablished { peer, remote } => if peer@ == host@ {
                    &&& final(self).phase == JoinPhase::Joined
                    &&& r@.map_values(|a: NetAction| a@) == seq![ActionView::AddAddress(host@, remote@)]
                } else {
                    *final(self) == *old(self) && r@.len() == 0
                },
                NetEvent::ClosestPeers { peers } => *final(self) == *old(self)
                    && r@.map_values(|a: NetAction| a@) == dials(dial_targets(texts(peers@), local@, texts(connected@))),
                NetEvent::Providers { providers } => *final(self) == *old(self)
                    && r@.map_values(|a: NetAction| a@) == dials(dial_targets(texts(providers@), local@, texts(connected@))),
                NetEvent::NoProviders { closest } => *final(self) == *old(self)
                    && r@.map_values(|a: NetAction| a@) == dials(dial_targets(texts(closest@), local@, texts(connected@))),
                _ => *final(self) == *old(self) && r@.len() == 0,
            },
            (old(self).phase == JoinPhase::Joined || old(self).phase == JoinPhase::Failed) ==> *final(self) == *old(self)
                && r@.len() == 0,
    {
        match self.phase {
            JoinPhase::Bootstrap => {
                if let NetEvent::BootstrapProgress { .. } = event {
                    self.phase = JoinPhase::Host;
                    self.rounds = 0;
                }
                Vec::new()
            },
            JoinPhase::Host => match event {
                NetEvent::ConnectionEstablished { peer, remote } => {
                    if peer == *host {
                        self.phase = JoinPhase::Joined;
                        let mut r: Vec<NetAction> = Vec::new();
                        r.push(NetAction::AddAddress { peer: host.clone(), addr: remote });
                        proof {
                            assert(r@.map_values(|a: NetAction| a@) =~= seq![ActionView::AddAddress(host@, remote@)]);
                        }
                        r
                    } else {
                        Vec::new()
                    }
                },
                NetEvent::ClosestPeers { peers } => dial_actions(&peers, local, connected),
                NetEvent::Providers { providers } => dial_actions(&providers, local, connected),
                NetEvent::NoProviders { closest } => dial_actions(&closest, local, connected),
                _ => Vec::new(),
            },
            _ => Vec::new(),
        }
    }

    /// The end of a round in which the awaited event did not come: one more
    /// round waited, reported every fifth round; while the host is awaited,
    /// every fifth round also asks the network again. After the last round,
    /// a bootstrap wait gives up and the host is awaited all the same; a
    /// host wait fails.
    pub fn end_round(&mut self) -> (r: RoundEnd)
        requires
            old(self).wf(),
            old(self).phase == JoinPhase::Bootstrap || old(self).phase == JoinPhase::Host,
        ensures
            final(self).wf(),
            ({
                let n = old(self).rounds + 1;
                &&& r.report == (n % 5 == 0)
                &&& r.rediscover == (old(self).phase == JoinPhase::Host && n % 5 == 0)
                &&& if n < JOIN_ROUNDS {
                    final(self).phase == old(self).phase && final(self).rounds == n
                } else if old(self).phase == JoinPhase::Bootstrap {
                    final(self).phase == JoinPhase::Host && final(self).rounds == 0
                } else {
                    final(self).phase == JoinPhase::Failed && final(self).rounds == n
                }
            }),
    {
        let n = self.rounds + 1;
        let report = n % 5 == 0;
        let host = self.phase == JoinPhase::Host;
        if n < JOIN_ROUNDS {
            self.rounds = n;
        } else if host {
            self.phase = JoinPhase::Failed;
            self.rounds = n;
        } else {
            self.phase = JoinPhase::Host;
            self.rounds = 0;
        }
        RoundEnd { report, rediscover: host && report }
    }
}

/// The port the node listens on and looks for other nodes on.
pub const DEFAULT_PORT: u16 = 34163;

/// A network interface of the machine: its IPv4 address, if it has one, and
/// whether it is the loopback interface.
#[derive(Debug, Clone, Copy)]
pub struct Interface {
    pub ipv4: Option<[u8; 4]>,
    pub is_loopback: bool,
}

/// The address text of TCP port `port` at IPv4 address `ip`:
/// `/ip4/a.b.c.d/tcp/port`.
pub open spec fn tcp_address_text(ip: Seq<u8>, port: u16) -> Seq<char> {
    "/ip4/"@ + decimal(ip[0] as nat) + "."@ + decimal(ip[1] as nat) + "."@ + decimal(ip[2] as nat) + "."@ + decimal(
        ip[3] as nat,
    ) + "/tcp/"@ + decimal(port as nat)
}

/// The addresses of port `port` on the interfaces that have an IPv4 address
/// and are not the loopback, in order.
pub open spec fn external_addresses(ifaces: Seq<Interface>, port: u16) -> Seq<Seq<char>>
    decreases ifaces.len(),
{
    if ifaces.len() == 0 {
        Seq::empty()
    } else {
        let prev = external_addresses(ifaces.drop_last(), port);
        let i = ifaces.last();
        if !i.is_loopback && i.ipv4 is Some {
            prev.push(tcp_address_text(i.ipv4.unwrap()@, port))
        } else {
            prev
        }
    }
}

/// The addresses a node joining a cluster tries for the cluster's host:
/// for the default port, then for port 0, the address on each outside
/// IPv4 interface, then the loopback address.
pub open spec fn host_addresses_spec(ifaces: Seq<Interface>) -> Seq<Seq<char>> {
    external_addresses(ifaces, DEFAULT_PORT) + seq![tcp_address_text(seq![127u8, 0u8, 0u8, 1u8], DEFAULT_PORT)]
        + external_addresses(ifaces, 0) + seq![tcp_address_text(seq![127u8, 0u8, 0u8, 1u8], 0)]
}

/// The address text of TCP port `port` at IPv4 address `ip`.
pub fn tcp_address(ip: [u8; 4], port: u16) -> (t: String)
    ensures
        t@ == tcp_address_text(ip@, port),
{
    let mut t = String::from_str("/ip4/");
    push_decimal(&mut t, ip[0] as u128);
    t.append(".");
    push_decimal(&mut t, ip[1] as u128);
    t.append(".");
    push_decimal(&mut t, ip[2] as u128);
    t.append(".");
    push_decimal(&mut t, ip[3] as u128);
    t.append("/tcp/");
    push_decimal(&mut t, port as u128);
    proof {
        reveal_strlit("/ip4/");
        reveal_strlit(".");
        reveal_strlit("/tcp/");
    }
    t
}

/// Appends the addresses of `port` on the outside IPv4 interfaces, then
/// the loopback address.
fn push_port_addresses(out: &mut Vec<String>, ifaces: &Vec<Interface>, port: u16)
    ensures
        texts(final(out)@) == texts(old(out)@) + external_addresses(ifaces@, port) + seq![
            tcp_address_text(seq![127u8, 0u8, 0u8, 1u8], port),
        ],
{
    let ghost start = texts(out@);
    let mut i: usize = 0;
    while i < ifaces.len()
        invariant
            i <= ifaces@.len(),
            texts(out@) == start + external_addresses(ifaces@.take(i as int), port),
        decreases ifaces@.len() - i,
    {
        let iface = ifaces[i];
        proof {
            assert(ifaces@.take(i + 1).drop_last() =~= ifaces@.take(i as int));
        }
        if !iface.is_loopback {
            if let Some(ip) = iface.ipv4 {
                let a = tcp_address(ip, port);
                let ghost before = texts(out@);
                out.push(a);
                proof {
                    assert(texts(out@) =~= before.push(a@));
                }
            }
        }
        i = i + 1;
    }
    proof {
        assert(ifaces@.take(ifaces@.len() as int) =~= ifaces@);
    }
    let lo = tcp_address([127u8, 0u8, 0u8, 1u8], port);
    let ghost before = texts(out@);
    out.push(lo);
    proof {
        assert([127u8, 0u8, 0u8, 1u8]@ =~= seq![127u8, 0u8, 0u8, 1u8]);
        assert(texts(out@) =~= before.push(lo@));
        assert(texts(out@) =~= start + external_addresses(ifaces@, port) + seq![tcp_address_text(seq![127u8, 0u8, 0u8, 1u8], port)]);
    }
}

/// The addresses a node joining a cluster dials the cluster's host at,
/// given the machine's interfaces: see `host_addresses_spec`.
pub fn host_addresses(ifaces: &Vec<Interface>) -> (r: Vec<String>)
    ensures
        texts(r@) == host_addresses_spec(ifaces@),
{
    let mut r: Vec<String> = Vec::new();
    proof {
        assert(texts(r@) =~= Seq::<Seq<char>>::empty());
    }
    push_port_addresses(&mut r, ifaces, DEFAULT_PORT);
    push_port_addresses(&mut r, ifaces, 0);
    proof {
        assert(texts(r@) =~= host_addresses_spec(ifaces@));
    }
    r
}

/// A known bootstrap node: its address, and the peer the address names, if
/// it names one.
#[derive(Debug)]
pub struct BootstrapNode {
    pub addr: String,
    pub peer: Option<String>,
}

/// What a hosting node does to stay visible.
#[derive(Debug, PartialEq, Eq)]
pub enum AnnounceAction {
    /// Look for the peers closest to a peer
    FindClosest(String),
    /// Announce the node as a provider of a topic
    Provide(String),
    /// Look for the providers of a topic
    FindProviders(String),
    /// Start a bootstrap of the routing table
    Bootstrap,
    /// Dial an address
    DialAddress(String),
}

/// The value of an announcement action.
pub enum AnnounceView {
    FindClosest(Seq<char>),
    Provide(Seq<char>),
    FindProviders(Seq<char>),
    Bootstrap,
    DialAddress(Seq<char>),
}

impl View for AnnounceAction {
    type V = AnnounceView;

    open spec fn view(&self) -> AnnounceView {
        match self {
            AnnounceAction::FindClosest(p) => AnnounceView::FindClosest(p@),
            AnnounceAction::Provide(t) => AnnounceView::Provide(t@),
            AnnounceAction::FindProviders(t) => AnnounceView::FindProviders(t@),
            AnnounceAction::Bootstrap => AnnounceView::Bootstrap,
            AnnounceAction::DialAddress(a) => AnnounceView::DialAddress(a@),
        }
    }
}

/// The views of some announcement actions.
pub open spec fn announce_views(v: Seq<AnnounceAction>) -> Seq<AnnounceView> {
    v.map_values(|a: AnnounceAction| a@)
}

/// A search for the closest peers of each of `peers`.
pub open spec fn find_closest_all(peers: Seq<Seq<char>>) -> Seq<AnnounceView> {
    peers.map_values(|p: Seq<char>| AnnounceView::FindClosest(p))
}

/// For each cluster in turn: announce the node as a provider of the
/// cluster's topic, look for the topic's providers, start a bootstrap, and
/// look for the peers closest to each connected peer.
pub open spec fn cluster_announcements(clusters: Seq<Seq<char>>, connected: Seq<Seq<char>>) -> Seq<AnnounceView>
    decreases clusters.len(),
{
    if clusters.len() == 0 {
        Seq::empty()
    } else {
        let topic = "lis-cluster:"@ + clusters.last();
        cluster_announcements(clusters.drop_last(), connected) + seq![
            AnnounceView::Provide(topic),
            AnnounceView::FindProviders(topic),
            AnnounceView::Bootstrap,
        ] + find_closest_all(connected)
    }
}

/// The values of some bootstrap nodes: address and peer.
pub open spec fn node_views(nodes: Seq<BootstrapNode>) -> Seq<(Seq<char>, Option<Seq<char>>)> {
    nodes.map_values(|n: BootstrapNode| (n.addr@, match n.peer { Some(p) => Some(p@), None => None }))
}

/// Dials of the bootstrap nodes that name a peer that is neither the node
/// itself nor connected, in order.
pub open spec fn bootstrap_dials(nodes: Seq<(Seq<char>, Option<Seq<char>>)>, local: Seq<char>, connected: Seq<Seq<char>>) -> Seq<AnnounceView>
    decreases nodes.len(),
{
    if nodes.len() == 0 {
        Seq::empty()
    } else {
        let prev = bootstrap_dials(nodes.drop_last(), local, connected);
        let (addr, peer) = nodes.last();
        if peer matches Some(p) && p != local && !connected.contains(p) {
            prev.push(AnnounceView::DialAddress(addr))
        } else {
            prev
        }
    }
}

/// What a hosting node does each time it announces itself: look for the
/// peers closest to each of the `watched` peers; the announcements of each
/// of its `clusters`; and dials of the bootstrap nodes it is not connected
/// to.
pub open spec fn announce_spec(
    watched: Seq<Seq<char>>,
    clusters: Seq<Seq<char>>,
    connected: Seq<Seq<char>>,
    nodes: Seq<(Seq<char>, Option<Seq<char>>)>,
    local: Seq<char>,
) -> Seq<AnnounceView> {
    find_closest_all(watched) + cluster_announcements(clusters, connected) + bootstrap_dials(nodes, local, connected)
}

/// Appends a search for the closest peers of each of `peers`.
fn push_find_closest(out: &mut Vec<AnnounceAction>, peers: &Vec<String>)
    ensures
        announce_views(final(out)@) == announce_views(old(out)@) + find_closest_all(texts(peers@)),
{
    let ghost start = announce_views(out@);
    let mut i: usize = 0;
    while i < peers.len()
        invariant
            i <= peers@.len(),
            announce_views(out@) == start + find_closest_all(texts(peers@.take(i as int))),
        decreases peers@.len() - i,
    {
        let ghost before = announce_views(out@);
        out.push(AnnounceAction::FindClosest(peers[i].clone()));
        proof {
            assert(announce_views(out@) =~= before.push(AnnounceView::FindClosest(peers@[i as int]@)));
            assert(find_closest_all(texts(peers@.take(i + 1))) =~= find_closest_all(texts(peers@.take(i as int))).push(
                AnnounceView::FindClosest(peers@[i as int]@),
            ));
        }
        i = i + 1;
    }
    proof {
        assert(peers@.take(peers@.len() as int) =~= peers@);
    }
}

/// What a hosting node does each time it announces itself: see
/// `announce_spec`.
pub fn announce_actions(
    watched: &Vec<String>,
    clusters: &Vec<String>,
    connected: &Vec<String>,
    nodes: &Vec<BootstrapNode>,
    local: &String,
) -> (r: Vec<AnnounceAction>)
    ensures
        announce_views(r@) == announce_spec(texts(watched@), texts(clusters@), texts(connected@), node_views(nodes@), local@),
{
    let mut r: Vec<AnnounceAction> = Vec::new();
    proof {
        assert(announce_views(r@) =~= Seq::<AnnounceView>::empty());
    }
    push_find_closest(&mut r, watched);
    let ghost after_tracked = announce_views(r@);
    let mut i: usize = 0;
    while i < clusters.len()
        invariant
            i <= clusters@.len(),
            announce_views(r@) == after_tracked + cluster_announcements(texts(clusters@.take(i as int)), texts(connected@)),
        decreases clusters@.len() - i,
    {
        let topic = cluster_topic(clusters[i].as_str());
        let ghost before = announce_views(r@);
        r.push(AnnounceAction::Provide(topic.clone()));
        r.push(AnnounceAction::FindProviders(topic));
        r.push(AnnounceAction::Bootstrap);
        proof {
            assert(texts(clusters@.take(i + 1)).drop_last() =~= texts(clusters@.take(i as int)));
            assert(texts(clusters@.take(i + 1)).last() == clusters@[i as int]@);
            assert(announce_views(r@) =~= before + seq![
                AnnounceView::Provide("lis-cluster:"@ + clusters@[i as int]@),
                AnnounceView::FindProviders("lis-cluster:"@ + clusters@[i as int]@),
                AnnounceView::Bootstrap,
            ]);
        }
        push_find_closest(&mut r, connected);
        proof {
            assert(announce_views(r@) =~= after_tracked + cluster_announcements(texts(clusters@.take(i + 1)), texts(connected@)));
        }
        i = i + 1;
    }
    proof {
        assert(clusters@.take(clusters@.len() as int) =~= clusters@);
    }
    let ghost after_clusters = announce_views(r@);
    let mut j: usize = 0;
    while j < nodes.len()
        invariant
            j <= nodes@.len(),
            announce_views(r@) == after_clusters + bootstrap_dials(node_views(nodes@.take(j as int)), local@, texts(connected@)),
        decreases nodes@.len() - j,
    {
        proof {
            assert(node_views(nodes@.take(j + 1)).drop_last() =~= node_views(nodes@.take(j as int)));
        }
        let node = &nodes[j];
        if let Some(peer) = &node.peer {
            if *peer != *local && !contains_text(connected, peer) {
                let ghost before = announce_views(r@);
                r.push(AnnounceAction::DialAddress(node.addr.clone()));
                proof {
                    assert(announce_views(r@) =~= before.push(AnnounceView::DialAddress(nodes@[j as int].addr@)));
                }
            }
        }
        j = j + 1;
    }
    proof {
        assert(nodes@.take(nodes@.len() as int) =~= nodes@);
    }
    r
}

/// A part of a peer-to-peer network address, as the address's text names
/// it (`/ip4/1.2.3.4`, `/dns/host`, `/dnsaddr/host`, `/tcp/4001`,
/// `/udp/4001`, `/quic-v1`, `/p2p/<peer>`); `Other` stands for any other
/// part.
#[derive(Debug, PartialEq, Eq)]
pub enum AddrPart {
    Ip4([u8; 4]),
    Ip6([u16; 8]),
    Dns(String),
    Dnsaddr(String),
    Tcp(u16),
    Udp(u16),
    QuicV1,
    P2p(String),
    Other,
}

/// The value of an address part.
pub enum PartView {
    Ip4(Seq<u8>),
    Ip6(Seq<u16>),
    Dns(Seq<char>),
    Dnsaddr(Seq<char>),
    Tcp(u16),
    Udp(u16),
    QuicV1,
    P2p(Seq<char>),
    Other,
}

impl View for AddrPart {
    type V = PartView;

    open spec fn view(&self) -> PartView {
        match self {
            AddrPart::Ip4(a) => PartView::Ip4(a@),
            AddrPart::Ip6(a) => PartView::Ip6(a@),
            AddrPart::Dns(h) => PartView::Dns(h@),
            AddrPart::Dnsaddr(h) => PartView::Dnsaddr(h@),
            AddrPart::Tcp(p) => PartView::Tcp(*p),
            AddrPart::Udp(p) => PartView::Udp(*p),
            AddrPart::QuicV1 => PartView::QuicV1,
            AddrPart::P2p(id) => PartView::P2p(id@),
            AddrPart::Other => PartView::Other,
        }
    }
}

/// The values of the parts of an address.
pub open spec fn part_views(a: Seq<AddrPart>) -> Seq<PartView> {
    a.map_values(|p: AddrPart| p@)
}

/// The peer an address names: its first `/p2p` part.
pub open spec fn first_peer(parts: Seq<PartView>) -> Option<Seq<char>>
    decreases parts.len(),
{
    if parts.len() == 0 {
        None
    } else {
        match parts[0] {
            PartView::P2p(id) => Some(id),
            _ => first_peer(parts.skip(1)),
        }
    }
}

/// The base of an address: its IP, host and TCP parts, a `/dnsaddr` host
/// kept as a `/dns` one.
pub open spec fn base_parts(parts: Seq<PartView>) -> Seq<PartView>
    decreases parts.len(),
{
    if parts.len() == 0 {
        Seq::empty()
    } else {
        let prev = base_parts(parts.drop_last());
        match parts.last() {
            PartView::Ip4(a) => prev.push(PartView::Ip4(a)),
            PartView::Ip6(a) => prev.push(PartView::Ip6(a)),
            PartView::Dns(h) => prev.push(PartView::Dns(h)),
            PartView::Dnsaddr(h) => prev.push(PartView::Dns(h)),
            PartView::Tcp(p) => prev.push(PartView::Tcp(p)),
            _ => prev,
        }
    }
}

/// Whether an address has a TCP part.
pub open spec fn has_tcp(parts: Seq<PartView>) -> bool {
    exists|i: int| 0 <= i < parts.len() && #[trigger] parts[i] is Tcp
}

/// Whether an address has a QUIC part.
pub open spec fn has_quic(parts: Seq<PartView>) -> bool {
    exists|i: int| 0 <= i < parts.len() && #[trigger] parts[i] is QuicV1
}

/// Whether an address has a host-name part.
pub open spec fn has_host(parts: Seq<PartView>) -> bool {
    exists|i: int| 0 <= i < parts.len() && (#[trigger] parts[i] is Dns || parts[i] is Dnsaddr)
}

/// The addresses a node dials a bootstrap node at, given the parts of the
/// node's address and the peer it names: the address itself where its
/// base names a host, else the base with TCP port 4001 and the peer; the
/// address itself again where it has a TCP port; and where it speaks QUIC,
/// the base with UDP port 4001, QUIC and the peer.
pub open spec fn dial_addresses_spec(parts: Seq<PartView>, peer: Seq<char>) -> Seq<Seq<PartView>> {
    let base = base_parts(parts);
    let first = if has_host(base) {
        parts
    } else {
        base + seq![PartView::Tcp(4001), PartView::P2p(peer)]
    };
    seq![first] + (if has_tcp(parts) {
        seq![parts]
    } else {
        Seq::empty()
    }) + (if has_quic(parts) {
        seq![base + seq![PartView::Udp(4001), PartView::QuicV1, PartView::P2p(peer)]]
    } else {
        Seq::empty()
    })
}

/// The values of some addresses.
pub open spec fn addr_views(v: Seq<Vec<AddrPart>>) -> Seq<Seq<PartView>> {
    v.map_values(|a: Vec<AddrPart>| part_views(a@))
}

/// A copy of an address part.
fn copy_part(p: &AddrPart) -> (q: AddrPart)
    ensures
        q@ == p@,
{
    match p {
        AddrPart::Ip4(a) => AddrPart::Ip4(*a),
        AddrPart::Ip6(a) => AddrPart::Ip6(*a),
        AddrPart::Dns(h) => AddrPart::Dns(h.clone()),
        AddrPart::Dnsaddr(h) => AddrPart::Dnsaddr(h.clone()),
        AddrPart::Tcp(port) => AddrPart::Tcp(*port),
        AddrPart::Udp(port) => AddrPart::Udp(*port),
        AddrPart::QuicV1 => AddrPart::QuicV1,
        AddrPart::P2p(id) => AddrPart::P2p(id.clone()),
        AddrPart::Other => AddrPart::Other,
    }
}

/// A copy of an address.
fn copy_addr(a: &Vec<AddrPart>) -> (b: Vec<AddrPart>)
    ensures
        part_views(b@) == part_views(a@),
{
    let mut b: Vec<AddrPart> = Vec::new();
    let mut i: usize = 0;
    while i < a.len()
        invariant
            i <= a@.len(),
            part_views(b@) == part_views(a@.take(i as int)),
        decreases a@.len() - i,
    {
        let ghost before = part_views(b@);
        b.push(copy_part(&a[i]));
        proof {
            assert(part_views(b@) =~= before.push(a@[i as int]@));
            assert(part_views(a@.take(i + 1)) =~= part_views(a@.take(i as int)).push(a@[i as int]@));
        }
        i = i + 1;
    }
    proof {
        assert(a@.take(a@.len() as int) =~= a@);
    }
    b
}

proof fn lemma_first_peer_skip(parts: Seq<PartView>, i: int)
    requires
        0 <= i < parts.len(),
        !(parts[i] is P2p),
    ensures
        first_peer(parts.skip(i)) == first_peer(parts.skip(i + 1)),
{
    assert(parts.skip(i)[0] == parts[i]);
    assert(parts.skip(i).skip(1) =~= parts.skip(i + 1));
}

/// The peer a bootstrap node's address names, and the addresses to dial it
/// at (see `dial_addresses_spec`); nothing for an address that names no
/// peer.
pub fn bootstrap_dial_addresses(parts: &Vec<AddrPart>) -> (r: Option<(String, Vec<Vec<AddrPart>>)>)
    ensures
        match first_peer(part_views(parts@)) {
            None => r is None,
            Some(peer) => r matches Some((p, addrs)) && p@ == peer && addr_views(addrs@) == dial_addresses_spec(part_views(parts@), peer),
        },
{
    let ghost pv = part_views(parts@);
    // The peer: the first `/p2p` part.
    let mut peer: Option<String> = None;
    let mut i: usize = 0;
    proof {
        assert(pv.skip(0) =~= pv);
    }
    while i < parts.len()
        invariant
            i <= parts@.len(),
            pv == part_views(parts@),
            peer is None ==> first_peer(pv) == first_peer(pv.skip(i as int)),
            peer matches Some(p) ==> first_peer(pv) == Some(p@),
        decreases parts@.len() - i,
    {
        if peer.is_none() {
            match &parts[i] {
                AddrPart::P2p(id) => {
                    proof {
                        assert(pv.skip(i as int)[0] == pv[i as int]);
                    }
                    peer = Some(id.clone());
                },
                _ => {
                    proof {
                        lemma_first_peer_skip(pv, i as int);
                    }
                },
            }
        }
        i = i + 1;
    }
    let peer = match peer {
        Some(p) => p,
        None => {
            proof {
                assert(pv.skip(parts@.len() as int) =~= Seq::<PartView>::empty());
            }
            return None;
        },
    };
    // The base, and whether there are TCP and QUIC parts.
    let mut base: Vec<AddrPart> = Vec::new();
    let mut tcp = false;
    let mut quic = false;
    let mut j: usize = 0;
    while j < parts.len()
        invariant
            j <= parts@.len(),
            pv == part_views(parts@),
            part_views(base@) == base_parts(pv.take(j as int)),
            tcp == has_tcp(pv.take(j as int)),
            quic == has_quic(pv.take(j as int)),
        decreases parts@.len() - j,
    {
        let ghost prev = pv.take(j as int);
        let ghost next = pv.take(j + 1);
        proof {
            assert(next.drop_last() =~= prev);
            assert(next.last() == parts@[j as int]@);
            assert(has_tcp(next) == (has_tcp(prev) || next.last() is Tcp)) by {
                if has_tcp(prev) {
                    let k = choose|k: int| 0 <= k < prev.len() && prev[k] is Tcp;
                    assert(next[k] == prev[k]);
                }
                if next.last() is Tcp {
                    assert(next[next.len() - 1] is Tcp);
                }
                if has_tcp(next) {
                    let k = choose|k: int| 0 <= k < next.len() && next[k] is Tcp;
                    if k < prev.len() {
                        assert(prev[k] == next[k]);
                    }
                }
            }
            assert(has_quic(next) == (has_quic(prev) || next.last() is QuicV1)) by {
                if has_quic(prev) {
                    let k = choose|k: int| 0 <= k < prev.len() && prev[k] is QuicV1;
                    assert(next[k] == prev[k]);
                }
                if next.last() is QuicV1 {
                    assert(next[next.len() - 1] is QuicV1);
                }
                if has_quic(next) {
                    let k = choose|k: int| 0 <= k < next.len() && next[k] is QuicV1;
                    if k < prev.len() {
                        assert(prev[k] == next[k]);
                    }
                }
            }
        }
        let ghost before = part_views(base@);
        match &parts[j] {
            AddrPart::Ip4(a) => {
                base.push(AddrPart::Ip4(*a));
            },
            AddrPart::Ip6(a) => {
                base.push(AddrPart::Ip6(*a));
            },
            AddrPart::Dns(h) => {
                base.push(AddrPart::Dns(h.clone()));
            },
            AddrPart::Dnsaddr(h) => {
                base.push(AddrPart::Dns(h.clone()));
            },
            AddrPart::Tcp(port) => {
                tcp = true;
                base.push(AddrPart::Tcp(*port));
            },
            AddrPart::QuicV1 => {
                quic = true;
            },
            _ => {},
        }
        proof {
            if part_views(base@).len() > before.len() {
                assert(part_views(base@) =~= before.push(part_views(base@).last()));
            } else {
                assert(part_views(base@) =~= before);
            }
        }
        j = j + 1;
    }
    proof {
        assert(pv.take(parts@.len() as int) =~= pv);
    }
    // Whether the base names a host.
    let mut dns = false;
    let mut k: usize = 0;
    while k < base.len()
        invariant
            k <= base@.len(),
            dns == has_host(part_views(base@).take(k as int)),
        decreases base@.len() - k,
    {
        let ghost bv = part_views(base@);
        proof {
            let prev = bv.take(k as int);
            let next = bv.take(k + 1);
            assert(next[k as int] == base@[k as int]@);
            if has_host(prev) {
                let m = choose|m: int| 0 <= m < prev.len() && (prev[m] is Dns || prev[m] is Dnsaddr);
                assert(next[m] == prev[m]);
            }
            if has_host(next) {
                let m = choose|m: int| 0 <= m < next.len() && (next[m] is Dns || next[m] is Dnsaddr);
                if m < prev.len() {
                    assert(prev[m] == next[m]);
                }
            }
            if base@[k as int]@ is Dns || base@[k as int]@ is Dnsaddr {
                assert(next[k as int] is Dns || next[k as int] is Dnsaddr);
            }
        }
        match &base[k] {
            AddrPart::Dns(_) | AddrPart::Dnsaddr(_) => {
                dns = true;
            },
            _ => {},
        }
        k = k + 1;
    }
    proof {
        assert(part_views(base@).take(base@.len() as int) =~= part_views(base@));
    }
    let mut addrs: Vec<Vec<AddrPart>> = Vec::new();
    let ghost peer_v = peer@;
    if dns {
        addrs.push(copy_addr(parts));
    } else {
        let mut a = copy_addr(&base);
        let ghost bv = part_views(a@);
        a.push(AddrPart::Tcp(4001));
        a.push(AddrPart::P2p(peer.clone()));
        proof {
            assert(part_views(a@) =~= bv + seq![PartView::Tcp(4001), PartView::P2p(peer_v)]);
        }
        addrs.push(a);
    }
    if tcp {
        addrs.push(copy_addr(parts));
    }
    if quic {
        let mut a = copy_addr(&base);
        let ghost bv = part_views(a@);
        a.push(AddrPart::Udp(4001));
        a.push(AddrPart::QuicV1);
        a.push(AddrPart::P2p(peer.clone()));
        proof {
            assert(part_views(a@) =~= bv + seq![PartView::Udp(4001), PartView::QuicV1, PartView::P2p(peer_v)]);
        }
        addrs.push(a);
    }
    proof {
        assert(addr_views(addrs@) =~= dial_addresses_spec(pv, peer_v));
    }
    Some((peer, addrs))
}
} // verus!

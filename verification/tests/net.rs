use lis::time::Duration;
use lis::net::{bootstrap_dial_addresses, AddrPart, announce_actions, AnnounceAction, BootstrapNode, host_addresses, tcp_address, Interface, BootstrapWait, RoundAction, WaitAction, WaitEvent, handle_event, NetAction, NetEvent, JoinPhase, JoinWait, JOIN_ROUNDS};

fn s(x: &str) -> String {
    x.to_string()
}

#[test]
fn net_listen_and_connect() {
    let boot = Some(vec![s("B")]);
    let (acts, status) = handle_event(&boot, &s("L"), &vec![], true, NetEvent::NewListenAddr { address: s("/ip4/1.2.3.4/tcp/1") });
    assert!(acts.is_empty());
    assert_eq!(status, Some(s("Listening on /ip4/1.2.3.4/tcp/1")));

    let (acts, status) =
        handle_event(&boot, &s("L"), &vec![], true, NetEvent::ConnectionEstablished { peer: s("B"), remote: s("/ip4/9.9.9.9/tcp/2") });
    assert_eq!(acts.len(), 2);
    assert!(matches!(&acts[0], NetAction::AddAddress { peer, addr } if peer == "B" && addr == "/ip4/9.9.9.9/tcp/2"));
    assert!(matches!(&acts[1], NetAction::Bootstrap));
    assert_eq!(status, Some(s("Connected to bootstrap peer B")));

    let (acts, status) = handle_event(&boot, &s("L"), &vec![], true, NetEvent::ConnectionEstablished { peer: s("P"), remote: s("a") });
    assert_eq!(acts.len(), 1);
    assert_eq!(status, Some(s("Connected to P")));

    let (acts, status) = handle_event(&None, &s("L"), &vec![], false, NetEvent::ConnectionEstablished { peer: s("P"), remote: s("a") });
    assert!(acts.is_empty());
    assert_eq!(status, Some(s("Connected to P")));

    let (_, status) = handle_event(&boot, &s("L"), &vec![], true, NetEvent::ConnectionClosed { peer: s("B"), cause: s("eof") });
    assert_eq!(status, Some(s("Disconnected from bootstrap peer B")));
}

#[test]
fn net_dials_unknown_peers() {
    let connected = vec![s("C")];
    let (acts, status) =
        handle_event(&None, &s("L"), &connected, true, NetEvent::ClosestPeers { peers: vec![s("L"), s("X"), s("C"), s("Y")] });
    assert_eq!(status, None);
    let dialed: Vec<String> = acts
        .iter()
        .map(|a| match a {
            NetAction::Dial { peer } => peer.clone(),
            _ => panic!("only dials expected"),
        })
        .collect();
    assert_eq!(dialed, vec![s("X"), s("Y")]);
    let (acts, _) = handle_event(&None, &s("L"), &connected, true, NetEvent::Providers { providers: vec![s("C")] });
    assert!(acts.is_empty());
    let (acts, _) = handle_event(&None, &s("L"), &connected, true, NetEvent::NoProviders { closest: vec![s("Z")] });
    assert_eq!(acts.len(), 1);
    let (acts, _) = handle_event(&None, &s("L"), &connected, false, NetEvent::NoProviders { closest: vec![s("Z")] });
    assert!(acts.is_empty());
    let (acts, _) =
        handle_event(&None, &s("L"), &connected, true, NetEvent::Identified { peer: s("Q"), protocol: s("p"), listen_addr: Some(s("addr")) });
    assert_eq!(acts.len(), 1);
    let (acts, status) = handle_event(&None, &s("L"), &connected, true, NetEvent::Other);
    assert!(acts.is_empty() && status.is_none());
}

#[test]
fn net_cluster_texts() {
    assert_eq!(lis::net::cluster_topic("alpha"), "lis-cluster:alpha");
    assert_eq!(lis::net::cluster_config_text("alpha"), "name = \"alpha\"\nreplication = 2\n");
}

#[test]
fn bootstrap_wait_starts_once_peers_connect() {
    let mut w = BootstrapWait::new();
    let none: Vec<String> = vec![];
    assert_eq!(w.round(Duration::from_millis(0), Duration::from_secs(5), &none), RoundAction::Poll);
    assert_eq!(w.event(WaitEvent::BootstrapDone), WaitAction::Continue);
    assert_eq!(w.event(WaitEvent::Connected("p1".to_string())), WaitAction::Continue);
    assert!(!w.attempted);
    let seen = vec!["p1".to_string(), "p2".to_string(), "p1".to_string()];
    assert_eq!(w.round(Duration::from_millis(100), Duration::from_secs(5), &seen), RoundAction::StartBootstrap);
    assert!(w.attempted);
    assert_eq!(w.peers, vec!["p1".to_string(), "p2".to_string()]);
    assert_eq!(w.round(Duration::from_millis(200), Duration::from_secs(5), &seen), RoundAction::Poll);
    assert_eq!(w.event(WaitEvent::Connected("p3".to_string())), WaitAction::RetryBootstrap);
    assert_eq!(w.peers.len(), 3);
    assert_eq!(w.event(WaitEvent::Other), WaitAction::Continue);
    assert_eq!(w.event(WaitEvent::BootstrapDone), WaitAction::Succeeded);
}

#[test]
fn bootstrap_wait_times_out() {
    let mut w = BootstrapWait::new();
    let seen = vec!["p1".to_string()];
    // Exactly at the limit the wait goes on.
    assert_eq!(w.round(Duration::from_secs(5), Duration::from_secs(5), &seen), RoundAction::StartBootstrap);
    assert_eq!(w.round(Duration::from_millis(5001), Duration::from_secs(5), &seen), RoundAction::TimedOut);
}

#[test]
fn host_addresses_cover_outside_interfaces_then_loopback() {
    assert_eq!(tcp_address([10, 0, 0, 255], 80), "/ip4/10.0.0.255/tcp/80");
    let ifaces = vec![
        Interface { ipv4: Some([127, 0, 0, 1]), is_loopback: true },
        Interface { ipv4: Some([192, 168, 1, 5]), is_loopback: false },
        Interface { ipv4: None, is_loopback: false },
    ];
    assert_eq!(
        host_addresses(&ifaces),
        vec![
            "/ip4/192.168.1.5/tcp/34163".to_string(),
            "/ip4/127.0.0.1/tcp/34163".to_string(),
            "/ip4/192.168.1.5/tcp/0".to_string(),
            "/ip4/127.0.0.1/tcp/0".to_string(),
        ]
    );
    assert_eq!(host_addresses(&vec![]), vec!["/ip4/127.0.0.1/tcp/34163".to_string(), "/ip4/127.0.0.1/tcp/0".to_string()]);
}

#[test]
fn announcements_of_a_hosting_node() {
    let watched = vec![s("w1")];
    let clusters = vec![s("alpha"), s("beta")];
    let connected = vec![s("c1"), s("b2")];
    let nodes = vec![
        BootstrapNode { addr: s("/dnsaddr/one"), peer: Some(s("b1")) },
        BootstrapNode { addr: s("/dnsaddr/two"), peer: Some(s("b2")) },
        BootstrapNode { addr: s("/dnsaddr/self"), peer: Some(s("me")) },
        BootstrapNode { addr: s("/dnsaddr/none"), peer: None },
    ];
    let r = announce_actions(&watched, &clusters, &connected, &nodes, &s("me"));
    assert_eq!(
        r,
        vec![
            AnnounceAction::FindClosest(s("w1")),
            AnnounceAction::Provide(s("lis-cluster:alpha")),
            AnnounceAction::FindProviders(s("lis-cluster:alpha")),
            AnnounceAction::Bootstrap,
            AnnounceAction::FindClosest(s("c1")),
            AnnounceAction::FindClosest(s("b2")),
            AnnounceAction::Provide(s("lis-cluster:beta")),
            AnnounceAction::FindProviders(s("lis-cluster:beta")),
            AnnounceAction::Bootstrap,
            AnnounceAction::FindClosest(s("c1")),
            AnnounceAction::FindClosest(s("b2")),
            AnnounceAction::DialAddress(s("/dnsaddr/one")),
        ]
    );
    assert_eq!(announce_actions(&vec![], &vec![], &vec![], &vec![], &s("me")), vec![]);
}

#[test]
fn bootstrap_dial_addresses_by_address_kind() {
    let ip = [104, 131, 131, 82];
    // A host name: the address itself.
    let r = bootstrap_dial_addresses(&vec![AddrPart::Dnsaddr(s("bootstrap.libp2p.io")), AddrPart::P2p(s("QmA"))]).unwrap();
    assert_eq!(r, (s("QmA"), vec![vec![AddrPart::Dnsaddr(s("bootstrap.libp2p.io")), AddrPart::P2p(s("QmA"))]]));
    // An IP address with a TCP port: the base with port 4001, then the address.
    let r = bootstrap_dial_addresses(&vec![AddrPart::Ip4(ip), AddrPart::Tcp(4001), AddrPart::P2p(s("QmB"))]).unwrap();
    assert_eq!(
        r.1,
        vec![vec![AddrPart::Ip4(ip), AddrPart::Tcp(4001), AddrPart::Tcp(4001), AddrPart::P2p(s("QmB"))], vec![AddrPart::Ip4(ip), AddrPart::Tcp(4001), AddrPart::P2p(s("QmB"))]]
    );
    // An older QUIC part counts for nothing.
    let r = bootstrap_dial_addresses(&vec![AddrPart::Ip4(ip), AddrPart::Udp(4001), AddrPart::Other, AddrPart::P2p(s("QmB"))]).unwrap();
    assert_eq!(r.1, vec![vec![AddrPart::Ip4(ip), AddrPart::Tcp(4001), AddrPart::P2p(s("QmB"))]]);
    // QUIC: the TCP address, then the QUIC one.
    let r = bootstrap_dial_addresses(&vec![AddrPart::Ip4(ip), AddrPart::Udp(4001), AddrPart::QuicV1, AddrPart::P2p(s("QmC"))]).unwrap();
    assert_eq!(
        r.1,
        vec![vec![AddrPart::Ip4(ip), AddrPart::Tcp(4001), AddrPart::P2p(s("QmC"))], vec![AddrPart::Ip4(ip), AddrPart::Udp(4001), AddrPart::QuicV1, AddrPart::P2p(s("QmC"))]]
    );
    // The first peer part names the peer.
    let r = bootstrap_dial_addresses(&vec![AddrPart::Dns(s("h")), AddrPart::P2p(s("one")), AddrPart::P2p(s("two"))]).unwrap();
    assert_eq!(r.0, s("one"));
    // No peer part: nothing to dial.
    assert_eq!(bootstrap_dial_addresses(&vec![AddrPart::Ip4(ip), AddrPart::Tcp(4001)]), None);
}

fn dial_peers(acts: &[NetAction]) -> Vec<String> {
    acts.iter()
        .map(|a| match a {
            NetAction::Dial { peer } => peer.clone(),
            _ => panic!("not a dial"),
        })
        .collect()
}

#[test]
fn join_wait_bootstrap_then_host() {
    let host = s("H");
    let local = s("L");
    let connected = vec![s("C")];
    let mut w = JoinWait::new();
    for _ in 0..4 {
        let r = w.end_round();
        assert!(!r.report && !r.rediscover);
    }
    let r = w.end_round();
    assert!(r.report && !r.rediscover);
    // Other events do not end the bootstrap wait.
    let acts = w.on_event(&host, &local, &connected, NetEvent::ClosestPeers { peers: vec![s("P")] });
    assert!(acts.is_empty());
    assert_eq!(w.phase, JoinPhase::Bootstrap);
    w.on_event(&host, &local, &connected, NetEvent::BootstrapProgress { successes: 3, millis: 10 });
    assert_eq!(w.phase, JoinPhase::Host);
    assert_eq!(w.rounds, 0);
    let acts = w.on_event(&host, &local, &connected, NetEvent::Providers { providers: vec![s("L"), s("P"), s("C"), s("Q")] });
    assert_eq!(dial_peers(&acts), vec![s("P"), s("Q")]);
    let acts = w.on_event(&host, &local, &connected, NetEvent::ConnectionEstablished { peer: s("P"), remote: s("/ip4/1.1.1.1/tcp/1") });
    assert!(acts.is_empty());
    assert_eq!(w.phase, JoinPhase::Host);
    let acts = w.on_event(&host, &local, &connected, NetEvent::ConnectionEstablished { peer: s("H"), remote: s("/ip4/2.2.2.2/tcp/2") });
    assert_eq!(w.phase, JoinPhase::Joined);
    match &acts[..] {
        [NetAction::AddAddress { peer, addr }] => {
            assert_eq!(peer, "H");
            assert_eq!(addr, "/ip4/2.2.2.2/tcp/2");
        }
        _ => panic!("expected one address"),
    }
}

#[test]
fn join_wait_gives_up() {
    let mut w = JoinWait::new();
    for _ in 0..JOIN_ROUNDS {
        w.end_round();
    }
    // The bootstrap wait gave up; the host is awaited all the same.
    assert_eq!(w.phase, JoinPhase::Host);
    assert_eq!(w.rounds, 0);
    let mut rediscovered = 0;
    for _ in 0..JOIN_ROUNDS {
        let r = w.end_round();
        if r.rediscover {
            rediscovered += 1;
        }
    }
    assert_eq!(rediscovered, 6);
    assert_eq!(w.phase, JoinPhase::Failed);
}

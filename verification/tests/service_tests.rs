use radicle_node::address::Book;
use radicle_node::clock::Clock;
use radicle_node::ids::{HostAddr, NodeId, ResourceId, Signature};
use radicle_node::routing::Table;
use radicle_node::service::{
    rng_with_seed, Action, Command, Config, DisconnectReason, Event, Network, Phase, QueryReply,
    Service, SessionState,
};
use radicle_node::wire::Message;

fn node(config: Config, key: u64) -> Service {
    let mut s = Service::new(
        config,
        Clock::new(0),
        Table::new(),
        Book::new(),
        NodeId(key),
        rng_with_seed(key),
    );
    s.start();
    s
}

fn addr(ip: u32, port: u16) -> HostAddr {
    HostAddr { ip, port }
}

fn handshake_from(key: u64, now: u64) -> Message {
    Message::Handshake { node: NodeId(key), version: 1, timestamp: now, signature: Signature(9) }
}

/// Dial from `a` to the peer `key`, and complete the handshake; returns the
/// connection id on `a`.
fn open_ready(a: &mut Service, key: u64, at: HostAddr, now: u64) -> u64 {
    let id = a.next_session;
    a.command(Command::Connect { node: NodeId(key), addr: at }, now);
    a.connected(id, now);
    a.message(id, handshake_from(key, now), true, now);
    id
}

#[test]
fn handshake_makes_an_outbound_session_ready() {
    let mut x = node(Config::new(Network::Test), 1);
    let id = open_ready(&mut x, 2, addr(9, 1), 10);
    assert_eq!(x.sessions[0].state, SessionState::Ready);
    assert_eq!(x.sessions[0].peer, Some(NodeId(2)));
    assert!(x.sessions[0].got_ready);
    assert!(x.outbox.contains(&Action::Emit { event: Event::PeerConnected { peer: NodeId(2) } }));
    // The dial succeeded: the address book scored it.
    let rec = x.addresses.get(NodeId(2), addr(9, 1)).unwrap();
    assert_eq!(rec.last_success, Some(10));
    assert_eq!(rec.attempts, 0);
    assert_eq!(id, 0);
}

#[test]
fn unauthenticated_frames_never_mutate_the_stores() {
    // A frame whose signature does not verify leaves routing and addresses
    // exactly as they were, and its connection starts disconnecting.
    let mut x = node(Config::new(Network::Test), 1);
    let id = open_ready(&mut x, 2, addr(9, 1), 10);
    let routing_before: Vec<_> = x.routing.entries().clone();
    let addresses_before: Vec<_> = x.addresses.records().clone();
    let dropped_before = x.dropped_frames;

    let forged = Message::RoutingAnnouncement {
        resource: ResourceId(5),
        provider: NodeId(3),
        timestamp: 11,
        signature: Signature(666),
    };
    x.message(id, forged, false, 11);

    assert_eq!(x.routing.entries(), &routing_before);
    assert_eq!(x.addresses.records(), &addresses_before);
    assert_eq!(x.dropped_frames, dropped_before + 1);
    assert_eq!(x.sessions[0].state, SessionState::Disconnecting);
    assert!(x.outbox.contains(&Action::Disconnect { id, reason: DisconnectReason::Auth }));
}

#[test]
fn unauthenticated_handshake_never_readies_a_session() {
    let mut x = node(Config::new(Network::Test), 1);
    let id = x.next_session;
    x.command(Command::Connect { node: NodeId(2), addr: addr(9, 1) }, 10);
    x.connected(id, 10);
    x.message(id, handshake_from(2, 10), false, 10);
    assert_eq!(x.sessions[0].state, SessionState::Disconnecting);
    assert!(x.addresses.records().is_empty());
}

#[test]
fn two_fresh_nodes_exchange_an_announcement() {
    // Node X tracks resource R and announces it; node Y, connected to X,
    // receives the announcement; providers_of(R) on Y is {X}.
    let mut x = node(Config::new(Network::Test), 1);
    let mut y = node(Config::new(Network::Test), 2);
    let now = 10;

    // Y dials X; both ends handshake.
    let y_conn = y.next_session;
    y.command(Command::Connect { node: NodeId(1), addr: addr(1, 8776) }, now);
    y.connected(y_conn, now);
    let x_conn = x.accepted(addr(2, 9999), now);
    x.message(x_conn, handshake_from(2, now), true, now);
    y.message(y_conn, handshake_from(1, now), true, now);
    assert_eq!(x.sessions[0].state, SessionState::Ready);
    assert_eq!(y.sessions[0].state, SessionState::Ready);

    // X starts tracking R and fans the announcement out.
    let r = ResourceId(77);
    x.command(Command::Track { resource: r }, now);
    let announced = x
        .outbox
        .iter()
        .find_map(|a| match a {
            Action::Write { id, msg: m @ Message::RoutingAnnouncement { .. } } => {
                Some((*id, *m))
            },
            _ => None,
        })
        .expect("the tracked resource is announced to the ready peer");
    assert_eq!(announced.0, x_conn);

    // The wire carries it to Y; the edge verified the signature.
    y.message(y_conn, announced.1, true, now);
    assert_eq!(y.providers(r), vec![NodeId(1)]);
    assert!(y
        .outbox
        .contains(&Action::Emit { event: Event::RoutingUpdated { resource: r, provider: NodeId(1) } }));
}

#[test]
fn out_of_order_announcements_store_the_newest() {
    // An announcement at T, then one at T - 1: the stored timestamp is T.
    let mut y = node(Config::new(Network::Test), 2);
    let id = open_ready(&mut y, 1, addr(9, 1), 10);
    let at = |t: u64| Message::RoutingAnnouncement {
        resource: ResourceId(7),
        provider: NodeId(1),
        timestamp: t,
        signature: Signature(1),
    };
    y.message(id, at(100), true, 10);
    y.message(id, at(99), true, 11);
    assert_eq!(y.routing.entries().len(), 1);
    assert_eq!(y.routing.entries()[0].timestamp, 100);
}

#[test]
fn a_handshake_that_never_completes_scores_a_failure() {
    // The session times out, the dialed address gains one attempt and no
    // success, and the session ends Closed.
    let mut y = node(Config::new(Network::Test), 2);
    let timeout = y.config.handshake_timeout;
    let id = y.next_session;
    y.command(Command::Connect { node: NodeId(1), addr: addr(9, 1) }, 0);
    y.connected(id, 0);
    assert_eq!(y.sessions[0].state, SessionState::Handshaking);

    y.tick(timeout + 1);
    assert_eq!(y.sessions[0].state, SessionState::Disconnecting);
    assert!(y
        .outbox
        .contains(&Action::Disconnect { id, reason: DisconnectReason::HandshakeTimeout }));

    y.disconnected(id, DisconnectReason::HandshakeTimeout, timeout + 2);
    assert_eq!(y.sessions[0].state, SessionState::Closed);
    let rec = y.addresses.get(NodeId(1), addr(9, 1)).unwrap();
    assert_eq!(rec.attempts, 1);
    assert_eq!(rec.last_success, None);
}

#[test]
fn an_idle_ready_session_times_out() {
    let mut y = node(Config::new(Network::Test), 2);
    let idle = y.config.idle_timeout;
    let id = open_ready(&mut y, 1, addr(9, 1), 0);
    y.tick(idle + 1);
    assert_eq!(y.sessions[0].state, SessionState::Disconnecting);
    assert!(y.outbox.contains(&Action::Disconnect { id, reason: DisconnectReason::Idle }));
}

#[test]
fn a_frame_wrong_for_its_state_is_a_violation() {
    let mut y = node(Config::new(Network::Test), 2);
    let id = y.next_session;
    y.command(Command::Connect { node: NodeId(1), addr: addr(9, 1) }, 0);
    y.connected(id, 0);
    // A routing announcement before the handshake completes.
    y.message(
        id,
        Message::RoutingAnnouncement {
            resource: ResourceId(1),
            provider: NodeId(1),
            timestamp: 5,
            signature: Signature(1),
        },
        true,
        1,
    );
    assert_eq!(y.sessions[0].state, SessionState::Disconnecting);
    assert_eq!(y.dropped_frames, 1);
    assert!(y.routing.entries().is_empty());
    assert!(y.outbox.contains(&Action::Disconnect { id, reason: DisconnectReason::Protocol }));
}

#[test]
fn a_version_mismatch_is_a_violation() {
    let mut y = node(Config::new(Network::Test), 2);
    let id = y.next_session;
    y.command(Command::Connect { node: NodeId(1), addr: addr(9, 1) }, 0);
    y.connected(id, 0);
    y.message(
        id,
        Message::Handshake { node: NodeId(1), version: 2, timestamp: 0, signature: Signature(1) },
        true,
        1,
    );
    assert_eq!(y.sessions[0].state, SessionState::Disconnecting);
}

#[test]
fn a_wrong_identity_on_a_pinned_dial_is_a_violation() {
    let mut y = node(Config::new(Network::Test), 2);
    let id = y.next_session;
    y.command(Command::Connect { node: NodeId(1), addr: addr(9, 1) }, 0);
    y.connected(id, 0);
    y.message(id, handshake_from(3, 0), true, 1);
    assert_eq!(y.sessions[0].state, SessionState::Disconnecting);
    // The impostor's identity was never scored as a success.
    assert!(y.addresses.records().is_empty());
}

#[test]
fn ping_is_answered_with_pong() {
    let mut y = node(Config::new(Network::Test), 2);
    let id = open_ready(&mut y, 1, addr(9, 1), 0);
    y.message(id, Message::Ping { nonce: 33 }, true, 5);
    assert!(y.outbox.contains(&Action::Write { id, msg: Message::Pong { nonce: 33 } }));
    assert_eq!(y.sessions[0].last_active, 5);
}

#[test]
fn an_announcement_for_a_tracked_resource_schedules_a_fetch() {
    let mut y = node(Config::new(Network::Test), 2);
    let id = open_ready(&mut y, 1, addr(9, 1), 0);
    y.command(Command::Track { resource: ResourceId(7) }, 1);
    y.message(
        id,
        Message::RoutingAnnouncement {
            resource: ResourceId(7),
            provider: NodeId(1),
            timestamp: 5,
            signature: Signature(1),
        },
        true,
        6,
    );
    assert!(y.outbox.contains(&Action::Fetch { id, resource: ResourceId(7) }));
}

#[test]
fn providers_respect_the_routing_ttl() {
    let mut y = node(Config::new(Network::Test), 2);
    let ttl = y.config.routing_ttl;
    let id = open_ready(&mut y, 1, addr(9, 1), 0);
    y.message(
        id,
        Message::RoutingAnnouncement {
            resource: ResourceId(7),
            provider: NodeId(1),
            timestamp: 0,
            signature: Signature(1),
        },
        true,
        0,
    );
    assert_eq!(y.providers(ResourceId(7)), vec![NodeId(1)]);
    y.set_clock(ttl + 1);
    assert_eq!(y.providers(ResourceId(7)), vec![]);
}

#[test]
fn untrack_forgets_the_resource() {
    let mut y = node(Config::new(Network::Test), 2);
    y.command(Command::Track { resource: ResourceId(7) }, 0);
    y.command(Command::Track { resource: ResourceId(8) }, 0);
    assert!(y.is_tracked(ResourceId(7)));
    y.command(Command::Untrack { resource: ResourceId(7) }, 1);
    assert!(!y.is_tracked(ResourceId(7)));
    assert!(y.is_tracked(ResourceId(8)));
}

#[test]
fn shutdown_is_idempotent() {
    // The first shutdown tears the sessions down; a second changes nothing
    // at all, so nothing is released twice.
    let mut y = node(Config::new(Network::Test), 2);
    open_ready(&mut y, 1, addr(9, 1), 0);
    y.command(Command::Shutdown, 5);
    assert_eq!(y.phase, Phase::ShuttingDown);
    assert_eq!(y.sessions[0].state, SessionState::Disconnecting);
    let outbox_after_first = y.outbox.clone();
    let sessions_after_first = y.sessions.clone();

    y.command(Command::Shutdown, 6);
    assert_eq!(y.phase, Phase::ShuttingDown);
    assert_eq!(y.outbox, outbox_after_first);
    assert_eq!(y.sessions, sessions_after_first);

    y.stop();
    assert_eq!(y.phase, Phase::Stopped);
}

#[test]
fn commands_are_ignored_before_start_and_after_shutdown() {
    let mut s = Service::new(
        Config::new(Network::Test),
        Clock::new(0),
        Table::new(),
        Book::new(),
        NodeId(1),
        rng_with_seed(1),
    );
    s.command(Command::Track { resource: ResourceId(7) }, 0);
    assert!(!s.is_tracked(ResourceId(7)));
    s.start();
    s.command(Command::Shutdown, 1);
    s.command(Command::Track { resource: ResourceId(7) }, 2);
    assert!(!s.is_tracked(ResourceId(7)));
}

#[test]
fn a_ready_peer_disconnecting_is_published() {
    let mut y = node(Config::new(Network::Test), 2);
    let id = open_ready(&mut y, 1, addr(9, 1), 0);
    y.disconnected(id, DisconnectReason::Idle, 10);
    assert!(y.outbox.contains(&Action::Emit {
        event: Event::PeerDisconnected { peer: NodeId(1), reason: DisconnectReason::Idle }
    }));
    assert_eq!(y.sessions[0].state, SessionState::Closed);
    // The attempt history is untouched: this dial had already succeeded.
    assert_eq!(y.addresses.get(NodeId(1), addr(9, 1)).unwrap().attempts, 0);
}

#[test]
fn announce_reaches_at_most_fanout_ready_peers() {
    let mut cfg = Config::new(Network::Test);
    cfg.fanout = 2;
    let mut x = node(cfg, 1);
    for k in 0..5u64 {
        open_ready(&mut x, 10 + k, addr(9, 1000 + k as u16), 0);
    }
    x.command(Command::Track { resource: ResourceId(3) }, 1);
    let before = x.outbox.len();
    x.announce(2);
    let writes: Vec<_> = x.outbox[before..]
        .iter()
        .filter(|a| matches!(a, Action::Write { .. }))
        .collect();
    assert!(writes.len() <= 2);
    assert!(!writes.is_empty());
}

#[test]
fn peers_lists_ready_identities() {
    let mut x = node(Config::new(Network::Test), 1);
    open_ready(&mut x, 5, addr(9, 1), 0);
    open_ready(&mut x, 6, addr(9, 2), 0);
    let peers = x.peers();
    assert_eq!(peers.len(), 2);
    assert!(peers.contains(&NodeId(5)));
    assert!(peers.contains(&NodeId(6)));
}

#[test]
fn reap_discards_only_closed_sessions() {
    let mut y = node(Config::new(Network::Test), 2);
    let id1 = open_ready(&mut y, 1, addr(9, 1), 0);
    let id2 = open_ready(&mut y, 3, addr(9, 2), 0);
    y.disconnected(id1, DisconnectReason::Stream, 5);
    assert_eq!(y.sessions.len(), 2);
    y.reap();
    assert_eq!(y.sessions.len(), 1);
    assert_eq!(y.sessions[0].id, id2);
    assert_eq!(y.sessions[0].state, SessionState::Ready);
}

#[test]
fn list_peers_answers_through_the_outbox() {
    let mut y = node(Config::new(Network::Test), 2);
    open_ready(&mut y, 5, addr(9, 1), 0);
    y.command(Command::ListPeers, 1);
    match y.outbox.last() {
        Some(Action::Respond { reply: QueryReply::Peers { peers } }) => {
            assert_eq!(peers, &vec![NodeId(5)]);
        }
        other => panic!("expected a peers reply, got {:?}", other),
    }
}

#[test]
fn list_routes_answers_live_providers() {
    let mut y = node(Config::new(Network::Test), 2);
    let id = open_ready(&mut y, 1, addr(9, 1), 0);
    y.message(
        id,
        Message::RoutingAnnouncement {
            resource: ResourceId(7),
            provider: NodeId(1),
            timestamp: 0,
            signature: Signature(1),
        },
        true,
        0,
    );
    y.command(Command::ListRoutes { resource: ResourceId(7) }, 1);
    match y.outbox.last() {
        Some(Action::Respond { reply: QueryReply::Routes { resource, providers } }) => {
            assert_eq!(*resource, ResourceId(7));
            assert_eq!(providers, &vec![NodeId(1)]);
        }
        other => panic!("expected a routes reply, got {:?}", other),
    }
}

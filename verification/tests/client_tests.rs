use radicle_node::address::KnownAddress;
use radicle_node::client::{Client, Config, Error};
use radicle_node::ids::{HostAddr, NodeId, ResourceId};
use radicle_node::routing::Entry;
use radicle_node::service;
use radicle_node::service::{Command, Event, Network, Phase, QueryReply};

#[test]
fn default_config_values_are_documented() {
    let c = Config::default();
    assert_eq!(c.service.network, Network::Main);
    assert_eq!(c.service.protocol_version, 1);
    assert_eq!(c.service.handshake_timeout, 10_000);
    assert_eq!(c.service.idle_timeout, 300_000);
    assert_eq!(c.service.routing_ttl, 604_800_000);
    assert_eq!(c.service.address_ttl, 2_592_000_000);
    assert_eq!(c.service.fanout, 6);
    assert_eq!(c.listen, vec![HostAddr { ip: 0, port: 0 }]);
    let t = Config::new(Network::Test);
    assert_eq!(t.service.network, Network::Test);
    assert_eq!(t.service.fanout, 6);
}

#[test]
fn shutdown_twice_does_not_block_and_tears_down_once() {
    // Both requests return at once and report success; the node sees one
    // signal, so there is exactly one teardown.
    let client = Client::new();
    let handle = client.handle();
    let (_commands, shutdown_recv, _listening, _replies) = client.reactor_ends();

    assert_eq!(handle.shutdown(), Ok(()));
    assert_eq!(handle.shutdown(), Ok(()));

    assert!(Client::shutdown_requested(&shutdown_recv));
    assert!(!Client::shutdown_requested(&shutdown_recv));
}

#[test]
fn commands_flow_in_order_through_the_queue() {
    let client = Client::new();
    let handle = client.handle();
    let (commands, _shutdown, _listening, _replies) = client.reactor_ends();

    handle.command(Command::Track { resource: ResourceId(7) }).unwrap();
    handle.command(Command::Track { resource: ResourceId(8) }).unwrap();
    handle.command(Command::Untrack { resource: ResourceId(7) }).unwrap();

    let mut svc = Client::build_service(
        service::Config::new(Network::Test),
        0,
        Vec::new(),
        Vec::new(),
        NodeId(1),
    )
    .unwrap();
    svc.start();
    assert_eq!(svc.phase, Phase::Running);

    while Client::pump_one(&mut svc, &commands, 1) {}
    assert!(!svc.is_tracked(ResourceId(7)));
    assert!(svc.is_tracked(ResourceId(8)));
}

#[test]
fn a_cloned_handle_reaches_the_same_node() {
    let client = Client::new();
    let handle = client.handle().duplicate();
    let (commands, _shutdown, _listening, _replies) = client.reactor_ends();
    handle.command(Command::Track { resource: ResourceId(9) }).unwrap();
    let mut svc = Client::build_service(
        service::Config::new(Network::Test),
        0,
        Vec::new(),
        Vec::new(),
        NodeId(1),
    )
    .unwrap();
    svc.start();
    assert!(Client::pump_one(&mut svc, &commands, 1));
    assert!(svc.is_tracked(ResourceId(9)));
}

#[test]
fn the_listen_address_is_set_once_and_read_once() {
    let client = Client::new();
    let handle = client.handle();
    assert_eq!(handle.listen_addr(), None);
    client.announce_listening(HostAddr { ip: 0x7F000001, port: 8776 });
    assert_eq!(handle.listen_addr(), Some(HostAddr { ip: 0x7F000001, port: 8776 }));
    assert_eq!(handle.listen_addr(), None);
}

#[test]
fn build_service_restores_the_stores() {
    let entries = vec![Entry { resource: ResourceId(1), provider: NodeId(2), timestamp: 3 }];
    let records = vec![KnownAddress {
        node: NodeId(2),
        addr: HostAddr { ip: 1, port: 2 },
        last_seen: 3,
        last_success: None,
        attempts: 0,
    }];
    let svc = Client::build_service(
        service::Config::new(Network::Test),
        5,
        entries.clone(),
        records.clone(),
        NodeId(9),
    )
    .unwrap();
    assert_eq!(svc.phase, Phase::Initializing);
    assert_eq!(svc.routing.entries(), &entries);
    assert_eq!(svc.addresses.records(), &records);
    assert_eq!(svc.local, NodeId(9));
}

#[test]
fn build_service_refuses_a_corrupt_routing_store() {
    let e = Entry { resource: ResourceId(1), provider: NodeId(2), timestamp: 3 };
    let r = Client::build_service(
        service::Config::new(Network::Test),
        0,
        vec![e, e],
        Vec::new(),
        NodeId(9),
    );
    assert!(matches!(r, Err(Error::Routing(_))));
}

#[test]
fn build_service_refuses_a_corrupt_address_store() {
    let rec = KnownAddress {
        node: NodeId(2),
        addr: HostAddr { ip: 1, port: 2 },
        last_seen: 3,
        last_success: None,
        attempts: 0,
    };
    let r = Client::build_service(
        service::Config::new(Network::Test),
        0,
        Vec::new(),
        vec![rec, rec],
        NodeId(9),
    );
    assert!(matches!(r, Err(Error::Addresses(_))));
}

#[test]
fn the_publisher_records_events_in_order() {
    let mut client = Client::new();
    client.publish(Event::PeerConnected { peer: NodeId(1) });
    client.publish(Event::FetchCompleted { resource: ResourceId(2), success: true });
    assert_eq!(client.events().published.len(), 2);
    assert_eq!(client.events().published[0], Event::PeerConnected { peer: NodeId(1) });
}

#[test]
fn a_query_reply_reaches_the_handle() {
    // The reactor's reply sender and the handle's receiver are ends of one
    // channel: a reply queued by the service loop is what the handle reads.
    let client = Client::new();
    let handle = client.handle();
    let (commands, _shutdown, _listening, replies_send) = client.reactor_ends();
    replies_send
        .send(QueryReply::Peers { peers: vec![NodeId(5)] })
        .unwrap();
    let got = handle.list_peers().unwrap();
    assert_eq!(got, QueryReply::Peers { peers: vec![NodeId(5)] });
    // The query request itself joined the command queue.
    let mut svc = Client::build_service(
        service::Config::new(Network::Test),
        0,
        Vec::new(),
        Vec::new(),
        NodeId(1),
    )
    .unwrap();
    svc.start();
    assert!(Client::pump_one(&mut svc, &commands, 1));
    assert!(matches!(
        svc.outbox.last(),
        Some(radicle_node::service::Action::Respond { .. })
    ));
}

#[test]
fn list_routes_requests_carry_the_resource() {
    let client = Client::new();
    let handle = client.handle();
    let (commands, _shutdown, _listening, replies_send) = client.reactor_ends();
    replies_send
        .send(QueryReply::Routes { resource: ResourceId(7), providers: vec![] })
        .unwrap();
    let got = handle.list_routes(ResourceId(7)).unwrap();
    assert_eq!(got, QueryReply::Routes { resource: ResourceId(7), providers: vec![] });
    let mut svc = Client::build_service(
        service::Config::new(Network::Test),
        0,
        Vec::new(),
        Vec::new(),
        NodeId(1),
    )
    .unwrap();
    svc.start();
    assert!(Client::pump_one(&mut svc, &commands, 1));
    match svc.outbox.last() {
        Some(radicle_node::service::Action::Respond {
            reply: QueryReply::Routes { resource, providers },
        }) => {
            assert_eq!(*resource, ResourceId(7));
            assert!(providers.is_empty());
        }
        other => panic!("expected a routes reply, got {:?}", other),
    }
}

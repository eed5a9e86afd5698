//! Message pumps against a real renet server and a local renet client:
//! ordered delivery, post-disconnect behaviour, and the phase ordering of
//! the post-update tick.

use replicon_renet::channels::Channel;
use replicon_renet::channels::ChannelEntry;
use replicon_renet::channels::ChannelRegistry;
use replicon_renet::client::ClientContext;
use replicon_renet::server::ServerContext;
use replicon_renet::server::TransportEvent;
use replicon_renet::transport::new_server_transport;

const UNRELIABLE: u8 = 0;
const ORDERED: u8 = 1;

/// Both directions carry the same two channels: unreliable and
/// ordered-reliable.
fn registry() -> ChannelRegistry {
    let mut registry = ChannelRegistry::new();
    registry.add_server_channel(ChannelEntry { kind: Channel::Unreliable, max_bytes: None });
    registry.add_server_channel(ChannelEntry { kind: Channel::Ordered, max_bytes: None });
    registry.add_client_channel(ChannelEntry { kind: Channel::Unreliable, max_bytes: None });
    registry.add_client_channel(ChannelEntry { kind: Channel::Ordered, max_bytes: None });
    registry
}

/// Moves the wire packets of both directions, as a transport would.
fn exchange_packets(server: &mut renet::RenetServer, client_id: u64, client: &mut renet::RenetClient) {
    server.process_local_client(client_id, client).expect("client is known to the server");
}

fn connect_events(server: &mut renet::RenetServer) -> Vec<TransportEvent> {
    let mut events = Vec::new();
    while let Some(event) = server.get_event() {
        if let renet::ServerEvent::ClientConnected { client_id } = event {
            events.push(TransportEvent::Connected { client_id });
        }
    }
    events
}

#[test]
fn ordered_messages_arrive_in_order() {
    let registry = registry();
    let mut server = new_server_transport(&registry, 60_000);
    let mut ctx = ServerContext::new();
    let mut client = server.new_local_client(42);
    let mut client_ctx = ClientContext::new();

    client_ctx.queue_message(ORDERED, b"a".to_vec());
    client_ctx.queue_message(ORDERED, b"b".to_vec());
    client_ctx.queue_message(ORDERED, b"c".to_vec());
    client_ctx.client_post_update(&mut client);
    assert!(client_ctx.outgoing.is_empty());

    exchange_packets(&mut server, 42, &mut client);

    let events = connect_events(&mut server);
    ctx.server_pre_update(&mut server, events, 2);
    let logical = ctx.logical_of(42).expect("pair registered before draining");

    let received = ctx.take_received();
    assert_eq!(received.len(), 3);
    for message in &received {
        assert_eq!(message.logical_id, logical);
        assert_eq!(message.channel_id, ORDERED);
    }
    let payloads: Vec<&[u8]> = received.iter().map(|m| m.payload.as_slice()).collect();
    assert_eq!(payloads, vec![b"a".as_slice(), b"b".as_slice(), b"c".as_slice()]);
}

#[test]
fn server_messages_reach_the_client() {
    let registry = registry();
    let mut server = new_server_transport(&registry, 60_000);
    let mut ctx = ServerContext::new();
    let mut client = server.new_local_client(9);
    let mut client_ctx = ClientContext::new();

    let events = connect_events(&mut server);
    ctx.server_pre_update(&mut server, events, 2);
    let logical = ctx.logical_of(9).expect("pair registered on connect");

    ctx.queue_message(logical, ORDERED, b"state".to_vec());
    ctx.queue_message(logical, UNRELIABLE, b"blob".to_vec());
    ctx.send_packets(&mut server);
    assert!(ctx.outgoing.is_empty());

    exchange_packets(&mut server, 9, &mut client);

    client_ctx.client_pre_update(&mut client, 9, 2);
    let received = client_ctx.take_received();
    assert_eq!(received.len(), 2);
    let ordered: Vec<&[u8]> = received
        .iter()
        .filter(|m| m.channel_id == ORDERED)
        .map(|m| m.payload.as_slice())
        .collect();
    assert_eq!(ordered, vec![b"state".as_slice()]);
    let unreliable: Vec<&[u8]> = received
        .iter()
        .filter(|m| m.channel_id == UNRELIABLE)
        .map(|m| m.payload.as_slice())
        .collect();
    assert_eq!(unreliable, vec![b"blob".as_slice()]);
}

#[test]
fn disconnect_request() {
    let registry = registry();
    let mut server = new_server_transport(&registry, 60_000);
    let mut ctx = ServerContext::new();
    let mut client = server.new_local_client(7);
    let mut client_ctx = ClientContext::new();

    let events = connect_events(&mut server);
    ctx.server_pre_update(&mut server, events, 2);
    let logical = ctx.logical_of(7).expect("pair registered on connect");

    // A final message and a disconnect request land in the same tick: the
    // outbound pump runs first, the wire is flushed, and only then is the
    // teardown applied.
    ctx.queue_message(logical, ORDERED, b"bye".to_vec());
    ctx.request_disconnect(logical);

    ctx.send_packets(&mut server);
    exchange_packets(&mut server, 7, &mut client);
    ctx.disconnect_by_request(&mut server);

    assert!(!server.is_connected(7));
    assert_eq!(ctx.logical_of(7), None);
    assert_eq!(ctx.records.len(), 0);

    client_ctx.client_pre_update(&mut client, 7, 2);
    let received = client_ctx.take_received();
    let payloads: Vec<&[u8]> = received.iter().map(|m| m.payload.as_slice()).collect();
    assert_eq!(payloads, vec![b"bye".as_slice()], "last message should be received");
}

#[test]
fn post_update_phase_flushes_then_tears_down() {
    let registry = registry();
    let mut server = new_server_transport(&registry, 60_000);
    let mut ctx = ServerContext::new();
    let _client = server.new_local_client(8);

    let events = connect_events(&mut server);
    ctx.server_pre_update(&mut server, events, 2);
    let logical = ctx.logical_of(8).expect("pair registered on connect");

    ctx.queue_message(logical, ORDERED, b"final".to_vec());
    ctx.request_disconnect(logical);
    ctx.server_post_update(&mut server);

    assert!(ctx.outgoing.is_empty());
    assert!(ctx.disconnect_requests.is_empty());
    assert_eq!(ctx.records.len(), 0);
    assert!(!server.is_connected(8));

    let notifications = ctx.take_notifications();
    assert!(matches!(
        notifications.last(),
        Some(replicon_renet::server::Notification::Disconnected {
            client_id: 8,
            cause: replicon_renet::server::DisconnectCause::ByServer,
            ..
        })
    ));
}

#[test]
fn stale_peer_messages_are_not_misattributed() {
    let registry = registry();
    let mut server = new_server_transport(&registry, 60_000);
    let mut ctx = ServerContext::new();
    let mut client = server.new_local_client(13);

    let events = connect_events(&mut server);
    ctx.server_pre_update(&mut server, events, 2);
    assert_eq!(ctx.records.len(), 1);

    // the peer goes away; its leftover messages arrive in the same tick
    let mut client_ctx = ClientContext::new();
    client_ctx.queue_message(ORDERED, b"late".to_vec());
    client_ctx.client_post_update(&mut client);
    exchange_packets(&mut server, 13, &mut client);
    server.remove_connection(13);

    // the lifecycle monitor runs before the inbound pump, so the record is
    // gone before anything is pulled, and nothing is attributed to it
    let mut events = Vec::new();
    while let Some(event) = server.get_event() {
        if let renet::ServerEvent::ClientDisconnected { client_id, .. } = event {
            events.push(TransportEvent::Disconnected {
                client_id,
                cause: replicon_renet::server::DisconnectCause::ByClient,
            });
        }
    }
    ctx.server_pre_update(&mut server, events, 2);
    assert_eq!(ctx.records.len(), 0);
    assert_eq!(ctx.take_received().len(), 0);
}

#[test]
fn framework_removal_disconnects_transport() {
    let registry = registry();
    let mut server = new_server_transport(&registry, 60_000);
    let mut ctx = ServerContext::new();
    let _client = server.new_local_client(30);

    let events = connect_events(&mut server);
    ctx.server_pre_update(&mut server, events, 2);
    let logical = ctx.logical_of(30).expect("pair registered on connect");
    assert!(server.is_connected(30));

    // the framework tears the peer down on its own while the transport is
    // active: the record goes and the transport is told to disconnect
    ctx.remove_client(&mut server, logical);
    assert_eq!(ctx.records.len(), 0);
    assert_eq!(ctx.client_of(logical), None);
    assert!(!server.is_connected(30));
}

#[test]
fn post_disconnect_destination_cannot_be_resolved() {
    let registry = registry();
    let mut server = new_server_transport(&registry, 60_000);
    let mut ctx = ServerContext::new();
    let _client = server.new_local_client(21);

    let events = connect_events(&mut server);
    ctx.server_pre_update(&mut server, events, 2);
    let logical = ctx.logical_of(21).expect("pair registered on connect");

    ctx.request_disconnect(logical);
    ctx.server_post_update(&mut server);

    // the framework's guard: a destination whose record is gone no longer
    // resolves, so nothing may be queued for it any more
    assert_eq!(ctx.client_of(logical), None);
}

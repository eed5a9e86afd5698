//! The client-side status monitor: transitions driven by a real renet
//! client, edge detection, and the loss of the server.

use replicon_renet::channels::Channel;
use replicon_renet::channels::ChannelEntry;
use replicon_renet::channels::ChannelRegistry;
use replicon_renet::client::ClientContext;
use replicon_renet::client::ClientStatus;
use replicon_renet::server::ServerContext;
use replicon_renet::server::TransportEvent;
use replicon_renet::transport::new_client_transport;
use replicon_renet::transport::new_server_transport;

fn registry() -> ChannelRegistry {
    let mut registry = ChannelRegistry::new();
    registry.add_server_channel(ChannelEntry { kind: Channel::Ordered, max_bytes: None });
    registry.add_client_channel(ChannelEntry { kind: Channel::Ordered, max_bytes: None });
    registry
}

#[test]
fn fresh_transport_reports_connecting() {
    let registry = registry();
    let mut client = new_client_transport(&registry, 60_000);
    let mut ctx = ClientContext::new();
    ctx.client_pre_update(&mut client, 0, 1);
    assert_eq!(ctx.status, ClientStatus::Connecting);
}

#[test]
fn connection_captures_transport_identity() {
    let registry = registry();
    let mut server = new_server_transport(&registry, 60_000);
    let mut client = server.new_local_client(33);
    let mut ctx = ClientContext::new();
    ctx.client_pre_update(&mut client, 33, 1);
    assert_eq!(ctx.status, ClientStatus::Connected { client_id: 33 });
}

#[test]
fn connected_status_is_set_exactly_once() {
    let registry = registry();
    let mut server = new_server_transport(&registry, 60_000);
    let mut client = server.new_local_client(4);
    let mut ctx = ClientContext::new();

    ctx.client_pre_update(&mut client, 4, 1);
    assert_eq!(ctx.status, ClientStatus::Connected { client_id: 4 });

    // the framework may move its own status on; an unchanged transport must
    // not re-fire the transition on the next tick
    ctx.status = ClientStatus::Connecting;
    ctx.client_pre_update(&mut client, 4, 1);
    assert_eq!(ctx.status, ClientStatus::Connecting);
}

#[test]
fn server_stop() {
    let registry = registry();
    let mut server = new_server_transport(&registry, 60_000);
    let mut server_ctx = ServerContext::new();
    server_ctx.set_running();
    let mut client = server.new_local_client(2);
    let mut client_ctx = ClientContext::new();

    while let Some(event) = server.get_event() {
        if let renet::ServerEvent::ClientConnected { client_id } = event {
            server_ctx.process_server_events(vec![TransportEvent::Connected { client_id }]);
        }
    }
    let logical = server_ctx.logical_of(2).expect("pair registered on connect");
    client_ctx.client_pre_update(&mut client, 2, 1);
    assert_eq!(client_ctx.status, ClientStatus::Connected { client_id: 2 });

    // a message broadcast before the stop is flushed and still delivered
    server_ctx.queue_message(logical, 0, b"before".to_vec());
    server_ctx.send_packets(&mut server);
    server.process_local_client(2, &mut client).expect("client known");
    client_ctx.client_pre_update(&mut client, 2, 1);
    let received = client_ctx.take_received();
    let payloads: Vec<&[u8]> = received.iter().map(|m| m.payload.as_slice()).collect();
    assert_eq!(payloads, vec![b"before".as_slice()], "the last flush is still delivered");

    // the server transport goes away: the running flag drops the same tick,
    // and the client's transport reports the loss
    server_ctx.set_stopped();
    assert!(!server_ctx.running);
    drop(server);
    client.disconnect_due_to_transport();

    client_ctx.client_pre_update(&mut client, 2, 1);
    assert_eq!(
        client_ctx.status,
        ClientStatus::Disconnected,
        "client disconnects on the tick after the stop"
    );

    // nothing sent after the stop is ever received
    client_ctx.client_pre_update(&mut client, 2, 1);
    assert_eq!(client_ctx.take_received().len(), 0, "nothing after the stop is received");
}

#[test]
fn absent_transport_reports_disconnected() {
    let mut ctx = ClientContext::new();
    ctx.update_status(false, true, false, 6);
    assert_eq!(ctx.status, ClientStatus::Connected { client_id: 6 });

    // the transport resource was removed: absent reports as disconnected
    ctx.update_status(false, false, true, 0);
    assert_eq!(ctx.status, ClientStatus::Disconnected);
}

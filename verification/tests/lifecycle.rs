//! Lifecycle: identity pairs, connection records and exactly-once
//! notifications, driven by real renet server events.

use replicon_renet::channels::Channel;
use replicon_renet::channels::ChannelEntry;
use replicon_renet::channels::ChannelRegistry;
use replicon_renet::identity::IdentityBridge;
use replicon_renet::server::DisconnectCause;
use replicon_renet::server::Notification;
use replicon_renet::server::ServerContext;
use replicon_renet::server::TransportEvent;
use replicon_renet::transport::new_server_transport;
use renet::DisconnectReason;
use renet::ServerEvent;

fn registry() -> ChannelRegistry {
    let mut registry = ChannelRegistry::new();
    registry.add_server_channel(ChannelEntry { kind: Channel::Ordered, max_bytes: None });
    registry.add_client_channel(ChannelEntry { kind: Channel::Ordered, max_bytes: None });
    registry
}

/// Turns renet's server events into the adapter's transport events, mapping
/// the two well-known disconnect reasons and carrying any other as text.
fn convert_events(server: &mut renet::RenetServer) -> Vec<TransportEvent> {
    let mut events = Vec::new();
    while let Some(event) = server.get_event() {
        events.push(match event {
            ServerEvent::ClientConnected { client_id } => TransportEvent::Connected { client_id },
            ServerEvent::ClientDisconnected { client_id, reason } => TransportEvent::Disconnected {
                client_id,
                cause: match reason {
                    DisconnectReason::DisconnectedByClient => DisconnectCause::ByClient,
                    DisconnectReason::DisconnectedByServer => DisconnectCause::ByServer,
                    other => DisconnectCause::Other(format!("{other}")),
                },
            },
        });
    }
    events
}

#[test]
fn bridge_pairs_both_directions() {
    let mut bridge = IdentityBridge::new();
    let first = bridge.register(500);
    let second = bridge.register(900);
    assert_ne!(first, second);
    assert_eq!(bridge.resolve(first), Some(500));
    assert_eq!(bridge.resolve(second), Some(900));
    assert_eq!(bridge.resolve_back(900), Some(second));
    bridge.unregister(first);
    assert_eq!(bridge.resolve(first), None);
    assert_eq!(bridge.resolve_back(500), None);
    assert_eq!(bridge.resolve(second), Some(900));
}

#[test]
fn connect_disconnect() {
    let registry = registry();
    let mut server = new_server_transport(&registry, 60_000);
    let mut ctx = ServerContext::new();

    server.add_connection(11);
    let events = convert_events(&mut server);
    assert_eq!(events.len(), 1);
    ctx.process_server_events(events);

    assert_eq!(ctx.records.len(), 1);
    let logical = ctx.logical_of(11).expect("pair registered on connect");
    assert_eq!(ctx.client_of(logical), Some(11));
    assert_eq!(ctx.records[0].logical_id, logical);
    assert_eq!(ctx.records[0].client_id, 11);
    assert_eq!(ctx.records[0].max_payload, 1200);

    server.remove_connection(11);
    let events = convert_events(&mut server);
    assert_eq!(events.len(), 1);
    ctx.process_server_events(events);

    assert_eq!(ctx.records.len(), 0);
    assert_eq!(ctx.logical_of(11), None);
    assert_eq!(ctx.client_of(logical), None);

    let notifications = ctx.take_notifications();
    assert_eq!(notifications.len(), 2);
    assert_eq!(notifications[0], Notification::Connected { logical_id: logical, client_id: 11 });
    assert!(matches!(
        notifications[1],
        Notification::Disconnected { client_id: 11, .. }
    ));
}

#[test]
fn exactly_once_notification() {
    let mut ctx = ServerContext::new();
    ctx.process_server_events(vec![TransportEvent::Connected { client_id: 3 }]);
    assert_eq!(ctx.take_notifications().len(), 1);

    // a tick with no events adds no notification
    ctx.process_server_events(Vec::new());
    assert_eq!(ctx.take_notifications().len(), 0);

    // one disconnect event gives exactly one notification
    ctx.process_server_events(vec![TransportEvent::Disconnected {
        client_id: 3,
        cause: DisconnectCause::ByClient,
    }]);
    let notifications = ctx.take_notifications();
    assert_eq!(notifications.len(), 1);
    assert!(matches!(
        notifications[0],
        Notification::Disconnected { client_id: 3, cause: DisconnectCause::ByClient, .. }
    ));
}

#[test]
fn disconnect_for_unknown_peer_is_ignored() {
    let mut ctx = ServerContext::new();
    ctx.process_server_events(vec![TransportEvent::Disconnected {
        client_id: 77,
        cause: DisconnectCause::ByClient,
    }]);
    assert_eq!(ctx.take_notifications().len(), 0);
    assert_eq!(ctx.records.len(), 0);
}

#[test]
fn framework_removal_without_transport() {
    let mut ctx = ServerContext::new();
    ctx.process_server_events(vec![TransportEvent::Connected { client_id: 14 }]);
    let logical = ctx.logical_of(14).expect("pair registered on connect");
    ctx.take_notifications();

    // the framework drops the record while no transport is active: the pair
    // goes away and one forced-disconnect notification is emitted
    ctx.drop_client(logical);
    assert_eq!(ctx.records.len(), 0);
    assert_eq!(ctx.client_of(logical), None);
    let notifications = ctx.take_notifications();
    assert_eq!(notifications.len(), 1);
    assert!(matches!(
        notifications[0],
        Notification::Disconnected { client_id: 14, cause: DisconnectCause::ByServer, .. }
    ));

    // dropping it again is a no-op
    ctx.drop_client(logical);
    assert_eq!(ctx.take_notifications().len(), 0);
}

#[test]
fn running_flag_tracks_transport_presence() {
    let mut ctx = ServerContext::new();
    assert!(!ctx.running);
    ctx.set_running();
    assert!(ctx.running);
    ctx.set_stopped();
    assert!(!ctx.running);
}

#[test]
fn other_disconnect_reason_is_carried_as_text() {
    let registry = registry();
    let mut server = new_server_transport(&registry, 60_000);
    let mut ctx = ServerContext::new();
    server.add_connection(5);
    ctx.process_server_events(convert_events(&mut server));
    ctx.take_notifications();

    // a transport-level teardown is neither of the two well-known causes
    server.remove_connection(5);
    ctx.process_server_events(convert_events(&mut server));
    let notifications = ctx.take_notifications();
    assert_eq!(notifications.len(), 1);
    match &notifications[0] {
        Notification::Disconnected { cause: DisconnectCause::Other(text), .. } => {
            assert!(!text.is_empty());
        },
        other => panic!("expected a textual cause, got {other:?}"),
    }
}

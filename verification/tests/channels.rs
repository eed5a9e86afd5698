//! Channel translation: index-as-id, delivery semantics, budgets and the
//! one-byte id limit.

use replicon_renet::channels::Channel;
use replicon_renet::channels::ChannelEntry;
use replicon_renet::channels::ChannelRegistry;
use replicon_renet::channels::ChannelSettings;
use replicon_renet::channels::SendKind;
use replicon_renet::channels::create_configs;

fn entry(kind: Channel) -> ChannelEntry {
    ChannelEntry { kind, max_bytes: None }
}

#[test]
fn index_becomes_channel_id() {
    let entries = vec![entry(Channel::Unreliable), entry(Channel::Unordered), entry(Channel::Ordered)];
    let configs = create_configs(&entries);
    assert_eq!(configs.len(), 3);
    for (index, config) in configs.iter().enumerate() {
        assert_eq!(config.channel_id, index as u8);
    }
}

#[test]
fn delivery_semantics_follow_kind() {
    let entries = vec![entry(Channel::Unreliable), entry(Channel::Unordered), entry(Channel::Ordered)];
    let configs = create_configs(&entries);
    assert_eq!(configs[0].send_kind, SendKind::Unreliable);
    assert_eq!(configs[1].send_kind, SendKind::ReliableUnordered { resend_millis: 300 });
    assert_eq!(configs[2].send_kind, SendKind::ReliableOrdered { resend_millis: 300 });
}

#[test]
fn default_budget_is_five_mebibytes() {
    let configs = create_configs(&vec![entry(Channel::Ordered)]);
    assert_eq!(configs[0].max_memory_usage_bytes, 5 * 1024 * 1024);
}

#[test]
fn budget_override_is_kept() {
    let entries = vec![ChannelEntry { kind: Channel::Ordered, max_bytes: Some(2048) }];
    let configs = create_configs(&entries);
    assert_eq!(
        configs[0],
        ChannelSettings {
            channel_id: 0,
            max_memory_usage_bytes: 2048,
            send_kind: SendKind::ReliableOrdered { resend_millis: 300 },
        }
    );
}

#[test]
fn conversion_is_idempotent() {
    let mut registry = ChannelRegistry::new();
    registry.add_server_channel(entry(Channel::Unreliable));
    registry.add_server_channel(entry(Channel::Ordered));
    registry.add_client_channel(ChannelEntry { kind: Channel::Unordered, max_bytes: Some(64) });
    assert_eq!(registry.server_configs(), registry.server_configs());
    assert_eq!(registry.client_configs(), registry.client_configs());
}

#[test]
fn empty_registry_gives_empty_configs() {
    let registry = ChannelRegistry::new();
    assert_eq!(registry.server_configs(), Vec::new());
    assert_eq!(registry.client_configs(), Vec::new());
}

#[test]
fn too_many_channels_are_rejected() {
    let mut registry = ChannelRegistry::new();
    for _ in 0..256 {
        registry.add_server_channel(entry(Channel::Unreliable));
    }
    let configs = registry.try_server_configs().expect("256 channels fit one-byte ids");
    assert_eq!(configs.len(), 256);
    assert_eq!(configs[255].channel_id, 255);

    registry.server_channels.push(entry(Channel::Unreliable));
    assert!(registry.try_server_configs().is_none());
    assert!(registry.try_client_configs().is_some());
}

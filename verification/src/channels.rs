//! Channel translation.
//!
//! The replication framework registers two ordered lists of logical channels,
//! one for each direction of traffic. The position of a channel in its list
//! is its numeric id on the wire, so the translation to renet channel
//! configurations must keep index-as-id, and it must attach the delivery
//! semantics and the memory budget that the transport needs.

use vstd::prelude::*;

verus! {

/// Delivery guarantee of a logical replication channel.
#[derive(Clone, Copy, Debug, PartialEq, Eq, Structural)]
pub enum Channel {
    /// Messages may be dropped or may arrive out of order.
    Unreliable,
    /// Messages always arrive, possibly out of order.
    Unordered,
    /// Messages always arrive, in the order they were sent.
    Ordered,
}

/// One registered channel: its delivery kind and an optional override for the
/// per-channel memory budget in bytes.
#[derive(Clone, Copy, Debug, PartialEq, Eq)]
pub struct ChannelEntry {
    pub kind: Channel,
    pub max_bytes: Option<usize>,
}

/// Delivery semantics of a transport channel, with the resend interval in
/// milliseconds for the reliable kinds.
#[derive(Clone, Copy, Debug, PartialEq, Eq, Structural)]
pub enum SendKind {
    Unreliable,
    ReliableUnordered { resend_millis: u64 },
    ReliableOrdered { resend_millis: u64 },
}

/// A transport channel configuration: derived one-to-one from a registered
/// channel, with the registry index as the numeric channel id.
#[derive(Clone, Copy, Debug, PartialEq, Eq, Structural)]
pub struct ChannelSettings {
    pub channel_id: u8,
    pub max_memory_usage_bytes: usize,
    pub send_kind: SendKind,
}

/// Resend interval attached to reliable channels, in milliseconds.
pub const RESEND_MILLIS: u64 = 300;

/// Memory budget of a channel when the registry gives no override: 5 MiB.
pub const DEFAULT_MAX_BYTES: usize = 5 * 1024 * 1024;

/// The most channels one list may hold: the wire encodes a channel id in one
/// byte.
pub const MAX_CHANNELS: usize = 256;

/// Delivery semantics attached to a channel of the given kind.
pub open spec fn send_kind_of(kind: Channel) -> SendKind {
    match kind {
        Channel::Unreliable => SendKind::Unreliable,
        Channel::Unordered => SendKind::ReliableUnordered { resend_millis: RESEND_MILLIS },
        Channel::Ordered => SendKind::ReliableOrdered { resend_millis: RESEND_MILLIS },
    }
}

/// The channel kind that the given delivery semantics stand for.
pub open spec fn kind_of_send(kind: SendKind) -> Channel {
    match kind {
        SendKind::Unreliable => Channel::Unreliable,
        SendKind::ReliableUnordered { .. } => Channel::Unordered,
        SendKind::ReliableOrdered { .. } => Channel::Ordered,
    }
}

/// Memory budget of a registered channel: the override if one was given,
/// otherwise the default.
pub open spec fn budget_of(entry: ChannelEntry) -> usize {
    match entry.max_bytes {
        Some(bytes) => bytes,
        None => DEFAULT_MAX_BYTES,
    }
}

/// The configuration derived from one registered channel at one index.
pub open spec fn config_of(entry: ChannelEntry, id: u8) -> ChannelSettings {
    ChannelSettings {
        channel_id: id,
        max_memory_usage_bytes: budget_of(entry),
        send_kind: send_kind_of(entry.kind),
    }
}

/// The configuration list derived from an ordered channel list: one record
/// per channel, in order, with the index as the id.
pub open spec fn configs_of(entries: Seq<ChannelEntry>) -> Seq<ChannelSettings> {
    Seq::new(entries.len(), |i: int| config_of(entries[i], i as u8))
}

/// Whether some configuration in the list carries the given channel id.
pub open spec fn has_channel_id(configs: Seq<ChannelSettings>, ch: u8) -> bool {
    exists|i: int| 0 <= i < configs.len() && (#[trigger] configs[i]).channel_id == ch
}

/// Converts an ordered channel list into transport channel configurations,
/// keeping index-as-id.
pub fn create_configs(entries: &Vec<ChannelEntry>) -> (configs: Vec<ChannelSettings>)
    requires
        entries@.len() <= MAX_CHANNELS,
    ensures
        configs@ == configs_of(entries@),
{
    let mut configs: Vec<ChannelSettings> = Vec::new();
    let mut i: usize = 0;
    while i < entries.len()
        invariant
            i <= entries@.len() <= MAX_CHANNELS,
            configs@ == configs_of(entries@).take(i as int),
        decreases entries@.len() - i,
    {
        let entry = entries[i];
        let send_kind = match entry.kind {
            Channel::Unreliable => SendKind::Unreliable,
            Channel::Unordered => SendKind::ReliableUnordered { resend_millis: RESEND_MILLIS },
            Channel::Ordered => SendKind::ReliableOrdered { resend_millis: RESEND_MILLIS },
        };
        let max_memory_usage_bytes = match entry.max_bytes {
            Some(bytes) => bytes,
            None => DEFAULT_MAX_BYTES,
        };
        configs.push(ChannelSettings { channel_id: i as u8, max_memory_usage_bytes, send_kind });
        i = i + 1;
        proof {
            assert(configs@ =~= configs_of(entries@).take(i as int));
        }
    }
    proof {
        assert(configs@ =~= configs_of(entries@));
    }
    configs
}

/// The two ordered channel lists that the replication framework registers:
/// channels on which the server originates messages, and channels on which
/// clients originate messages.
#[derive(Clone, Debug)]
pub struct ChannelRegistry {
    pub server_channels: Vec<ChannelEntry>,
    pub client_channels: Vec<ChannelEntry>,
}

impl ChannelRegistry {
    /// An empty registry.
    pub fn new() -> (registry: ChannelRegistry)
        ensures
            registry.server_channels@ =~= Seq::<ChannelEntry>::empty(),
            registry.client_channels@ =~= Seq::<ChannelEntry>::empty(),
    {
        ChannelRegistry { server_channels: Vec::new(), client_channels: Vec::new() }
    }

    /// Registers one more server-originated channel; its id is its position.
    pub fn add_server_channel(&mut self, entry: ChannelEntry) -> (id: u8)
        requires
            old(self).server_channels@.len() < MAX_CHANNELS,
        ensures
            final(self).server_channels@ == old(self).server_channels@.push(entry),
            final(self).client_channels@ == old(self).client_channels@,
            id == old(self).server_channels@.len() as u8,
    {
        let id = self.server_channels.len() as u8;
        self.server_channels.push(entry);
        id
    }

    /// Registers one more client-originated channel; its id is its position.
    pub fn add_client_channel(&mut self, entry: ChannelEntry) -> (id: u8)
        requires
            old(self).client_channels@.len() < MAX_CHANNELS,
        ensures
            final(self).client_channels@ == old(self).client_channels@.push(entry),
            final(self).server_channels@ == old(self).server_channels@,
            id == old(self).client_channels@.len() as u8,
    {
        let id = self.client_channels.len() as u8;
        self.client_channels.push(entry);
        id
    }

    /// Configurations for the server-originated channels.
    pub fn server_configs(&self) -> (configs: Vec<ChannelSettings>)
        requires
            self.server_channels@.len() <= MAX_CHANNELS,
        ensures
            configs@ == configs_of(self.server_channels@),
    {
        create_configs(&self.server_channels)
    }

    /// Configurations for the client-originated channels.
    pub fn client_configs(&self) -> (configs: Vec<ChannelSettings>)
        requires
            self.client_channels@.len() <= MAX_CHANNELS,
        ensures
            configs@ == configs_of(self.client_channels@),
    {
        create_configs(&self.client_channels)
    }

    /// Checked conversion for the server-originated channels: the one
    /// configuration failure is a channel list too long for one-byte ids,
    /// and it is rejected here, before any transport is constructed.
    pub fn try_server_configs(&self) -> (configs: Option<Vec<ChannelSettings>>)
        ensures
            self.server_channels@.len() <= MAX_CHANNELS <==> configs is Some,
            configs matches Some(c) ==> c@ == configs_of(self.server_channels@),
    {
        if self.server_channels.len() <= MAX_CHANNELS {
            Some(create_configs(&self.server_channels))
        } else {
            None
        }
    }

    /// Checked conversion for the client-originated channels.
    pub fn try_client_configs(&self) -> (configs: Option<Vec<ChannelSettings>>)
        ensures
            self.client_channels@.len() <= MAX_CHANNELS <==> configs is Some,
            configs matches Some(c) ==> c@ == configs_of(self.client_channels@),
    {
        if self.client_channels.len() <= MAX_CHANNELS {
            Some(create_configs(&self.client_channels))
        } else {
            None
        }
    }
}

/// In a configuration list derived from a registry the channel ids are
/// exactly the indices, so an id is present exactly when it is below the
/// list's length.
pub proof fn lemma_configs_channel_ids(entries: Seq<ChannelEntry>)
    requires
        entries.len() <= MAX_CHANNELS,
    ensures
        forall|ch: u8| #[trigger]
            has_channel_id(configs_of(entries), ch) <==> (ch as int) < entries.len(),
{
    assert forall|ch: u8| #[trigger]
        has_channel_id(configs_of(entries), ch) <==> (ch as int) < entries.len() by {
        if (ch as int) < entries.len() {
            assert(configs_of(entries)[ch as int].channel_id == ch);
        }
        if has_channel_id(configs_of(entries), ch) {
            let i = choose|i: int|
                0 <= i < configs_of(entries).len() && (#[trigger] configs_of(
                    entries,
                )[i]).channel_id == ch;
            assert(configs_of(entries)[i].channel_id == i as u8);
        }
    }
}

/// Channel id stability: converting a registry to configuration preserves
/// index-as-id and the delivery kind of every channel, and the kind can be
/// read back from the configuration. Together with the exact postcondition of
/// [`create_configs`], which pins the result to `configs_of` alone, this also
/// gives idempotence: converting the same registry twice yields identical
/// configuration lists.
pub proof fn lemma_channel_id_stability(entries: Seq<ChannelEntry>)
    ensures
        configs_of(entries).len() == entries.len(),
        forall|i: int|
            0 <= i < entries.len() ==> (#[trigger] configs_of(entries)[i]).channel_id == i as u8,
        forall|i: int|
            0 <= i < entries.len() ==> (#[trigger] configs_of(entries)[i]).send_kind
                == send_kind_of(entries[i].kind),
        forall|i: int|
            0 <= i < entries.len() ==> kind_of_send((#[trigger] configs_of(entries)[i]).send_kind)
                == entries[i].kind,
{
}

} // verus!

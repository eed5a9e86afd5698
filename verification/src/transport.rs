//! Trusted boundary to the renet transport.
//!
//! Everything the library asks of renet goes through the declarations and
//! wrappers in this module, and nothing else in the crate is trusted. The
//! uninterpreted functions below name the parts of a transport value that the
//! contracts speak about:
//!
//! - `srv_outbound` / `cli_outbound`: the payloads accepted into the send
//!   queue of one channel of one connection, oldest first, and not yet
//!   acknowledged away.
//! - `srv_inbound` / `cli_inbound`: the payloads that successive
//!   `receive_message` calls on one channel of one connection will deliver,
//!   in delivery order.
//! - `srv_room` / `cli_room`: the bytes still free in the send memory budget
//!   of one channel of one connection.
//! - the status functions: renet's per-connection status flags.
//!
//! Each wrapper states only what the renet sources show of the one call its
//! body makes.

use vstd::prelude::*;

use std::time::Duration;

verus! {

#[verifier::external_type_specification]
#[verifier::external_body]
pub struct ExRenetServer(renet::RenetServer);

#[verifier::external_type_specification]
#[verifier::external_body]
pub struct ExRenetClient(renet::RenetClient);

#[verifier::external_type_specification]
#[verifier::external_body]
pub struct ExChannelConfig(renet::ChannelConfig);

/// Whether the channel id is one of the server-to-client channels the
/// server was configured with; sending on any other id is outside renet's
/// contract.
pub uninterp spec fn srv_sendable(server: renet::RenetServer, channel_id: u8) -> bool;

/// Whether the channel id is one of the client-to-server channels the
/// server was configured with.
pub uninterp spec fn srv_receivable(server: renet::RenetServer, channel_id: u8) -> bool;

/// Whether the connection of this client id exists and is in the connected
/// state.
pub uninterp spec fn srv_connected(server: renet::RenetServer, client_id: u64) -> bool;

/// The payloads queued for sending to one client on one channel, oldest
/// first.
pub uninterp spec fn srv_outbound(server: renet::RenetServer, client_id: u64, channel_id: u8) -> Seq<
    Seq<u8>,
>;

/// The payloads that successive receives from one client on one channel will
/// deliver, in delivery order; empty for a missing or disconnected client.
pub uninterp spec fn srv_inbound(server: renet::RenetServer, client_id: u64, channel_id: u8) -> Seq<
    Seq<u8>,
>;

/// The bytes still free in the send memory budget of one channel of one
/// client's connection.
pub uninterp spec fn srv_room(server: renet::RenetServer, client_id: u64, channel_id: u8) -> nat;

/// Whether the channel id is one of the client-to-server channels the client
/// was configured with.
pub uninterp spec fn cli_sendable(client: renet::RenetClient, channel_id: u8) -> bool;

/// Whether the channel id is one of the server-to-client channels the client
/// was configured with.
pub uninterp spec fn cli_receivable(client: renet::RenetClient, channel_id: u8) -> bool;

/// Whether the client's status is connected.
pub uninterp spec fn cli_connected(client: renet::RenetClient) -> bool;

/// Whether the client's status is connecting.
pub uninterp spec fn cli_connecting(client: renet::RenetClient) -> bool;

/// Whether the client's status is disconnected.
pub uninterp spec fn cli_disconnected(client: renet::RenetClient) -> bool;

/// The payloads queued for sending to the server on one channel, oldest
/// first.
pub uninterp spec fn cli_outbound(client: renet::RenetClient, channel_id: u8) -> Seq<Seq<u8>>;

/// The payloads that successive receives on one channel will deliver, in
/// delivery order; empty for a disconnected client.
pub uninterp spec fn cli_inbound(client: renet::RenetClient, channel_id: u8) -> Seq<Seq<u8>>;

/// The bytes still free in the send memory budget of one channel.
pub uninterp spec fn cli_room(client: renet::RenetClient, channel_id: u8) -> nat;

/// Converts one library channel configuration into renet's record, field for
/// field, with the resend interval turned into a duration.
#[verifier::external_body]
pub(crate) fn to_renet_channel(config: &crate::channels::ChannelSettings) -> renet::ChannelConfig {
    renet::ChannelConfig {
        channel_id: config.channel_id,
        max_memory_usage_bytes: config.max_memory_usage_bytes,
        send_type: match config.send_kind {
            crate::channels::SendKind::Unreliable => renet::SendType::Unreliable,
            crate::channels::SendKind::ReliableUnordered { resend_millis } => renet::SendType::ReliableUnordered {
                resend_time: Duration::from_millis(resend_millis),
            },
            crate::channels::SendKind::ReliableOrdered { resend_millis } => renet::SendType::ReliableOrdered {
                resend_time: Duration::from_millis(resend_millis),
            },
        },
    }
}

/// Relies on `RenetServer::new`: the server starts with no connections, and
/// every later connection is built from the given channel lists, so the send
/// channels are exactly the ids of `server_configs` and the receive channels
/// exactly the ids of `client_configs`. renet refuses a duplicate channel id
/// within one list, so those inputs are excluded here.
#[verifier::external_body]
pub(crate) fn renet_server_new(
    available_bytes_per_tick: u64,
    server_configs: &Vec<crate::channels::ChannelSettings>,
    client_configs: &Vec<crate::channels::ChannelSettings>,
) -> (server: renet::RenetServer)
    requires
        forall|i: int, j: int|
            0 <= i < j < server_configs@.len() ==> (#[trigger] server_configs@[i]).channel_id != (
            #[trigger] server_configs@[j]).channel_id,
        forall|i: int, j: int|
            0 <= i < j < client_configs@.len() ==> (#[trigger] client_configs@[i]).channel_id != (
            #[trigger] client_configs@[j]).channel_id,
    ensures
        forall|ch: u8| #[trigger]
            srv_sendable(server, ch) <==> crate::channels::has_channel_id(server_configs@, ch),
        forall|ch: u8| #[trigger]
            srv_receivable(server, ch) <==> crate::channels::has_channel_id(client_configs@, ch),
        forall|c: u64| !(#[trigger] srv_connected(server, c)),
        forall|c: u64, ch: u8| #[trigger] srv_outbound(server, c, ch) =~= Seq::<Seq<u8>>::empty(),
        forall|c: u64, ch: u8| #[trigger] srv_inbound(server, c, ch) =~= Seq::<Seq<u8>>::empty(),
{
    renet::RenetServer::new(renet::ConnectionConfig {
        available_bytes_per_tick,
        server_channels_config: server_configs.iter().map(to_renet_channel).collect(),
        client_channels_config: client_configs.iter().map(to_renet_channel).collect(),
    })
}

/// Relies on `RenetClient::new`: the client starts in the connecting state
/// with empty queues; its send channels are the ids of `client_configs`,
/// each with its whole memory budget free, and its receive channels the ids
/// of `server_configs`. renet refuses a duplicate channel id within one
/// list, so those inputs are excluded here.
#[verifier::external_body]
pub(crate) fn renet_client_new(
    available_bytes_per_tick: u64,
    server_configs: &Vec<crate::channels::ChannelSettings>,
    client_configs: &Vec<crate::channels::ChannelSettings>,
) -> (client: renet::RenetClient)
    requires
        forall|i: int, j: int|
            0 <= i < j < server_configs@.len() ==> (#[trigger] server_configs@[i]).channel_id != (
            #[trigger] server_configs@[j]).channel_id,
        forall|i: int, j: int|
            0 <= i < j < client_configs@.len() ==> (#[trigger] client_configs@[i]).channel_id != (
            #[trigger] client_configs@[j]).channel_id,
    ensures
        forall|ch: u8| #[trigger]
            cli_sendable(client, ch) <==> crate::channels::has_channel_id(client_configs@, ch),
        forall|ch: u8| #[trigger]
            cli_receivable(client, ch) <==> crate::channels::has_channel_id(server_configs@, ch),
        cli_connecting(client),
        !cli_connected(client),
        !cli_disconnected(client),
        forall|ch: u8| #[trigger] cli_outbound(client, ch) =~= Seq::<Seq<u8>>::empty(),
        forall|ch: u8| #[trigger] cli_inbound(client, ch) =~= Seq::<Seq<u8>>::empty(),
        forall|i: int|
            0 <= i < client_configs@.len() ==> cli_room(
                client,
                (#[trigger] client_configs@[i]).channel_id,
            ) >= client_configs@[i].max_memory_usage_bytes,
{
    renet::RenetClient::new(renet::ConnectionConfig {
        available_bytes_per_tick,
        server_channels_config: server_configs.iter().map(to_renet_channel).collect(),
        client_channels_config: client_configs.iter().map(to_renet_channel).collect(),
    })
}

/// Builds a renet server from a channel registry: both channel lists are
/// translated with index-as-id, so the send channels are exactly the ids
/// below the server list's length and the receive channels exactly the ids
/// below the client list's length. The server starts with no connections.
pub fn new_server_transport(
    registry: &crate::channels::ChannelRegistry,
    available_bytes_per_tick: u64,
) -> (server: renet::RenetServer)
    requires
        registry.server_channels@.len() <= crate::channels::MAX_CHANNELS,
        registry.client_channels@.len() <= crate::channels::MAX_CHANNELS,
    ensures
        forall|ch: u8| #[trigger]
            srv_sendable(server, ch) <==> (ch as int) < registry.server_channels@.len(),
        forall|ch: u8| #[trigger]
            srv_receivable(server, ch) <==> (ch as int) < registry.client_channels@.len(),
        forall|c: u64| !(#[trigger] srv_connected(server, c)),
        forall|c: u64, ch: u8| #[trigger] srv_outbound(server, c, ch) =~= Seq::<Seq<u8>>::empty(),
        forall|c: u64, ch: u8| #[trigger] srv_inbound(server, c, ch) =~= Seq::<Seq<u8>>::empty(),
{
    let server_configs = registry.server_configs();
    let client_configs = registry.client_configs();
    proof {
        crate::channels::lemma_configs_channel_ids(registry.server_channels@);
        crate::channels::lemma_configs_channel_ids(registry.client_channels@);
    }
    renet_server_new(available_bytes_per_tick, &server_configs, &client_configs)
}

/// Builds a renet client from a channel registry: its send channels are the
/// ids below the client list's length, each with its whole memory budget
/// free, and its receive channels the ids below the server list's length.
/// The client starts in the connecting state with empty queues.
pub fn new_client_transport(
    registry: &crate::channels::ChannelRegistry,
    available_bytes_per_tick: u64,
) -> (client: renet::RenetClient)
    requires
        registry.server_channels@.len() <= crate::channels::MAX_CHANNELS,
        registry.client_channels@.len() <= crate::channels::MAX_CHANNELS,
    ensures
        forall|ch: u8| #[trigger]
            cli_sendable(client, ch) <==> (ch as int) < registry.client_channels@.len(),
        forall|ch: u8| #[trigger]
            cli_receivable(client, ch) <==> (ch as int) < registry.server_channels@.len(),
        cli_connecting(client),
        !cli_connected(client),
        !cli_disconnected(client),
        forall|ch: u8| #[trigger] cli_outbound(client, ch) =~= Seq::<Seq<u8>>::empty(),
        forall|ch: u8| #[trigger] cli_inbound(client, ch) =~= Seq::<Seq<u8>>::empty(),
        forall|ch: u8|
            (ch as int) < registry.client_channels@.len() ==> #[trigger] cli_room(client, ch)
                >= crate::channels::budget_of(registry.client_channels@[ch as int]),
{
    let server_configs = registry.server_configs();
    let client_configs = registry.client_configs();
    proof {
        crate::channels::lemma_configs_channel_ids(registry.server_channels@);
        crate::channels::lemma_configs_channel_ids(registry.client_channels@);
    }
    let client = renet_client_new(available_bytes_per_tick, &server_configs, &client_configs);
    proof {
        assert forall|ch: u8| (ch as int) < registry.client_channels@.len() implies #[trigger] cli_room(
            client,
            ch,
        ) >= crate::channels::budget_of(registry.client_channels@[ch as int]) by {
            assert(client_configs@[ch as int].channel_id == ch);
            assert(client_configs@[ch as int].max_memory_usage_bytes
                == crate::channels::budget_of(registry.client_channels@[ch as int]));
        }
    }
    client
}

/// Relies on `RenetServer::send_message`: for a connected client with room on
/// the channel, the payload is appended to that channel's send queue and the
/// room shrinks by its length; a missing or disconnected client is left
/// untouched. A connection of a renet server is never in the connecting
/// state, so those are the only cases.
#[verifier::external_body]
pub(crate) fn server_send(
    server: &mut renet::RenetServer,
    client_id: u64,
    channel_id: u8,
    payload: Vec<u8>,
)
    requires
        srv_sendable(*old(server), channel_id),
        srv_connected(*old(server), client_id) ==> payload@.len() <= srv_room(
            *old(server),
            client_id,
            channel_id,
        ),
    ensures
        srv_connected(*old(server), client_id) ==> {
            &&& srv_outbound(*final(server), client_id, channel_id) =~= srv_outbound(
                *old(server),
                client_id,
                channel_id,
            ).push(payload@)
            &&& srv_room(*final(server), client_id, channel_id) == srv_room(
                *old(server),
                client_id,
                channel_id,
            ) - payload@.len()
        },
        !srv_connected(*old(server), client_id) ==> srv_outbound(
            *final(server),
            client_id,
            channel_id,
        ) =~= srv_outbound(*old(server), client_id, channel_id) && srv_room(
            *final(server),
            client_id,
            channel_id,
        ) == srv_room(*old(server), client_id, channel_id),
        forall|c: u64, ch: u8|
            !(c == client_id && ch == channel_id) ==> #[trigger] srv_outbound(*final(server), c, ch)
                =~= srv_outbound(*old(server), c, ch),
        forall|c: u64, ch: u8|
            !(c == client_id && ch == channel_id) ==> #[trigger] srv_room(*final(server), c, ch)
                == srv_room(*old(server), c, ch),
        forall|c: u64, ch: u8| #[trigger]
            srv_inbound(*final(server), c, ch) =~= srv_inbound(*old(server), c, ch),
        forall|c: u64| #[trigger] srv_connected(*final(server), c) == srv_connected(*old(server), c),
        forall|ch: u8| #[trigger] srv_sendable(*final(server), ch) == srv_sendable(*old(server), ch),
        forall|ch: u8| #[trigger]
            srv_receivable(*final(server), ch) == srv_receivable(*old(server), ch),
{
    server.send_message(client_id, channel_id, payload);
}

/// Relies on `RenetServer::receive_message`: delivers the next pending
/// payload from that client on that channel, or nothing when none is
/// pending; nothing else of the server changes.
#[verifier::external_body]
pub(crate) fn server_receive(server: &mut renet::RenetServer, client_id: u64, channel_id: u8) -> (r:
    Option<Vec<u8>>)
    requires
        srv_receivable(*old(server), channel_id),
    ensures
        match r {
            Some(payload) => {
                &&& srv_inbound(*old(server), client_id, channel_id).len() > 0
                &&& payload@ == srv_inbound(*old(server), client_id, channel_id)[0]
                &&& srv_inbound(*final(server), client_id, channel_id) =~= srv_inbound(
                    *old(server),
                    client_id,
                    channel_id,
                ).skip(1)
            },
            None => {
                &&& srv_inbound(*old(server), client_id, channel_id).len() == 0
                &&& srv_inbound(*final(server), client_id, channel_id) =~= srv_inbound(
                    *old(server),
                    client_id,
                    channel_id,
                )
            },
        },
        forall|c: u64, ch: u8|
            !(c == client_id && ch == channel_id) ==> #[trigger] srv_inbound(*final(server), c, ch)
                =~= srv_inbound(*old(server), c, ch),
        forall|c: u64, ch: u8| #[trigger]
            srv_outbound(*final(server), c, ch) =~= srv_outbound(*old(server), c, ch),
        forall|c: u64, ch: u8| #[trigger] srv_room(*final(server), c, ch) == srv_room(*old(server), c, ch),
        forall|c: u64| #[trigger] srv_connected(*final(server), c) == srv_connected(*old(server), c),
        forall|ch: u8| #[trigger] srv_sendable(*final(server), ch) == srv_sendable(*old(server), ch),
        forall|ch: u8| #[trigger]
            srv_receivable(*final(server), ch) == srv_receivable(*old(server), ch),
{
    server.receive_message(client_id, channel_id).map(|payload| payload.to_vec())
}

/// Relies on `RenetServer::disconnect`: the client's connection, if present,
/// leaves the connected state; its queued outbound payloads are not touched,
/// nothing is deliverable from it any more, and every other connection is
/// left alone.
#[verifier::external_body]
pub(crate) fn server_disconnect(server: &mut renet::RenetServer, client_id: u64)
    ensures
        !srv_connected(*final(server), client_id),
        forall|ch: u8| #[trigger]
            srv_inbound(*final(server), client_id, ch) =~= Seq::<Seq<u8>>::empty(),
        forall|c: u64|
            c != client_id ==> #[trigger] srv_connected(*final(server), c) == srv_connected(
                *old(server),
                c,
            ),
        forall|c: u64, ch: u8|
            c != client_id ==> #[trigger] srv_inbound(*final(server), c, ch) =~= srv_inbound(
                *old(server),
                c,
                ch,
            ),
        forall|c: u64, ch: u8| #[trigger]
            srv_outbound(*final(server), c, ch) =~= srv_outbound(*old(server), c, ch),
        forall|c: u64, ch: u8| #[trigger] srv_room(*final(server), c, ch) == srv_room(*old(server), c, ch),
        forall|ch: u8| #[trigger] srv_sendable(*final(server), ch) == srv_sendable(*old(server), ch),
        forall|ch: u8| #[trigger]
            srv_receivable(*final(server), ch) == srv_receivable(*old(server), ch),
{
    server.disconnect(client_id);
}

/// Relies on `RenetClient::send_message`: unless the client is disconnected,
/// a payload that fits the channel's free budget is appended to that
/// channel's send queue; a disconnected client is left untouched.
#[verifier::external_body]
pub(crate) fn client_send(client: &mut renet::RenetClient, channel_id: u8, payload: Vec<u8>)
    requires
        !cli_disconnected(*old(client)) ==> cli_sendable(*old(client), channel_id),
        !cli_disconnected(*old(client)) ==> payload@.len() <= cli_room(*old(client), channel_id),
    ensures
        !cli_disconnected(*old(client)) ==> {
            &&& cli_outbound(*final(client), channel_id) =~= cli_outbound(
                *old(client),
                channel_id,
            ).push(payload@)
            &&& cli_room(*final(client), channel_id) == cli_room(*old(client), channel_id)
                - payload@.len()
        },
        cli_disconnected(*old(client)) ==> cli_outbound(*final(client), channel_id) =~= cli_outbound(
            *old(client),
            channel_id,
        ) && cli_room(*final(client), channel_id) == cli_room(*old(client), channel_id),
        forall|ch: u8|
            ch != channel_id ==> #[trigger] cli_outbound(*final(client), ch) =~= cli_outbound(
                *old(client),
                ch,
            ),
        forall|ch: u8|
            ch != channel_id ==> #[trigger] cli_room(*final(client), ch) == cli_room(
                *old(client),
                ch,
            ),
        forall|ch: u8| #[trigger] cli_inbound(*final(client), ch) =~= cli_inbound(*old(client), ch),
        cli_connected(*final(client)) == cli_connected(*old(client)),
        cli_connecting(*final(client)) == cli_connecting(*old(client)),
        cli_disconnected(*final(client)) == cli_disconnected(*old(client)),
        forall|ch: u8| #[trigger] cli_sendable(*final(client), ch) == cli_sendable(*old(client), ch),
        forall|ch: u8| #[trigger]
            cli_receivable(*final(client), ch) == cli_receivable(*old(client), ch),
{
    client.send_message(channel_id, payload);
}

/// Relies on `RenetClient::receive_message`: delivers the next pending
/// payload on that channel, or nothing when none is pending; nothing else of
/// the client changes.
#[verifier::external_body]
pub(crate) fn client_receive(client: &mut renet::RenetClient, channel_id: u8) -> (r: Option<
    Vec<u8>,
>)
    requires
        !cli_disconnected(*old(client)) ==> cli_receivable(*old(client), channel_id),
    ensures
        match r {
            Some(payload) => {
                &&& cli_inbound(*old(client), channel_id).len() > 0
                &&& payload@ == cli_inbound(*old(client), channel_id)[0]
                &&& cli_inbound(*final(client), channel_id) =~= cli_inbound(
                    *old(client),
                    channel_id,
                ).skip(1)
            },
            None => {
                &&& cli_inbound(*old(client), channel_id).len() == 0
                &&& cli_inbound(*final(client), channel_id) =~= cli_inbound(
                    *old(client),
                    channel_id,
                )
            },
        },
        forall|ch: u8|
            ch != channel_id ==> #[trigger] cli_inbound(*final(client), ch) =~= cli_inbound(
                *old(client),
                ch,
            ),
        forall|ch: u8| #[trigger] cli_outbound(*final(client), ch) =~= cli_outbound(*old(client), ch),
        forall|ch: u8| #[trigger] cli_room(*final(client), ch) == cli_room(*old(client), ch),
        cli_connected(*final(client)) == cli_connected(*old(client)),
        cli_connecting(*final(client)) == cli_connecting(*old(client)),
        cli_disconnected(*final(client)) == cli_disconnected(*old(client)),
        forall|ch: u8| #[trigger] cli_sendable(*final(client), ch) == cli_sendable(*old(client), ch),
        forall|ch: u8| #[trigger]
            cli_receivable(*final(client), ch) == cli_receivable(*old(client), ch),
{
    client.receive_message(channel_id).map(|payload| payload.to_vec())
}

/// Relies on `RenetClient::is_connected`: reports whether the status is
/// connected.
#[verifier::external_body]
pub(crate) fn client_is_connected(client: &renet::RenetClient) -> (r: bool)
    ensures
        r == cli_connected(*client),
{
    client.is_connected()
}

/// Relies on `RenetClient::is_connecting`: reports whether the status is
/// connecting.
#[verifier::external_body]
pub(crate) fn client_is_connecting(client: &renet::RenetClient) -> (r: bool)
    ensures
        r == cli_connecting(*client),
{
    client.is_connecting()
}

/// Relies on `RenetClient::is_disconnected`: reports whether the status is
/// disconnected.
#[verifier::external_body]
pub(crate) fn client_is_disconnected(client: &renet::RenetClient) -> (r: bool)
    ensures
        r == cli_disconnected(*client),
{
    client.is_disconnected()
}

} // verus!

//! Client-side adapter state, status monitor and pumps.
//!
//! A client has a single connection, so there is no identity table: the
//! context holds the framework's connection status, the two message queues,
//! and the monitor's memory of the transport's flags from the previous tick,
//! which turns level-style flags into exactly-once transitions.

use vstd::prelude::*;

verus! {

/// The framework's view of the client's connection.
#[derive(Clone, Copy, Debug, PartialEq, Eq, Structural)]
pub enum ClientStatus {
    /// No connection and none being set up.
    Disconnected,
    /// A connection is being established.
    Connecting,
    /// Connected, with the transport-assigned numeric identity, which first
    /// becomes known at this transition.
    Connected { client_id: u64 },
}

/// A message on one channel, either pulled from or bound for the transport.
#[derive(Clone, Debug, PartialEq, Eq)]
pub struct ChannelMessage {
    pub channel_id: u8,
    pub payload: Vec<u8>,
}

/// The payloads among the messages that travel on one channel, in order.
pub open spec fn messages_on(queue: Seq<ChannelMessage>, channel_id: u8) -> Seq<Seq<u8>>
    decreases queue.len(),
{
    if queue.len() == 0 {
        Seq::empty()
    } else {
        let rest = messages_on(queue.drop_last(), channel_id);
        let m = queue.last();
        if m.channel_id == channel_id {
            rest.push(m.payload@)
        } else {
            rest
        }
    }
}

/// The total payload bytes among the messages on one channel.
pub open spec fn bytes_on(queue: Seq<ChannelMessage>, channel_id: u8) -> int
    decreases queue.len(),
{
    if queue.len() == 0 {
        0
    } else {
        let rest = bytes_on(queue.drop_last(), channel_id);
        let m = queue.last();
        if m.channel_id == channel_id {
            rest + m.payload@.len()
        } else {
            rest
        }
    }
}

proof fn lemma_bytes_on_nonneg(queue: Seq<ChannelMessage>, channel_id: u8)
    ensures
        bytes_on(queue, channel_id) >= 0,
    decreases queue.len(),
{
    if queue.len() > 0 {
        lemma_bytes_on_nonneg(queue.drop_last(), channel_id);
    }
}

proof fn lemma_bytes_on_prefix(queue: Seq<ChannelMessage>, channel_id: u8, j: int)
    requires
        0 <= j <= queue.len(),
    ensures
        bytes_on(queue.take(j), channel_id) <= bytes_on(queue, channel_id),
    decreases queue.len(),
{
    if j == queue.len() {
        assert(queue.take(j) =~= queue);
    } else {
        lemma_bytes_on_nonneg(queue.drop_last(), channel_id);
        assert(queue.take(j) =~= queue.drop_last().take(j));
        lemma_bytes_on_prefix(queue.drop_last(), channel_id, j);
    }
}

/// The status after one monitor pass, given the transport's flags and the
/// edges computed from the previous tick's memory, applied in the fixed
/// order: connecting first, then a fresh disconnection, then a fresh
/// connection.
pub open spec fn next_status(
    status: ClientStatus,
    connecting: bool,
    just_disconnected: bool,
    just_connected: bool,
    client_id: u64,
) -> ClientStatus {
    let after_connecting = if connecting {
        ClientStatus::Connecting
    } else {
        status
    };
    let after_disconnect = if just_disconnected {
        ClientStatus::Disconnected
    } else {
        after_connecting
    };
    if just_connected {
        ClientStatus::Connected { client_id }
    } else {
        after_disconnect
    }
}

/// The client-side adapter context.
pub struct ClientContext {
    /// The framework's connection status.
    pub status: ClientStatus,
    /// Whether the transport reported a live connection last tick.
    pub was_connected: bool,
    /// Whether the transport reported no connection last tick.
    pub was_disconnected: bool,
    /// Messages pulled from the transport and not yet consumed by the
    /// framework.
    pub received: Vec<ChannelMessage>,
    /// Messages queued by the framework and not yet handed to the transport.
    pub outgoing: Vec<ChannelMessage>,
}

impl ClientContext {
    /// A fresh context: disconnected, with empty queues.
    pub fn new() -> (ctx: ClientContext)
        ensures
            ctx.status == ClientStatus::Disconnected,
            !ctx.was_connected,
            ctx.was_disconnected,
            ctx.received@ =~= Seq::<ChannelMessage>::empty(),
            ctx.outgoing@ =~= Seq::<ChannelMessage>::empty(),
    {
        ClientContext {
            status: ClientStatus::Disconnected,
            was_connected: false,
            was_disconnected: true,
            received: Vec::new(),
            outgoing: Vec::new(),
        }
    }

    /// Sets the framework status to disconnected.
    pub fn set_disconnected(&mut self)
        ensures
            *final(self) == (ClientContext { status: ClientStatus::Disconnected, ..*old(self) }),
    {
        self.status = ClientStatus::Disconnected;
    }

    /// Sets the framework status to connecting.
    pub fn set_connecting(&mut self)
        ensures
            *final(self) == (ClientContext { status: ClientStatus::Connecting, ..*old(self) }),
    {
        self.status = ClientStatus::Connecting;
    }

    /// Sets the framework status to connected, capturing the
    /// transport-assigned numeric identity at this exact transition.
    pub fn set_connected(&mut self, client_id: u64)
        ensures
            *final(self) == (ClientContext {
                status: ClientStatus::Connected { client_id },
                ..*old(self)
            }),
    {
        self.status = ClientStatus::Connected { client_id };
    }

    /// One pass of the lifecycle monitor: takes the transport's current
    /// flags — a transport that is absent reports `(false, false, true)` —
    /// and the transport-assigned identity, detects fresh transitions
    /// against last tick's memory, and drives the framework status.
    pub fn update_status(
        &mut self,
        connecting: bool,
        connected: bool,
        disconnected: bool,
        client_id: u64,
    )
        ensures
            final(self).status == next_status(
                old(self).status,
                connecting,
                !old(self).was_disconnected && disconnected,
                !old(self).was_connected && connected,
                client_id,
            ),
            final(self).was_connected == connected,
            final(self).was_disconnected == disconnected,
            final(self).received == old(self).received,
            final(self).outgoing == old(self).outgoing,
    {
        if connecting {
            match self.status {
                ClientStatus::Connecting => {},
                _ => self.set_connecting(),
            }
        }
        if !self.was_disconnected && disconnected {
            self.set_disconnected();
        }
        if !self.was_connected && connected {
            self.set_connected(client_id);
        }
        self.was_connected = connected;
        self.was_disconnected = disconnected;
    }

    /// The framework queues a message for the server.
    pub fn queue_message(&mut self, channel_id: u8, payload: Vec<u8>)
        ensures
            *final(self) == (ClientContext { outgoing: final(self).outgoing, ..*old(self) }),
            final(self).outgoing@ == old(self).outgoing@.push(ChannelMessage {
                channel_id,
                payload,
            }),
    {
        self.outgoing.push(ChannelMessage { channel_id, payload });
    }

    /// The framework consumes everything the inbound pump has delivered.
    pub fn take_received(&mut self) -> (messages: Vec<ChannelMessage>)
        ensures
            *final(self) == (ClientContext { received: final(self).received, ..*old(self) }),
            final(self).received@ =~= Seq::<ChannelMessage>::empty(),
            messages == old(self).received,
    {
        let mut messages: Vec<ChannelMessage> = Vec::new();
        std::mem::swap(&mut messages, &mut self.received);
        messages
    }
}

impl ClientContext {
    /// Pulls every pending message on one channel into the inbound queue, in
    /// delivery order.
    fn drain_channel(&mut self, client: &mut renet::RenetClient, channel_id: u8)
        requires
            !crate::transport::cli_disconnected(*old(client)) ==> crate::transport::cli_receivable(
                *old(client),
                channel_id,
            ),
        ensures
            *final(self) == (ClientContext { received: final(self).received, ..*old(self) }),
            old(self).received@.len() <= final(self).received@.len(),
            final(self).received@.take(old(self).received@.len() as int) == old(self).received@,
            messages_on(final(self).received@, channel_id) =~= messages_on(
                old(self).received@,
                channel_id,
            ) + crate::transport::cli_inbound(*old(client), channel_id),
            forall|ch: u8|
                ch != channel_id ==> #[trigger] messages_on(final(self).received@, ch)
                    =~= messages_on(old(self).received@, ch),
            crate::transport::cli_inbound(*final(client), channel_id) =~= Seq::<Seq<u8>>::empty(),
            forall|ch: u8|
                ch != channel_id ==> #[trigger] crate::transport::cli_inbound(*final(client), ch)
                    =~= crate::transport::cli_inbound(*old(client), ch),
            forall|ch: u8| #[trigger]
                crate::transport::cli_outbound(*final(client), ch) =~= crate::transport::cli_outbound(
                    *old(client),
                    ch,
                ),
            forall|ch: u8| #[trigger]
                crate::transport::cli_room(*final(client), ch) == crate::transport::cli_room(
                    *old(client),
                    ch,
                ),
            crate::transport::cli_connected(*final(client)) == crate::transport::cli_connected(
                *old(client),
            ),
            crate::transport::cli_connecting(*final(client)) == crate::transport::cli_connecting(
                *old(client),
            ),
            crate::transport::cli_disconnected(*final(client))
                == crate::transport::cli_disconnected(*old(client)),
            forall|ch: u8| #[trigger]
                crate::transport::cli_sendable(*final(client), ch)
                    == crate::transport::cli_sendable(*old(client), ch),
            forall|ch: u8| #[trigger]
                crate::transport::cli_receivable(*final(client), ch)
                    == crate::transport::cli_receivable(*old(client), ch),
    {
        let ghost pending = crate::transport::cli_inbound(*old(client), channel_id);
        let ghost mut j: int = 0;
        loop
            invariant
                !crate::transport::cli_disconnected(*client)
                    ==> crate::transport::cli_receivable(*client, channel_id),
                0 <= j <= pending.len(),
                *self == (ClientContext { received: self.received, ..*old(self) }),
                old(self).received@.len() <= self.received@.len(),
                self.received@.take(old(self).received@.len() as int) == old(self).received@,
                messages_on(self.received@, channel_id) =~= messages_on(
                    old(self).received@,
                    channel_id,
                ) + pending.take(j),
                forall|ch: u8|
                    ch != channel_id ==> #[trigger] messages_on(self.received@, ch) =~= messages_on(
                        old(self).received@,
                        ch,
                    ),
                crate::transport::cli_inbound(*client, channel_id) =~= pending.skip(j),
                forall|ch: u8|
                    ch != channel_id ==> #[trigger] crate::transport::cli_inbound(*client, ch)
                        =~= crate::transport::cli_inbound(*old(client), ch),
                forall|ch: u8| #[trigger]
                    crate::transport::cli_outbound(*client, ch)
                        =~= crate::transport::cli_outbound(*old(client), ch),
                forall|ch: u8| #[trigger]
                    crate::transport::cli_room(*client, ch) == crate::transport::cli_room(
                        *old(client),
                        ch,
                    ),
                crate::transport::cli_connected(*client) == crate::transport::cli_connected(
                    *old(client),
                ),
                crate::transport::cli_connecting(*client) == crate::transport::cli_connecting(
                    *old(client),
                ),
                crate::transport::cli_disconnected(*client)
                    == crate::transport::cli_disconnected(*old(client)),
                forall|ch: u8| #[trigger]
                    crate::transport::cli_sendable(*client, ch) == crate::transport::cli_sendable(
                        *old(client),
                        ch,
                    ),
                forall|ch: u8| #[trigger]
                    crate::transport::cli_receivable(*client, ch)
                        == crate::transport::cli_receivable(*old(client), ch),
            ensures
                crate::transport::cli_inbound(*client, channel_id) =~= Seq::<Seq<u8>>::empty(),
                messages_on(self.received@, channel_id) =~= messages_on(
                    old(self).received@,
                    channel_id,
                ) + pending,
            decreases pending.len() - j,
        {
            let ghost received_before = self.received@;
            match crate::transport::client_receive(client, channel_id) {
                Some(payload) => {
                    proof {
                        assert(pending.skip(j).len() > 0);
                        assert(payload@ == pending.skip(j)[0]);
                        assert(pending.skip(j)[0] == pending[j]);
                        assert(pending.skip(j).skip(1) =~= pending.skip(j + 1));
                    }
                    self.received.push(ChannelMessage { channel_id, payload });
                    proof {
                        assert(self.received@.drop_last() =~= received_before);
                        assert(self.received@.take(old(self).received@.len() as int)
                            =~= received_before.take(old(self).received@.len() as int));
                        assert forall|ch: u8| ch != channel_id implies #[trigger] messages_on(
                            self.received@,
                            ch,
                        ) =~= messages_on(old(self).received@, ch) by {
                            assert(messages_on(self.received@, ch) == messages_on(
                                received_before,
                                ch,
                            ));
                        }
                        assert(messages_on(self.received@, channel_id) =~= messages_on(
                            received_before,
                            channel_id,
                        ).push(pending[j]));
                        assert(messages_on(old(self).received@, channel_id) + pending.take(j + 1)
                            =~= (messages_on(old(self).received@, channel_id) + pending.take(
                            j,
                        )).push(pending[j]));
                        j = j + 1;
                    }
                },
                None => {
                    proof {
                        assert(pending.skip(j).len() == 0);
                        assert(pending.take(j) =~= pending);
                    }
                    break ;
                },
            }
        }
    }

    /// The inbound pump: for every registered receive channel, pulls every
    /// pending message from the transport into the inbound queue, in
    /// delivery order, draining each channel fully.
    pub fn receive_packets(&mut self, client: &mut renet::RenetClient, channel_count: u8)
        requires
            !crate::transport::cli_disconnected(*old(client)) ==> forall|ch: u8|
                ch < channel_count ==> crate::transport::cli_receivable(*old(client), ch),
        ensures
            *final(self) == (ClientContext { received: final(self).received, ..*old(self) }),
            old(self).received@.len() <= final(self).received@.len(),
            final(self).received@.take(old(self).received@.len() as int) == old(self).received@,
            forall|ch: u8|
                ch < channel_count ==> #[trigger] messages_on(final(self).received@, ch)
                    =~= messages_on(old(self).received@, ch) + crate::transport::cli_inbound(
                    *old(client),
                    ch,
                ),
            forall|ch: u8|
                ch >= channel_count ==> #[trigger] messages_on(final(self).received@, ch)
                    =~= messages_on(old(self).received@, ch),
            forall|ch: u8|
                ch < channel_count ==> #[trigger] crate::transport::cli_inbound(*final(client), ch)
                    =~= Seq::<Seq<u8>>::empty(),
            forall|ch: u8|
                ch >= channel_count ==> #[trigger] crate::transport::cli_inbound(*final(client), ch)
                    =~= crate::transport::cli_inbound(*old(client), ch),
            forall|ch: u8| #[trigger]
                crate::transport::cli_outbound(*final(client), ch) =~= crate::transport::cli_outbound(
                    *old(client),
                    ch,
                ),
            forall|ch: u8| #[trigger]
                crate::transport::cli_room(*final(client), ch) == crate::transport::cli_room(
                    *old(client),
                    ch,
                ),
            crate::transport::cli_connected(*final(client)) == crate::transport::cli_connected(
                *old(client),
            ),
            crate::transport::cli_connecting(*final(client)) == crate::transport::cli_connecting(
                *old(client),
            ),
            crate::transport::cli_disconnected(*final(client))
                == crate::transport::cli_disconnected(*old(client)),
            forall|ch: u8| #[trigger]
                crate::transport::cli_sendable(*final(client), ch)
                    == crate::transport::cli_sendable(*old(client), ch),
            forall|ch: u8| #[trigger]
                crate::transport::cli_receivable(*final(client), ch)
                    == crate::transport::cli_receivable(*old(client), ch),
    {
        let mut channel_id: u8 = 0;
        while channel_id < channel_count
            invariant
                channel_id <= channel_count,
                !crate::transport::cli_disconnected(*old(client)) ==> forall|ch: u8|
                    ch < channel_count ==> crate::transport::cli_receivable(*old(client), ch),
                *self == (ClientContext { received: self.received, ..*old(self) }),
                old(self).received@.len() <= self.received@.len(),
                self.received@.take(old(self).received@.len() as int) == old(self).received@,
                forall|ch: u8|
                    ch < channel_id ==> #[trigger] messages_on(self.received@, ch) =~= messages_on(
                        old(self).received@,
                        ch,
                    ) + crate::transport::cli_inbound(*old(client), ch),
                forall|ch: u8|
                    ch >= channel_id ==> #[trigger] messages_on(self.received@, ch) =~= messages_on(
                        old(self).received@,
                        ch,
                    ),
                forall|ch: u8|
                    ch < channel_id ==> #[trigger] crate::transport::cli_inbound(*client, ch)
                        =~= Seq::<Seq<u8>>::empty(),
                forall|ch: u8|
                    ch >= channel_id ==> #[trigger] crate::transport::cli_inbound(*client, ch)
                        =~= crate::transport::cli_inbound(*old(client), ch),
                forall|ch: u8| #[trigger]
                    crate::transport::cli_outbound(*client, ch)
                        =~= crate::transport::cli_outbound(*old(client), ch),
                forall|ch: u8| #[trigger]
                    crate::transport::cli_room(*client, ch) == crate::transport::cli_room(
                        *old(client),
                        ch,
                    ),
                crate::transport::cli_connected(*client) == crate::transport::cli_connected(
                    *old(client),
                ),
                crate::transport::cli_connecting(*client) == crate::transport::cli_connecting(
                    *old(client),
                ),
                crate::transport::cli_disconnected(*client)
                    == crate::transport::cli_disconnected(*old(client)),
                forall|ch: u8| #[trigger]
                    crate::transport::cli_sendable(*client, ch) == crate::transport::cli_sendable(
                        *old(client),
                        ch,
                    ),
                forall|ch: u8| #[trigger]
                    crate::transport::cli_receivable(*client, ch)
                        == crate::transport::cli_receivable(*old(client), ch),
            decreases channel_count - channel_id,
        {
            let ghost self_mid = *self;
            self.drain_channel(client, channel_id);
            proof {
                assert(old(self).received@.len() <= self_mid.received@.len());
                assert(self.received@.take(self_mid.received@.len() as int)
                    =~= self_mid.received@);
                assert(self.received@.take(old(self).received@.len() as int)
                    =~= self_mid.received@.take(old(self).received@.len() as int));
            }
            channel_id = channel_id + 1;
        }
    }

    /// The outbound pump: hands every queued message to the transport, one
    /// send per message, in queue order.
    pub fn send_packets(&mut self, client: &mut renet::RenetClient)
        requires
            !crate::transport::cli_disconnected(*old(client)) ==> forall|i: int|
                0 <= i < old(self).outgoing@.len() ==> crate::transport::cli_sendable(
                    *old(client),
                    (#[trigger] old(self).outgoing@[i]).channel_id,
                ),
            !crate::transport::cli_disconnected(*old(client)) ==> forall|ch: u8|
                #[trigger] bytes_on(old(self).outgoing@, ch) <= crate::transport::cli_room(
                    *old(client),
                    ch,
                ),
        ensures
            *final(self) == (ClientContext { outgoing: final(self).outgoing, ..*old(self) }),
            final(self).outgoing@ =~= Seq::<ChannelMessage>::empty(),
            !crate::transport::cli_disconnected(*old(client)) ==> forall|ch: u8|
                #[trigger] crate::transport::cli_outbound(*final(client), ch)
                    =~= crate::transport::cli_outbound(*old(client), ch) + messages_on(
                    old(self).outgoing@,
                    ch,
                ),
            crate::transport::cli_disconnected(*old(client)) ==> forall|ch: u8|
                #[trigger] crate::transport::cli_outbound(*final(client), ch)
                    =~= crate::transport::cli_outbound(*old(client), ch),
            forall|ch: u8| #[trigger]
                crate::transport::cli_inbound(*final(client), ch) =~= crate::transport::cli_inbound(
                    *old(client),
                    ch,
                ),
            crate::transport::cli_connected(*final(client)) == crate::transport::cli_connected(
                *old(client),
            ),
            crate::transport::cli_connecting(*final(client)) == crate::transport::cli_connecting(
                *old(client),
            ),
            crate::transport::cli_disconnected(*final(client))
                == crate::transport::cli_disconnected(*old(client)),
            forall|ch: u8| #[trigger]
                crate::transport::cli_sendable(*final(client), ch)
                    == crate::transport::cli_sendable(*old(client), ch),
            forall|ch: u8| #[trigger]
                crate::transport::cli_receivable(*final(client), ch)
                    == crate::transport::cli_receivable(*old(client), ch),
    {
        let ghost all_msgs = self.outgoing@;
        let mut k: usize = 0;
        let total: usize = self.outgoing.len();
        let ghost n = total as nat;
        while self.outgoing.len() > 0
            invariant
                k + self.outgoing@.len() == n,
                n <= usize::MAX,
                all_msgs.len() == n,
                self.outgoing@ == all_msgs.skip(k as int),
                *self == (ClientContext { outgoing: self.outgoing, ..*old(self) }),
                !crate::transport::cli_disconnected(*old(client)) ==> forall|i: int|
                    0 <= i < all_msgs.len() ==> crate::transport::cli_sendable(
                        *old(client),
                        (#[trigger] all_msgs[i]).channel_id,
                    ),
                !crate::transport::cli_disconnected(*old(client)) ==> forall|ch: u8|
                    #[trigger] bytes_on(all_msgs, ch) <= crate::transport::cli_room(
                        *old(client),
                        ch,
                    ),
                !crate::transport::cli_disconnected(*old(client)) ==> forall|ch: u8|
                    #[trigger] crate::transport::cli_outbound(*client, ch)
                        =~= crate::transport::cli_outbound(*old(client), ch) + messages_on(
                        all_msgs.take(k as int),
                        ch,
                    ),
                !crate::transport::cli_disconnected(*old(client)) ==> forall|ch: u8|
                    #[trigger] crate::transport::cli_room(*client, ch)
                        == crate::transport::cli_room(*old(client), ch) - bytes_on(
                        all_msgs.take(k as int),
                        ch,
                    ),
                crate::transport::cli_disconnected(*old(client)) ==> forall|ch: u8|
                    #[trigger] crate::transport::cli_outbound(*client, ch)
                        =~= crate::transport::cli_outbound(*old(client), ch),
                forall|ch: u8| #[trigger]
                    crate::transport::cli_inbound(*client, ch) =~= crate::transport::cli_inbound(
                        *old(client),
                        ch,
                    ),
                crate::transport::cli_connected(*client) == crate::transport::cli_connected(
                    *old(client),
                ),
                crate::transport::cli_connecting(*client) == crate::transport::cli_connecting(
                    *old(client),
                ),
                crate::transport::cli_disconnected(*client)
                    == crate::transport::cli_disconnected(*old(client)),
                forall|ch: u8| #[trigger]
                    crate::transport::cli_sendable(*client, ch) == crate::transport::cli_sendable(
                        *old(client),
                        ch,
                    ),
                forall|ch: u8| #[trigger]
                    crate::transport::cli_receivable(*client, ch)
                        == crate::transport::cli_receivable(*old(client), ch),
            decreases self.outgoing@.len(),
        {
            let ghost client_before = *client;
            let message = self.outgoing.remove(0);
            proof {
                assert(message == all_msgs[k as int]);
                assert(self.outgoing@ =~= all_msgs.skip(k as int + 1));
                if !crate::transport::cli_disconnected(*client) {
                    let ch = message.channel_id;
                    assert(all_msgs.take(k as int + 1).drop_last() =~= all_msgs.take(k as int));
                    lemma_bytes_on_prefix(all_msgs, ch, k as int + 1);
                    lemma_bytes_on_nonneg(all_msgs.take(k as int), ch);
                }
            }
            crate::transport::client_send(client, message.channel_id, message.payload);
            k = k + 1;
            proof {
                let m = all_msgs[k as int - 1];
                if !crate::transport::cli_disconnected(*old(client)) {
                    assert forall|ch: u8| #[trigger]
                        crate::transport::cli_outbound(*client, ch)
                        =~= crate::transport::cli_outbound(*old(client), ch) + messages_on(
                        all_msgs.take(k as int),
                        ch,
                    ) by {
                        assert(all_msgs.take(k as int).drop_last() =~= all_msgs.take(k as int - 1));
                        assert(all_msgs.take(k as int).last() == m);
                        if ch == m.channel_id {
                            assert(crate::transport::cli_outbound(*client, ch)
                                =~= crate::transport::cli_outbound(client_before, ch).push(
                                m.payload@,
                            ));
                            assert(crate::transport::cli_outbound(*old(client), ch) + messages_on(
                                all_msgs.take(k as int),
                                ch,
                            ) =~= (crate::transport::cli_outbound(*old(client), ch) + messages_on(
                                all_msgs.take(k as int - 1),
                                ch,
                            )).push(m.payload@));
                        } else {
                            assert(messages_on(all_msgs.take(k as int), ch) == messages_on(
                                all_msgs.take(k as int - 1),
                                ch,
                            ));
                        }
                    }
                    assert forall|ch: u8| #[trigger]
                        crate::transport::cli_room(*client, ch) == crate::transport::cli_room(
                        *old(client),
                        ch,
                    ) - bytes_on(all_msgs.take(k as int), ch) by {
                        assert(all_msgs.take(k as int).drop_last() =~= all_msgs.take(k as int - 1));
                        assert(all_msgs.take(k as int).last() == m);
                        if ch == m.channel_id {
                            assert(bytes_on(all_msgs.take(k as int), ch) == bytes_on(
                                all_msgs.take(k as int - 1),
                                ch,
                            ) + m.payload@.len());
                        } else {
                            assert(bytes_on(all_msgs.take(k as int), ch) == bytes_on(
                                all_msgs.take(k as int - 1),
                                ch,
                            ));
                        }
                    }
                }
            }
        }
        proof {
            assert(all_msgs.take(n as int) =~= all_msgs);
        }
    }

    /// The pre-update phase of one tick on the client, in the required
    /// order: the monitor drives the framework status from the transport's
    /// flags, then — only while the transport reports a live connection —
    /// the inbound pump drains every channel.
    pub fn client_pre_update(
        &mut self,
        client: &mut renet::RenetClient,
        transport_client_id: u64,
        channel_count: u8,
    )
        requires
            !crate::transport::cli_disconnected(*old(client)) ==> forall|ch: u8|
                ch < channel_count ==> crate::transport::cli_receivable(*old(client), ch),
        ensures
            final(self).status == next_status(
                old(self).status,
                crate::transport::cli_connecting(*old(client)),
                !old(self).was_disconnected && crate::transport::cli_disconnected(*old(client)),
                !old(self).was_connected && crate::transport::cli_connected(*old(client)),
                transport_client_id,
            ),
            final(self).was_connected == crate::transport::cli_connected(*old(client)),
            final(self).was_disconnected == crate::transport::cli_disconnected(*old(client)),
            final(self).outgoing == old(self).outgoing,
            final(self).received@.take(old(self).received@.len() as int) == old(self).received@,
            crate::transport::cli_connected(*old(client)) ==> forall|ch: u8|
                ch < channel_count ==> #[trigger] messages_on(final(self).received@, ch)
                    =~= messages_on(old(self).received@, ch) + crate::transport::cli_inbound(
                    *old(client),
                    ch,
                ),
            !crate::transport::cli_connected(*old(client)) ==> final(self).received == old(
                self,
            ).received,
            forall|ch: u8| #[trigger]
                crate::transport::cli_outbound(*final(client), ch) =~= crate::transport::cli_outbound(
                    *old(client),
                    ch,
                ),
            crate::transport::cli_connected(*final(client)) == crate::transport::cli_connected(
                *old(client),
            ),
            crate::transport::cli_connecting(*final(client)) == crate::transport::cli_connecting(
                *old(client),
            ),
            crate::transport::cli_disconnected(*final(client))
                == crate::transport::cli_disconnected(*old(client)),
            forall|ch: u8| #[trigger]
                crate::transport::cli_sendable(*final(client), ch)
                    == crate::transport::cli_sendable(*old(client), ch),
            forall|ch: u8| #[trigger]
                crate::transport::cli_receivable(*final(client), ch)
                    == crate::transport::cli_receivable(*old(client), ch),
            forall|ch: u8| #[trigger]
                crate::transport::cli_room(*final(client), ch) == crate::transport::cli_room(
                    *old(client),
                    ch,
                ),
    {
        let connecting = crate::transport::client_is_connecting(client);
        let connected = crate::transport::client_is_connected(client);
        let disconnected = crate::transport::client_is_disconnected(client);
        self.update_status(connecting, connected, disconnected, transport_client_id);
        if connected {
            self.receive_packets(client, channel_count);
        } else {
            proof {
                assert(self.received@.take(old(self).received@.len() as int) =~= old(
                    self,
                ).received@);
            }
        }
    }

    /// The post-update phase of one tick on the client: while the transport
    /// reports a live connection, the outbound pump hands every queued
    /// message over; otherwise the queue is left for a later tick.
    pub fn client_post_update(&mut self, client: &mut renet::RenetClient)
        requires
            !crate::transport::cli_disconnected(*old(client)) ==> forall|i: int|
                0 <= i < old(self).outgoing@.len() ==> crate::transport::cli_sendable(
                    *old(client),
                    (#[trigger] old(self).outgoing@[i]).channel_id,
                ),
            !crate::transport::cli_disconnected(*old(client)) ==> forall|ch: u8|
                #[trigger] bytes_on(old(self).outgoing@, ch) <= crate::transport::cli_room(
                    *old(client),
                    ch,
                ),
        ensures
            crate::transport::cli_connected(*old(client)) ==> {
                &&& final(self).outgoing@ =~= Seq::<ChannelMessage>::empty()
                &&& !crate::transport::cli_disconnected(*old(client)) ==> forall|ch: u8|
                    #[trigger] crate::transport::cli_outbound(*final(client), ch)
                        =~= crate::transport::cli_outbound(*old(client), ch) + messages_on(
                        old(self).outgoing@,
                        ch,
                    )
            },
            !crate::transport::cli_connected(*old(client)) ==> *final(self) == *old(self)
                && *final(client) == *old(client),
            final(self).status == old(self).status,
            final(self).received == old(self).received,
            crate::transport::cli_connected(*final(client)) == crate::transport::cli_connected(
                *old(client),
            ),
    {
        if crate::transport::client_is_connected(client) {
            self.send_packets(client);
        }
    }
}

/// Exactly-once transitions on the client: when the transport's flags are
/// the projections of one connection status — so no two of them hold at once
/// — a second monitor pass over an unchanged transport leaves the framework
/// status exactly where the first pass put it: one transport transition,
/// one framework transition.
pub proof fn lemma_client_exactly_once(
    status: ClientStatus,
    was_connected: bool,
    was_disconnected: bool,
    connecting: bool,
    connected: bool,
    disconnected: bool,
    client_id: u64,
)
    requires
        connecting ==> !connected && !disconnected,
        connected ==> !connecting && !disconnected,
        disconnected ==> !connecting && !connected,
    ensures
        ({
            let first = next_status(
                status,
                connecting,
                !was_disconnected && disconnected,
                !was_connected && connected,
                client_id,
            );
            let second = next_status(
                first,
                connecting,
                !disconnected && disconnected,
                !connected && connected,
                client_id,
            );
            second == first
        }),
{
}

} // verus!

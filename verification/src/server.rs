//! Server-side adapter state and lifecycle.
//!
//! The replication framework's view of the server — the running flag, the
//! table of connected peers, the inbound and outbound message queues and the
//! pending disconnect requests — lives in one explicitly owned context that
//! the per-tick phase functions take. The lifecycle monitor turns transport
//! connect and disconnect events into connection records, identity pairs and
//! notifications, exactly once per event.

use vstd::prelude::*;

use crate::identity::IdentityBridge;

verus! {

/// Why a connection ended: the two well-known causes, or any other reason
/// carried as text.
#[derive(Clone, Debug, PartialEq, Eq)]
pub enum DisconnectCause {
    ByClient,
    ByServer,
    Other(String),
}

/// A discrete connection lifecycle event reported by the transport.
#[derive(Clone, Debug, PartialEq, Eq)]
pub enum TransportEvent {
    Connected { client_id: u64 },
    Disconnected { client_id: u64, cause: DisconnectCause },
}

/// A lifecycle notification surfaced to the replication framework, exactly
/// once per transition.
#[derive(Clone, Debug, PartialEq, Eq)]
pub enum Notification {
    Connected { logical_id: u64, client_id: u64 },
    Disconnected { logical_id: u64, client_id: u64, cause: DisconnectCause },
}

/// The record of one connected peer: its identity pair and the largest
/// payload one message may carry.
#[derive(Clone, Copy, Debug, PartialEq, Eq, Structural)]
pub struct ConnectionRecord {
    pub logical_id: u64,
    pub client_id: u64,
    pub max_payload: u64,
}

/// The largest payload of a single packet the transport builds.
pub const MAX_PAYLOAD_BYTES: u64 = 1200;

/// A message queued by the framework for one connected peer.
#[derive(Clone, Debug, PartialEq, Eq)]
pub struct OutboundMessage {
    pub logical_id: u64,
    pub channel_id: u8,
    pub payload: Vec<u8>,
}

/// A message pulled from the transport, tagged with the logical handle of
/// its sender.
#[derive(Clone, Debug, PartialEq, Eq)]
pub struct InboundMessage {
    pub logical_id: u64,
    pub channel_id: u8,
    pub payload: Vec<u8>,
}

/// The server-side adapter context: everything this layer owns, written by
/// the lifecycle monitor and read by the pumps within the fixed phase order
/// of a tick.
pub struct ServerContext {
    /// Whether a server transport is currently active.
    pub running: bool,
    /// One record per connected peer.
    pub records: Vec<ConnectionRecord>,
    /// The identity pairs of the connected peers.
    pub bridge: IdentityBridge,
    /// Messages pulled from the transport and not yet consumed by the
    /// framework.
    pub received: Vec<InboundMessage>,
    /// Messages queued by the framework and not yet handed to the transport.
    pub outgoing: Vec<OutboundMessage>,
    /// Lifecycle notifications surfaced to the framework.
    pub notifications: Vec<Notification>,
    /// Logical handles whose disconnection the framework has requested.
    pub disconnect_requests: Vec<u64>,
}

impl ServerContext {
    /// The records and the bridge agree: every record's pair is in the
    /// bridge, every bridge pair has its record, and no logical handle has
    /// two records.
    pub open spec fn wf(self) -> bool {
        &&& self.bridge.wf()
        &&& forall|i: int|
            0 <= i < self.records@.len() ==> {
                let r = #[trigger] self.records@[i];
                self.bridge.map().contains_key(r.logical_id) && self.bridge.map()[r.logical_id]
                    == r.client_id
            }
        &&& forall|i: int, j: int|
            0 <= i < j < self.records@.len() ==> (#[trigger] self.records@[i]).logical_id != (
            #[trigger] self.records@[j]).logical_id
        &&& forall|l: u64| #[trigger]
            self.bridge.map().contains_key(l) ==> exists|i: int|
                0 <= i < self.records@.len() && (#[trigger] self.records@[i]).logical_id == l
    }

    /// A fresh context: stopped, with no peers and empty queues.
    pub fn new() -> (ctx: ServerContext)
        ensures
            ctx.wf(),
            !ctx.running,
            ctx.records@ =~= Seq::<ConnectionRecord>::empty(),
            ctx.bridge.map() =~= Map::<u64, u64>::empty(),
            ctx.bridge.rev_map() =~= Map::<u64, u64>::empty(),
            ctx.bridge.next() == 0,
            ctx.received@ =~= Seq::<InboundMessage>::empty(),
            ctx.outgoing@ =~= Seq::<OutboundMessage>::empty(),
            ctx.notifications@ =~= Seq::<Notification>::empty(),
            ctx.disconnect_requests@ =~= Seq::<u64>::empty(),
    {
        ServerContext {
            running: false,
            records: Vec::new(),
            bridge: IdentityBridge::new(),
            received: Vec::new(),
            outgoing: Vec::new(),
            notifications: Vec::new(),
            disconnect_requests: Vec::new(),
        }
    }

    /// Marks the server transport as active; runs the tick it appears.
    pub fn set_running(&mut self)
        ensures
            *final(self) == (ServerContext { running: true, ..*old(self) }),
    {
        self.running = true;
    }

    /// Marks the server transport as gone; runs the tick it is removed.
    pub fn set_stopped(&mut self)
        ensures
            *final(self) == (ServerContext { running: false, ..*old(self) }),
    {
        self.running = false;
    }

    /// The framework queues a message for a connected peer.
    pub fn queue_message(&mut self, logical_id: u64, channel_id: u8, payload: Vec<u8>)
        ensures
            *final(self) == (ServerContext {
                outgoing: final(self).outgoing,
                ..*old(self)
            }),
            final(self).outgoing@ == old(self).outgoing@.push(OutboundMessage {
                logical_id,
                channel_id,
                payload,
            }),
    {
        self.outgoing.push(OutboundMessage { logical_id, channel_id, payload });
    }

    /// The framework asks for a peer to be disconnected; the request is
    /// applied at the end of the tick, after outgoing messages are flushed.
    pub fn request_disconnect(&mut self, logical_id: u64)
        ensures
            *final(self) == (ServerContext {
                disconnect_requests: final(self).disconnect_requests,
                ..*old(self)
            }),
            final(self).disconnect_requests@ == old(self).disconnect_requests@.push(logical_id),
    {
        self.disconnect_requests.push(logical_id);
    }

    /// The framework consumes everything the inbound pump has delivered.
    pub fn take_received(&mut self) -> (messages: Vec<InboundMessage>)
        ensures
            *final(self) == (ServerContext { received: final(self).received, ..*old(self) }),
            final(self).received@ =~= Seq::<InboundMessage>::empty(),
            messages == old(self).received,
    {
        let mut messages: Vec<InboundMessage> = Vec::new();
        std::mem::swap(&mut messages, &mut self.received);
        messages
    }

    /// The framework consumes the pending lifecycle notifications.
    pub fn take_notifications(&mut self) -> (notifications: Vec<Notification>)
        ensures
            *final(self) == (ServerContext {
                notifications: final(self).notifications,
                ..*old(self)
            }),
            final(self).notifications@ =~= Seq::<Notification>::empty(),
            notifications == old(self).notifications,
    {
        let mut notifications: Vec<Notification> = Vec::new();
        std::mem::swap(&mut notifications, &mut self.notifications);
        notifications
    }

    /// The logical handle currently paired with a transport client id.
    pub fn logical_of(&self, client_id: u64) -> (logical: Option<u64>)
        ensures
            logical == if self.bridge.rev_map().contains_key(client_id) {
                Some(self.bridge.rev_map()[client_id])
            } else {
                None::<u64>
            },
    {
        self.bridge.resolve_back(client_id)
    }

    /// The transport client id currently paired with a logical handle.
    pub fn client_of(&self, logical_id: u64) -> (client: Option<u64>)
        ensures
            client == if self.bridge.map().contains_key(logical_id) {
                Some(self.bridge.map()[logical_id])
            } else {
                None::<u64>
            },
    {
        self.bridge.resolve(logical_id)
    }

    /// A transport reported a new connection: creates the connection record,
    /// registers the identity pair and emits exactly one notification.
    pub fn apply_connect(&mut self, client_id: u64) -> (logical: u64)
        requires
            old(self).wf(),
            !old(self).bridge.rev_map().contains_key(client_id),
            old(self).bridge.next() < u64::MAX,
        ensures
            final(self).wf(),
            logical == old(self).bridge.next(),
            !old(self).bridge.map().contains_key(logical),
            final(self).records@ == old(self).records@.push(ConnectionRecord {
                logical_id: logical,
                client_id,
                max_payload: MAX_PAYLOAD_BYTES,
            }),
            final(self).bridge.map() == old(self).bridge.map().insert(logical, client_id),
            final(self).bridge.rev_map() == old(self).bridge.rev_map().insert(client_id, logical),
            final(self).bridge.next() == old(self).bridge.next() + 1,
            final(self).notifications@ == old(self).notifications@.push(Notification::Connected {
                logical_id: logical,
                client_id,
            }),
            final(self).running == old(self).running,
            final(self).received == old(self).received,
            final(self).outgoing == old(self).outgoing,
            final(self).disconnect_requests == old(self).disconnect_requests,
    {
        let logical = self.bridge.register(client_id);
        self.records.push(ConnectionRecord {
            logical_id: logical,
            client_id,
            max_payload: MAX_PAYLOAD_BYTES,
        });
        self.notifications.push(Notification::Connected { logical_id: logical, client_id });
        proof {
            assert forall|l: u64| #[trigger] self.bridge.map().contains_key(l) implies exists|i: int|
                0 <= i < self.records@.len() && (#[trigger] self.records@[i]).logical_id == l by {
                if l == logical {
                    assert(self.records@[self.records@.len() - 1].logical_id == l);
                } else {
                    assert(old(self).bridge.map().contains_key(l));
                    let i = choose|i: int|
                        0 <= i < old(self).records@.len() && (#[trigger] old(
                            self,
                        ).records@[i]).logical_id == l;
                    assert(self.records@[i].logical_id == l);
                }
            }
        }
        logical
    }

    /// A transport reported a disconnection: destroys the connection record
    /// and the identity pair and emits exactly one notification, with the
    /// reported cause. A peer whose record is already gone — for example
    /// removed by the framework itself — is ignored.
    pub fn apply_disconnect(&mut self, client_id: u64, cause: DisconnectCause)
        requires
            old(self).wf(),
        ensures
            final(self).wf(),
            old(self).bridge.rev_map().contains_key(client_id) ==> {
                let logical = old(self).bridge.rev_map()[client_id];
                &&& exists|i: int|
                    0 <= i < old(self).records@.len() && (#[trigger] old(
                        self,
                    ).records@[i]).logical_id == logical && old(self).records@[i].client_id
                        == client_id && final(self).records@ == old(self).records@.remove(i)
                &&& final(self).bridge.map() == old(self).bridge.map().remove(logical)
                &&& final(self).bridge.rev_map() == old(self).bridge.rev_map().remove(client_id)
                &&& final(self).notifications@ == old(self).notifications@.push(
                    Notification::Disconnected { logical_id: logical, client_id, cause },
                )
            },
            !old(self).bridge.rev_map().contains_key(client_id) ==> {
                &&& final(self).records == old(self).records
                &&& final(self).bridge.map() == old(self).bridge.map()
                &&& final(self).bridge.rev_map() == old(self).bridge.rev_map()
                &&& final(self).notifications == old(self).notifications
            },
            final(self).bridge.next() == old(self).bridge.next(),
            final(self).running == old(self).running,
            final(self).received == old(self).received,
            final(self).outgoing == old(self).outgoing,
            final(self).disconnect_requests == old(self).disconnect_requests,
    {
        let logical = match self.bridge.resolve_back(client_id) {
            Some(logical) => logical,
            None => {
                return ;
            },
        };
        let mut i: usize = 0;
        let mut found: bool = false;
        while i < self.records.len() && !found
            invariant
                self == old(self),
                old(self).bridge.rev_map().contains_key(client_id),
                logical == old(self).bridge.rev_map()[client_id],
                i <= self.records@.len(),
                !found ==> forall|j: int|
                    0 <= j < i ==> (#[trigger] self.records@[j]).logical_id != logical,
                found ==> i < self.records@.len() && self.records@[i as int].logical_id == logical,
            decreases self.records@.len() - i + if found {
                0int
            } else {
                1int
            },
        {
            if self.records[i].logical_id == logical {
                found = true;
            } else {
                i = i + 1;
            }
        }
        proof {
            // The bridge maps the pair, so its record exists; the scan found
            // the first occurrence.
            assert(old(self).bridge.map().contains_key(logical));
            if !found {
                let k = choose|k: int|
                    0 <= k < self.records@.len() && (#[trigger] self.records@[k]).logical_id
                        == logical;
                assert(false);
            }
            assert(self.records@[i as int].client_id == client_id);
        }
        self.records.remove(i);
        self.bridge.unregister(logical);
        self.notifications.push(Notification::Disconnected {
            logical_id: logical,
            client_id,
            cause,
        });
        proof {
            let ghost old_records = old(self).records@;
            assert forall|k: int, j: int|
                0 <= k < j < self.records@.len() implies (#[trigger] self.records@[k]).logical_id
                != (#[trigger] self.records@[j]).logical_id by {
                if j < i as int {
                    assert(self.records@[k] == old_records[k]);
                    assert(self.records@[j] == old_records[j]);
                } else if k < i as int {
                    assert(self.records@[k] == old_records[k]);
                    assert(self.records@[j] == old_records[j + 1]);
                } else {
                    assert(self.records@[k] == old_records[k + 1]);
                    assert(self.records@[j] == old_records[j + 1]);
                }
            }
            assert forall|idx: int| 0 <= idx < self.records@.len() implies {
                let r = #[trigger] self.records@[idx];
                self.bridge.map().contains_key(r.logical_id) && self.bridge.map()[r.logical_id]
                    == r.client_id
            } by {
                if idx < i as int {
                    assert(self.records@[idx] == old_records[idx]);
                } else {
                    assert(self.records@[idx] == old_records[idx + 1]);
                }
                let r = self.records@[idx];
                assert(old(self).bridge.map().contains_key(r.logical_id));
                if r.logical_id == logical {
                    // Two distinct records would share the removed handle.
                    assert(false);
                }
            }
            assert forall|l: u64| #[trigger] self.bridge.map().contains_key(l) implies exists|k: int|
                0 <= k < self.records@.len() && (#[trigger] self.records@[k]).logical_id == l by {
                assert(old(self).bridge.map().contains_key(l));
                let k = choose|k: int|
                    0 <= k < old_records.len() && (#[trigger] old_records[k]).logical_id == l;
                if k < i as int {
                    assert(self.records@[k].logical_id == l);
                } else if k > i as int {
                    assert(self.records@[k - 1].logical_id == l);
                } else {
                    assert(false);
                }
            }
        }
    }
}

/// The lifecycle-relevant part of a [`ServerContext`]: what the connect and
/// disconnect transitions read and write.
pub struct LifecycleView {
    pub records: Seq<ConnectionRecord>,
    pub fwd: Map<u64, u64>,
    pub rev: Map<u64, u64>,
    pub next: int,
    pub notifications: Seq<Notification>,
}

/// The lifecycle view of a context.
pub open spec fn lifecycle_of(ctx: ServerContext) -> LifecycleView {
    LifecycleView {
        records: ctx.records@,
        fwd: ctx.bridge.map(),
        rev: ctx.bridge.rev_map(),
        next: ctx.bridge.next() as int,
        notifications: ctx.notifications@,
    }
}

/// One lifecycle transition: what a single transport event does to the
/// records, the identity pairs and the notifications. A connect for a client
/// id that is already paired, or a disconnect for one that is not, does
/// nothing.
pub open spec fn lifecycle_step(v: LifecycleView, event: TransportEvent) -> LifecycleView {
    match event {
        TransportEvent::Connected { client_id } => {
            if v.rev.contains_key(client_id) {
                v
            } else {
                let logical = v.next as u64;
                LifecycleView {
                    records: v.records.push(ConnectionRecord {
                        logical_id: logical,
                        client_id,
                        max_payload: MAX_PAYLOAD_BYTES,
                    }),
                    fwd: v.fwd.insert(logical, client_id),
                    rev: v.rev.insert(client_id, logical),
                    next: v.next + 1,
                    notifications: v.notifications.push(Notification::Connected {
                        logical_id: logical,
                        client_id,
                    }),
                }
            }
        },
        TransportEvent::Disconnected { client_id, cause } => {
            if v.rev.contains_key(client_id) {
                let logical = v.rev[client_id];
                let i = choose|i: int|
                    0 <= i < v.records.len() && (#[trigger] v.records[i]).logical_id == logical;
                LifecycleView {
                    records: v.records.remove(i),
                    fwd: v.fwd.remove(logical),
                    rev: v.rev.remove(client_id),
                    next: v.next,
                    notifications: v.notifications.push(Notification::Disconnected {
                        logical_id: logical,
                        client_id,
                        cause,
                    }),
                }
            } else {
                v
            }
        },
    }
}

/// The lifecycle transitions of a whole event list, first to last.
pub open spec fn lifecycle_run(v: LifecycleView, events: Seq<TransportEvent>) -> LifecycleView
    decreases events.len(),
{
    if events.len() == 0 {
        v
    } else {
        lifecycle_step(lifecycle_run(v, events.drop_last()), events.last())
    }
}

impl ServerContext {
    /// Drives the framework's view of who is connected from the transport's
    /// event stream: one lifecycle transition per event, in order. Runs at
    /// the start of the pre-update phase, before the inbound pump, so that
    /// new connections are visible before their first messages and stale
    /// messages of lost connections are never misattributed.
    pub fn process_server_events(&mut self, events: Vec<TransportEvent>)
        requires
            old(self).wf(),
            old(self).bridge.next() + events@.len() <= u64::MAX,
        ensures
            final(self).wf(),
            lifecycle_of(*final(self)) == lifecycle_run(lifecycle_of(*old(self)), events@),
            final(self).running == old(self).running,
            final(self).received == old(self).received,
            final(self).outgoing == old(self).outgoing,
            final(self).disconnect_requests == old(self).disconnect_requests,
    {
        let ghost all_events = events@;
        let ghost v0 = lifecycle_of(*old(self));
        let mut events = events;
        let mut k: usize = 0;
        let total: usize = events.len();
        let ghost n = total as nat;
        while events.len() > 0
            invariant
                self.wf(),
                k + events@.len() == n,
                n <= usize::MAX,
                all_events.len() == n,
                events@ == all_events.skip(k as int),
                lifecycle_of(*self) == lifecycle_run(v0, all_events.take(k as int)),
                self.bridge.next() + events@.len() <= u64::MAX,
                self.running == old(self).running,
                self.received == old(self).received,
                self.outgoing == old(self).outgoing,
                self.disconnect_requests == old(self).disconnect_requests,
            decreases events@.len(),
        {
            let ghost v_before = lifecycle_of(*self);
            let event = events.remove(0);
            proof {
                assert(event == all_events[k as int]);
                assert(events@ =~= all_events.skip(k as int + 1));
            }
            match event {
                TransportEvent::Connected { client_id } => {
                    match self.bridge.resolve_back(client_id) {
                        Some(_) => {},
                        None => {
                            self.apply_connect(client_id);
                        },
                    }
                },
                TransportEvent::Disconnected { client_id, cause } => {
                    let ghost had_pair = self.bridge.rev_map().contains_key(client_id);
                    let ghost logical = self.bridge.rev_map()[client_id];
                    let ghost records_before = self.records@;
                    self.apply_disconnect(client_id, cause);
                    proof {
                        if had_pair {
                            let i_run = choose|i: int|
                                0 <= i < records_before.len() && (#[trigger] records_before[i]).logical_id
                                    == logical;
                            let i_got = choose|i: int|
                                0 <= i < records_before.len() && (#[trigger] records_before[i]).logical_id
                                    == logical && records_before[i].client_id == client_id
                                    && self.records@ == records_before.remove(i);
                            // The record of one logical handle is unique, so
                            // the transition removes the same index.
                            assert(i_run == i_got);
                        }
                    }
                },
            }
            k = k + 1;
            proof {
                assert(all_events.take(k as int).drop_last() =~= all_events.take(k as int - 1));
                assert(all_events.take(k as int).last() == all_events[k as int - 1]);
                assert(lifecycle_of(*self) == lifecycle_step(v_before, all_events[k as int - 1]));
            }
        }
        proof {
            assert(all_events.take(n as int) =~= all_events);
        }
    }
}

/// The payloads among the queued messages whose destination resolves through
/// the bridge to the given client and whose channel matches, in queue order.
pub open spec fn queued_for(
    queue: Seq<OutboundMessage>,
    fwd: Map<u64, u64>,
    client_id: u64,
    channel_id: u8,
) -> Seq<Seq<u8>>
    decreases queue.len(),
{
    if queue.len() == 0 {
        Seq::empty()
    } else {
        let rest = queued_for(queue.drop_last(), fwd, client_id, channel_id);
        let m = queue.last();
        if fwd.contains_key(m.logical_id) && fwd[m.logical_id] == client_id && m.channel_id
            == channel_id {
            rest.push(m.payload@)
        } else {
            rest
        }
    }
}

/// The total payload bytes among the queued messages bound for one client
/// and channel.
pub open spec fn queued_bytes_for(
    queue: Seq<OutboundMessage>,
    fwd: Map<u64, u64>,
    client_id: u64,
    channel_id: u8,
) -> int
    decreases queue.len(),
{
    if queue.len() == 0 {
        0
    } else {
        let rest = queued_bytes_for(queue.drop_last(), fwd, client_id, channel_id);
        let m = queue.last();
        if fwd.contains_key(m.logical_id) && fwd[m.logical_id] == client_id && m.channel_id
            == channel_id {
            rest + m.payload@.len()
        } else {
            rest
        }
    }
}

proof fn lemma_queued_bytes_nonneg(
    queue: Seq<OutboundMessage>,
    fwd: Map<u64, u64>,
    client_id: u64,
    channel_id: u8,
)
    ensures
        queued_bytes_for(queue, fwd, client_id, channel_id) >= 0,
    decreases queue.len(),
{
    if queue.len() > 0 {
        lemma_queued_bytes_nonneg(queue.drop_last(), fwd, client_id, channel_id);
    }
}

proof fn lemma_queued_bytes_prefix(
    queue: Seq<OutboundMessage>,
    fwd: Map<u64, u64>,
    client_id: u64,
    channel_id: u8,
    j: int,
)
    requires
        0 <= j <= queue.len(),
    ensures
        queued_bytes_for(queue.take(j), fwd, client_id, channel_id) <= queued_bytes_for(
            queue,
            fwd,
            client_id,
            channel_id,
        ),
    decreases queue.len(),
{
    if j == queue.len() {
        assert(queue.take(j) =~= queue);
    } else {
        lemma_queued_bytes_nonneg(queue.drop_last(), fwd, client_id, channel_id);
        assert(queue.take(j) =~= queue.drop_last().take(j));
        lemma_queued_bytes_prefix(queue.drop_last(), fwd, client_id, channel_id, j);
    }
}

impl ServerContext {
    /// The outbound pump: hands every queued message to the transport, one
    /// send per message, in queue order, resolving each destination through
    /// the identity bridge. It must only ever be called with every queued
    /// destination still registered — the framework never queues a message
    /// for an unregistered peer, and a message queued after its destination's
    /// record was destroyed is never delivered. Runs in the post-update
    /// phase, before the disconnect request relay.
    #[verifier::loop_isolation(false)]
    pub fn send_packets(&mut self, server: &mut renet::RenetServer)
        requires
            old(self).wf(),
            forall|i: int|
                0 <= i < old(self).outgoing@.len() ==> old(self).bridge.map().contains_key(
                    (#[trigger] old(self).outgoing@[i]).logical_id,
                ),
            forall|i: int|
                0 <= i < old(self).outgoing@.len() ==> crate::transport::srv_sendable(
                    *old(server),
                    (#[trigger] old(self).outgoing@[i]).channel_id,
                ),
            forall|c: u64, ch: u8|
                crate::transport::srv_connected(*old(server), c) ==> #[trigger] queued_bytes_for(
                    old(self).outgoing@,
                    old(self).bridge.map(),
                    c,
                    ch,
                ) <= crate::transport::srv_room(*old(server), c, ch),
        ensures
            final(self).wf(),
            *final(self) == (ServerContext { outgoing: final(self).outgoing, ..*old(self) }),
            final(self).outgoing@ =~= Seq::<OutboundMessage>::empty(),
            forall|c: u64, ch: u8|
                crate::transport::srv_connected(*old(server), c) ==> #[trigger] crate::transport::srv_outbound(
                    *final(server),
                    c,
                    ch,
                ) =~= crate::transport::srv_outbound(*old(server), c, ch) + queued_for(
                    old(self).outgoing@,
                    old(self).bridge.map(),
                    c,
                    ch,
                ),
            forall|c: u64, ch: u8|
                !crate::transport::srv_connected(*old(server), c)
                    ==> #[trigger] crate::transport::srv_outbound(*final(server), c, ch)
                    =~= crate::transport::srv_outbound(*old(server), c, ch),
            forall|c: u64| #[trigger]
                crate::transport::srv_connected(*final(server), c)
                    == crate::transport::srv_connected(*old(server), c),
            forall|c: u64, ch: u8| #[trigger]
                crate::transport::srv_inbound(*final(server), c, ch)
                    =~= crate::transport::srv_inbound(*old(server), c, ch),
            forall|ch: u8| #[trigger]
                crate::transport::srv_sendable(*final(server), ch)
                    == crate::transport::srv_sendable(*old(server), ch),
            forall|ch: u8| #[trigger]
                crate::transport::srv_receivable(*final(server), ch)
                    == crate::transport::srv_receivable(*old(server), ch),
    {
        let ghost all_msgs = self.outgoing@;
        let ghost fwd = self.bridge.map();
        let mut k: usize = 0;
        let total: usize = self.outgoing.len();
        let ghost n = total as nat;
        while self.outgoing.len() > 0
            invariant
                old(self).wf(),
                self.wf(),
                *self == (ServerContext { outgoing: self.outgoing, ..*old(self) }),
                fwd == self.bridge.map(),
                k + self.outgoing@.len() == n,
                n <= usize::MAX,
                all_msgs.len() == n,
                self.outgoing@ == all_msgs.skip(k as int),
                forall|i: int|
                    0 <= i < all_msgs.len() ==> fwd.contains_key(
                        (#[trigger] all_msgs[i]).logical_id,
                    ),
                forall|i: int|
                    0 <= i < all_msgs.len() ==> crate::transport::srv_sendable(
                        *old(server),
                        (#[trigger] all_msgs[i]).channel_id,
                    ),
                forall|c: u64, ch: u8|
                    crate::transport::srv_connected(*old(server), c) ==> #[trigger] queued_bytes_for(
                        all_msgs,
                        fwd,
                        c,
                        ch,
                    ) <= crate::transport::srv_room(*old(server), c, ch),
                forall|c: u64, ch: u8|
                    crate::transport::srv_connected(*old(server), c) ==> #[trigger] crate::transport::srv_outbound(
                        *server,
                        c,
                        ch,
                    ) =~= crate::transport::srv_outbound(*old(server), c, ch) + queued_for(
                        all_msgs.take(k as int),
                        fwd,
                        c,
                        ch,
                    ),
                forall|c: u64, ch: u8|
                    crate::transport::srv_connected(*old(server), c)
                        ==> #[trigger] crate::transport::srv_room(*server, c, ch)
                        == crate::transport::srv_room(*old(server), c, ch) - queued_bytes_for(
                        all_msgs.take(k as int),
                        fwd,
                        c,
                        ch,
                    ),
                forall|c: u64, ch: u8|
                    !crate::transport::srv_connected(*old(server), c)
                        ==> #[trigger] crate::transport::srv_outbound(*server, c, ch)
                        =~= crate::transport::srv_outbound(*old(server), c, ch),
                forall|c: u64| #[trigger]
                    crate::transport::srv_connected(*server, c) == crate::transport::srv_connected(
                        *old(server),
                        c,
                    ),
                forall|c: u64, ch: u8| #[trigger]
                    crate::transport::srv_inbound(*server, c, ch)
                        =~= crate::transport::srv_inbound(*old(server), c, ch),
                forall|ch: u8| #[trigger]
                    crate::transport::srv_sendable(*server, ch) == crate::transport::srv_sendable(
                        *old(server),
                        ch,
                    ),
                forall|ch: u8| #[trigger]
                    crate::transport::srv_receivable(*server, ch)
                        == crate::transport::srv_receivable(*old(server), ch),
            decreases self.outgoing@.len(),
        {
            let ghost server_before = *server;
            let message = self.outgoing.remove(0);
            proof {
                assert(message == all_msgs[k as int]);
                assert(self.outgoing@ =~= all_msgs.skip(k as int + 1));
            }
            let client_id = match self.bridge.resolve(message.logical_id) {
                Some(client_id) => client_id,
                None => {
                    // never taken: every queued destination is registered,
                    // by this function's precondition
                    proof {
                        assert(fwd.contains_key(all_msgs[k as int].logical_id));
                        assert(false);
                    }
                    return ;
                },
            };
            proof {
                let ghost c = client_id;
                let ghost ch = message.channel_id;
                if crate::transport::srv_connected(*server, c) {
                    assert(crate::transport::srv_connected(*old(server), c));
                    assert(all_msgs.take(k as int + 1).drop_last() =~= all_msgs.take(k as int));
                    lemma_queued_bytes_prefix(all_msgs, fwd, c, ch, k as int + 1);
                    lemma_queued_bytes_nonneg(all_msgs.take(k as int), fwd, c, ch);
                }
            }
            crate::transport::server_send(server, client_id, message.channel_id, message.payload);
            k = k + 1;
            proof {
                let m = all_msgs[k as int - 1];
                assert forall|c: u64, ch: u8|
                    crate::transport::srv_connected(*old(server), c) implies #[trigger] crate::transport::srv_outbound(
                    *server,
                    c,
                    ch,
                ) =~= crate::transport::srv_outbound(*old(server), c, ch) + queued_for(
                    all_msgs.take(k as int),
                    fwd,
                    c,
                    ch,
                ) by {
                    assert(all_msgs.take(k as int).drop_last() =~= all_msgs.take(k as int - 1));
                    assert(all_msgs.take(k as int).last() == m);
                    if c == client_id && ch == m.channel_id {
                        assert(fwd.contains_key(m.logical_id) && fwd[m.logical_id] == c);
                        assert(crate::transport::srv_connected(server_before, c));
                        assert(queued_bytes_for(all_msgs.take(k as int), fwd, c, ch)
                            == queued_bytes_for(all_msgs.take(k as int - 1), fwd, c, ch)
                            + m.payload@.len());
                        assert(crate::transport::srv_room(*server, c, ch)
                            == crate::transport::srv_room(server_before, c, ch) - m.payload@.len());
                        assert(crate::transport::srv_outbound(server_before, c, ch)
                            =~= crate::transport::srv_outbound(*old(server), c, ch) + queued_for(
                            all_msgs.take(k as int - 1),
                            fwd,
                            c,
                            ch,
                        ));
                        assert(crate::transport::srv_outbound(*server, c, ch)
                            =~= crate::transport::srv_outbound(server_before, c, ch).push(
                            m.payload@,
                        ));
                        assert(crate::transport::srv_outbound(*old(server), c, ch) + queued_for(
                            all_msgs.take(k as int),
                            fwd,
                            c,
                            ch,
                        ) =~= (crate::transport::srv_outbound(*old(server), c, ch) + queued_for(
                            all_msgs.take(k as int - 1),
                            fwd,
                            c,
                            ch,
                        )).push(m.payload@));
                    } else {
                        assert(queued_for(all_msgs.take(k as int), fwd, c, ch) == queued_for(
                            all_msgs.take(k as int - 1),
                            fwd,
                            c,
                            ch,
                        ));
                        assert(queued_bytes_for(all_msgs.take(k as int), fwd, c, ch)
                            == queued_bytes_for(all_msgs.take(k as int - 1), fwd, c, ch));
                    }
                }
                assert forall|c: u64, ch: u8|
                    crate::transport::srv_connected(*old(server), c) implies #[trigger] crate::transport::srv_room(
                    *server,
                    c,
                    ch,
                ) == crate::transport::srv_room(*old(server), c, ch) - queued_bytes_for(
                    all_msgs.take(k as int),
                    fwd,
                    c,
                    ch,
                ) by {
                    assert(all_msgs.take(k as int).drop_last() =~= all_msgs.take(k as int - 1));
                    assert(all_msgs.take(k as int).last() == m);
                    if c == client_id && ch == m.channel_id {
                        assert(fwd.contains_key(m.logical_id) && fwd[m.logical_id] == c);
                        assert(crate::transport::srv_connected(server_before, c));
                        assert(queued_bytes_for(all_msgs.take(k as int), fwd, c, ch)
                            == queued_bytes_for(all_msgs.take(k as int - 1), fwd, c, ch)
                            + m.payload@.len());
                    } else {
                        assert(queued_bytes_for(all_msgs.take(k as int), fwd, c, ch)
                            == queued_bytes_for(all_msgs.take(k as int - 1), fwd, c, ch));
                    }
                }
                assert(self.records == old(self).records);
                assert(self.bridge == old(self).bridge);
                assert(self.wf());
            }
        }
        proof {
            assert(all_msgs.take(n as int) =~= all_msgs);
        }
    }
}

/// The payloads among the delivered inbound messages that came from one
/// sender on one channel, in delivery order.
pub open spec fn received_from(
    queue: Seq<InboundMessage>,
    logical_id: u64,
    channel_id: u8,
) -> Seq<Seq<u8>>
    decreases queue.len(),
{
    if queue.len() == 0 {
        Seq::empty()
    } else {
        let rest = received_from(queue.drop_last(), logical_id, channel_id);
        let m = queue.last();
        if m.logical_id == logical_id && m.channel_id == channel_id {
            rest.push(m.payload@)
        } else {
            rest
        }
    }
}

/// No two records name the same transport client: the bridge pairs are
/// one-to-one.
proof fn lemma_records_distinct_clients(ctx: ServerContext)
    requires
        ctx.wf(),
    ensures
        forall|i: int, j: int|
            0 <= i < j < ctx.records@.len() ==> (#[trigger] ctx.records@[i]).client_id != (
            #[trigger] ctx.records@[j]).client_id,
{
    assert forall|i: int, j: int| 0 <= i < j < ctx.records@.len() implies (
    #[trigger] ctx.records@[i]).client_id != (#[trigger] ctx.records@[j]).client_id by {
        let ri = ctx.records@[i];
        let rj = ctx.records@[j];
        if ri.client_id == rj.client_id {
            assert(ctx.bridge.map().contains_key(ri.logical_id));
            assert(ctx.bridge.map().contains_key(rj.logical_id));
            assert(ctx.bridge.rev_map()[ri.client_id] == ri.logical_id);
            assert(ctx.bridge.rev_map()[rj.client_id] == rj.logical_id);
        }
    }
}

impl ServerContext {
    /// Pulls every pending message of one client on one channel into the
    /// inbound queue, tagged with the sender's logical handle, in delivery
    /// order.
    fn drain_client_channel(
        &mut self,
        server: &mut renet::RenetServer,
        logical_id: u64,
        client_id: u64,
        channel_id: u8,
    )
        requires
            crate::transport::srv_receivable(*old(server), channel_id),
        ensures
            *final(self) == (ServerContext { received: final(self).received, ..*old(self) }),
            old(self).received@.len() <= final(self).received@.len(),
            final(self).received@.take(old(self).received@.len() as int) == old(self).received@,
            received_from(final(self).received@, logical_id, channel_id) =~= received_from(
                old(self).received@,
                logical_id,
                channel_id,
            ) + crate::transport::srv_inbound(*old(server), client_id, channel_id),
            forall|l: u64, ch: u8|
                !(l == logical_id && ch == channel_id) ==> #[trigger] received_from(
                    final(self).received@,
                    l,
                    ch,
                ) =~= received_from(old(self).received@, l, ch),
            crate::transport::srv_inbound(*final(server), client_id, channel_id) =~= Seq::<
                Seq<u8>,
            >::empty(),
            forall|c: u64, ch: u8|
                !(c == client_id && ch == channel_id) ==> #[trigger] crate::transport::srv_inbound(
                    *final(server),
                    c,
                    ch,
                ) =~= crate::transport::srv_inbound(*old(server), c, ch),
            forall|c: u64, ch: u8| #[trigger]
                crate::transport::srv_outbound(*final(server), c, ch)
                    =~= crate::transport::srv_outbound(*old(server), c, ch),
            forall|c: u64, ch: u8| #[trigger]
                crate::transport::srv_room(*final(server), c, ch) == crate::transport::srv_room(
                    *old(server),
                    c,
                    ch,
                ),
            forall|c: u64| #[trigger]
                crate::transport::srv_connected(*final(server), c)
                    == crate::transport::srv_connected(*old(server), c),
            forall|ch: u8| #[trigger]
                crate::transport::srv_sendable(*final(server), ch)
                    == crate::transport::srv_sendable(*old(server), ch),
            forall|ch: u8| #[trigger]
                crate::transport::srv_receivable(*final(server), ch)
                    == crate::transport::srv_receivable(*old(server), ch),
    {
        let ghost pending = crate::transport::srv_inbound(*old(server), client_id, channel_id);
        let ghost mut j: int = 0;
        loop
            invariant
                crate::transport::srv_receivable(*server, channel_id),
                0 <= j <= pending.len(),
                *self == (ServerContext { received: self.received, ..*old(self) }),
                old(self).received@.len() <= self.received@.len(),
                self.received@.take(old(self).received@.len() as int) == old(self).received@,
                received_from(self.received@, logical_id, channel_id) =~= received_from(
                    old(self).received@,
                    logical_id,
                    channel_id,
                ) + pending.take(j),
                forall|l: u64, ch: u8|
                    !(l == logical_id && ch == channel_id) ==> #[trigger] received_from(
                        self.received@,
                        l,
                        ch,
                    ) =~= received_from(old(self).received@, l, ch),
                crate::transport::srv_inbound(*server, client_id, channel_id) =~= pending.skip(j),
                forall|c: u64, ch: u8|
                    !(c == client_id && ch == channel_id)
                        ==> #[trigger] crate::transport::srv_inbound(*server, c, ch)
                        =~= crate::transport::srv_inbound(*old(server), c, ch),
                forall|c: u64, ch: u8| #[trigger]
                    crate::transport::srv_outbound(*server, c, ch)
                        =~= crate::transport::srv_outbound(*old(server), c, ch),
                forall|c: u64, ch: u8| #[trigger]
                    crate::transport::srv_room(*server, c, ch) == crate::transport::srv_room(
                        *old(server),
                        c,
                        ch,
                    ),
                forall|c: u64| #[trigger]
                    crate::transport::srv_connected(*server, c) == crate::transport::srv_connected(
                        *old(server),
                        c,
                    ),
                forall|ch: u8| #[trigger]
                    crate::transport::srv_sendable(*server, ch) == crate::transport::srv_sendable(
                        *old(server),
                        ch,
                    ),
                forall|ch: u8| #[trigger]
                    crate::transport::srv_receivable(*server, ch)
                        == crate::transport::srv_receivable(*old(server), ch),
            ensures
                crate::transport::srv_inbound(*server, client_id, channel_id) =~= Seq::<
                    Seq<u8>,
                >::empty(),
                received_from(self.received@, logical_id, channel_id) =~= received_from(
                    old(self).received@,
                    logical_id,
                    channel_id,
                ) + pending,
            decreases pending.len() - j,
        {
            let ghost received_before = self.received@;
            match crate::transport::server_receive(server, client_id, channel_id) {
                Some(payload) => {
                    proof {
                        assert(pending.skip(j).len() > 0);
                        assert(payload@ == pending.skip(j)[0]);
                        assert(pending.skip(j)[0] == pending[j]);
                        assert(pending.skip(j).skip(1) =~= pending.skip(j + 1));
                    }
                    self.received.push(InboundMessage { logical_id, channel_id, payload });
                    proof {
                        assert(self.received@.drop_last() =~= received_before);
                        assert(self.received@.take(old(self).received@.len() as int)
                            =~= received_before.take(old(self).received@.len() as int));
                        assert forall|l: u64, ch: u8|
                            !(l == logical_id && ch == channel_id) implies #[trigger] received_from(
                            self.received@,
                            l,
                            ch,
                        ) =~= received_from(old(self).received@, l, ch) by {
                            assert(received_from(self.received@, l, ch) == received_from(
                                received_before,
                                l,
                                ch,
                            ));
                        }
                        assert(received_from(self.received@, logical_id, channel_id)
                            =~= received_from(received_before, logical_id, channel_id).push(
                            pending[j],
                        ));
                        assert(received_from(old(self).received@, logical_id, channel_id)
                            + pending.take(j + 1) =~= (received_from(
                            old(self).received@,
                            logical_id,
                            channel_id,
                        ) + pending.take(j)).push(pending[j]));
                        j = j + 1;
                    }
                },
                None => {
                    proof {
                        assert(pending.skip(j).len() == 0);
                        assert(pending.take(j) =~= pending);
                    }
                    break ;
                },
            }
        }
    }

    /// Pulls every pending message of one client on every registered receive
    /// channel into the inbound queue.
    fn drain_client(
        &mut self,
        server: &mut renet::RenetServer,
        logical_id: u64,
        client_id: u64,
        channel_count: u8,
    )
        requires
            forall|ch: u8|
                ch < channel_count ==> crate::transport::srv_receivable(*old(server), ch),
        ensures
            *final(self) == (ServerContext { received: final(self).received, ..*old(self) }),
            old(self).received@.len() <= final(self).received@.len(),
            final(self).received@.take(old(self).received@.len() as int) == old(self).received@,
            forall|ch: u8|
                ch < channel_count ==> #[trigger] received_from(
                    final(self).received@,
                    logical_id,
                    ch,
                ) =~= received_from(old(self).received@, logical_id, ch)
                    + crate::transport::srv_inbound(*old(server), client_id, ch),
            forall|l: u64, ch: u8|
                !(l == logical_id && ch < channel_count) ==> #[trigger] received_from(
                    final(self).received@,
                    l,
                    ch,
                ) =~= received_from(old(self).received@, l, ch),
            forall|ch: u8|
                ch < channel_count ==> #[trigger] crate::transport::srv_inbound(
                    *final(server),
                    client_id,
                    ch,
                ) =~= Seq::<Seq<u8>>::empty(),
            forall|c: u64, ch: u8|
                !(c == client_id && ch < channel_count) ==> #[trigger] crate::transport::srv_inbound(
                    *final(server),
                    c,
                    ch,
                ) =~= crate::transport::srv_inbound(*old(server), c, ch),
            forall|c: u64, ch: u8| #[trigger]
                crate::transport::srv_outbound(*final(server), c, ch)
                    =~= crate::transport::srv_outbound(*old(server), c, ch),
            forall|c: u64, ch: u8| #[trigger]
                crate::transport::srv_room(*final(server), c, ch) == crate::transport::srv_room(
                    *old(server),
                    c,
                    ch,
                ),
            forall|c: u64| #[trigger]
                crate::transport::srv_connected(*final(server), c)
                    == crate::transport::srv_connected(*old(server), c),
            forall|ch: u8| #[trigger]
                crate::transport::srv_sendable(*final(server), ch)
                    == crate::transport::srv_sendable(*old(server), ch),
            forall|ch: u8| #[trigger]
                crate::transport::srv_receivable(*final(server), ch)
                    == crate::transport::srv_receivable(*old(server), ch),
    {
        let mut channel_id: u8 = 0;
        while channel_id < channel_count
            invariant
                channel_id <= channel_count,
                forall|ch: u8|
                    ch < channel_count ==> crate::transport::srv_receivable(*old(server), ch),
                *self == (ServerContext { received: self.received, ..*old(self) }),
                old(self).received@.len() <= self.received@.len(),
                self.received@.take(old(self).received@.len() as int) == old(self).received@,
                forall|ch: u8|
                    ch < channel_id ==> #[trigger] received_from(self.received@, logical_id, ch)
                        =~= received_from(old(self).received@, logical_id, ch)
                        + crate::transport::srv_inbound(*old(server), client_id, ch),
                forall|l: u64, ch: u8|
                    !(l == logical_id && ch < channel_id) ==> #[trigger] received_from(
                        self.received@,
                        l,
                        ch,
                    ) =~= received_from(old(self).received@, l, ch),
                forall|ch: u8|
                    ch < channel_id ==> #[trigger] crate::transport::srv_inbound(
                        *server,
                        client_id,
                        ch,
                    ) =~= Seq::<Seq<u8>>::empty(),
                forall|c: u64, ch: u8|
                    !(c == client_id && ch < channel_id)
                        ==> #[trigger] crate::transport::srv_inbound(*server, c, ch)
                        =~= crate::transport::srv_inbound(*old(server), c, ch),
                forall|c: u64, ch: u8| #[trigger]
                    crate::transport::srv_outbound(*server, c, ch)
                        =~= crate::transport::srv_outbound(*old(server), c, ch),
                forall|c: u64, ch: u8| #[trigger]
                    crate::transport::srv_room(*server, c, ch) == crate::transport::srv_room(
                        *old(server),
                        c,
                        ch,
                    ),
                forall|c: u64| #[trigger]
                    crate::transport::srv_connected(*server, c) == crate::transport::srv_connected(
                        *old(server),
                        c,
                    ),
                forall|ch: u8| #[trigger]
                    crate::transport::srv_sendable(*server, ch) == crate::transport::srv_sendable(
                        *old(server),
                        ch,
                    ),
                forall|ch: u8| #[trigger]
                    crate::transport::srv_receivable(*server, ch)
                        == crate::transport::srv_receivable(*old(server), ch),
            decreases channel_count - channel_id,
        {
            let ghost self_mid = *self;
            let ghost server_mid = *server;
            self.drain_client_channel(server, logical_id, client_id, channel_id);
            proof {
                assert(old(self).received@.len() <= self_mid.received@.len());
                assert(self.received@.take(self_mid.received@.len() as int)
                    =~= self_mid.received@);
                assert(self.received@.take(old(self).received@.len() as int)
                    =~= self_mid.received@.take(old(self).received@.len() as int));
            }
            channel_id = channel_id + 1;
        }
    }
}

/// Whether one of the first `upto` records carries this logical handle.
spec fn logical_processed(records: Seq<ConnectionRecord>, upto: int, l: u64) -> bool {
    exists|i: int| 0 <= i < upto && (#[trigger] records[i]).logical_id == l
}

/// Whether one of the first `upto` records carries this transport client id.
spec fn client_processed(records: Seq<ConnectionRecord>, upto: int, c: u64) -> bool {
    exists|i: int| 0 <= i < upto && (#[trigger] records[i]).client_id == c
}

impl ServerContext {
    /// The inbound pump: for every connected peer and every registered
    /// receive channel, pulls every pending message from the transport and
    /// inserts it into the inbound queue, tagged with the sender's logical
    /// handle and the channel, in delivery order. Draining is exhaustive per
    /// channel per tick. Runs in the pre-update phase, after the lifecycle
    /// monitor, so that new peers are seen and lost peers are not.
    pub fn receive_packets(&mut self, server: &mut renet::RenetServer, channel_count: u8)
        requires
            old(self).wf(),
            forall|ch: u8|
                ch < channel_count ==> crate::transport::srv_receivable(*old(server), ch),
        ensures
            final(self).wf(),
            *final(self) == (ServerContext { received: final(self).received, ..*old(self) }),
            old(self).received@.len() <= final(self).received@.len(),
            final(self).received@.take(old(self).received@.len() as int) == old(self).received@,
            forall|l: u64, ch: u8|
                old(self).bridge.map().contains_key(l) && ch < channel_count
                    ==> #[trigger] received_from(final(self).received@, l, ch) =~= received_from(
                    old(self).received@,
                    l,
                    ch,
                ) + crate::transport::srv_inbound(
                    *old(server),
                    old(self).bridge.map()[l],
                    ch,
                ),
            forall|l: u64, ch: u8|
                !(old(self).bridge.map().contains_key(l) && ch < channel_count)
                    ==> #[trigger] received_from(final(self).received@, l, ch) =~= received_from(
                    old(self).received@,
                    l,
                    ch,
                ),
            forall|c: u64, ch: u8|
                old(self).bridge.rev_map().contains_key(c) && ch < channel_count
                    ==> #[trigger] crate::transport::srv_inbound(*final(server), c, ch) =~= Seq::<
                    Seq<u8>,
                >::empty(),
            forall|c: u64, ch: u8|
                !(old(self).bridge.rev_map().contains_key(c) && ch < channel_count)
                    ==> #[trigger] crate::transport::srv_inbound(*final(server), c, ch)
                    =~= crate::transport::srv_inbound(*old(server), c, ch),
            forall|c: u64, ch: u8| #[trigger]
                crate::transport::srv_outbound(*final(server), c, ch)
                    =~= crate::transport::srv_outbound(*old(server), c, ch),
            forall|c: u64, ch: u8| #[trigger]
                crate::transport::srv_room(*final(server), c, ch) == crate::transport::srv_room(
                    *old(server),
                    c,
                    ch,
                ),
            forall|c: u64| #[trigger]
                crate::transport::srv_connected(*final(server), c)
                    == crate::transport::srv_connected(*old(server), c),
            forall|ch: u8| #[trigger]
                crate::transport::srv_sendable(*final(server), ch)
                    == crate::transport::srv_sendable(*old(server), ch),
            forall|ch: u8| #[trigger]
                crate::transport::srv_receivable(*final(server), ch)
                    == crate::transport::srv_receivable(*old(server), ch),
    {
        proof {
            lemma_records_distinct_clients(*old(self));
        }
        let ghost records = old(self).records@;
        let mut ri: usize = 0;
        while ri < self.records.len()
            invariant
                old(self).wf(),
                *self == (ServerContext { received: self.received, ..*old(self) }),
                ri <= records.len(),
                records == old(self).records@,
                forall|ch: u8|
                    ch < channel_count ==> crate::transport::srv_receivable(*old(server), ch),
                forall|i: int, j: int|
                    0 <= i < j < records.len() ==> (#[trigger] records[i]).client_id != (
                    #[trigger] records[j]).client_id,
                old(self).received@.len() <= self.received@.len(),
                self.received@.take(old(self).received@.len() as int) == old(self).received@,
                forall|i: int, ch: u8|
                    0 <= i < ri && ch < channel_count ==> #[trigger] received_from(
                        self.received@,
                        (#[trigger] records[i]).logical_id,
                        ch,
                    ) =~= received_from(old(self).received@, records[i].logical_id, ch)
                        + crate::transport::srv_inbound(*old(server), records[i].client_id, ch),
                forall|l: u64, ch: u8|
                    !(logical_processed(records, ri as int, l) && ch < channel_count)
                        ==> #[trigger] received_from(self.received@, l, ch) =~= received_from(
                        old(self).received@,
                        l,
                        ch,
                    ),
                forall|i: int, ch: u8|
                    0 <= i < ri && ch < channel_count ==> #[trigger] crate::transport::srv_inbound(
                        *server,
                        (#[trigger] records[i]).client_id,
                        ch,
                    ) =~= Seq::<Seq<u8>>::empty(),
                forall|c: u64, ch: u8|
                    !(client_processed(records, ri as int, c) && ch < channel_count)
                        ==> #[trigger] crate::transport::srv_inbound(*server, c, ch)
                        =~= crate::transport::srv_inbound(*old(server), c, ch),
                forall|c: u64, ch: u8| #[trigger]
                    crate::transport::srv_outbound(*server, c, ch)
                        =~= crate::transport::srv_outbound(*old(server), c, ch),
                forall|c: u64, ch: u8| #[trigger]
                    crate::transport::srv_room(*server, c, ch) == crate::transport::srv_room(
                        *old(server),
                        c,
                        ch,
                    ),
                forall|c: u64| #[trigger]
                    crate::transport::srv_connected(*server, c) == crate::transport::srv_connected(
                        *old(server),
                        c,
                    ),
                forall|ch: u8| #[trigger]
                    crate::transport::srv_sendable(*server, ch) == crate::transport::srv_sendable(
                        *old(server),
                        ch,
                    ),
                forall|ch: u8| #[trigger]
                    crate::transport::srv_receivable(*server, ch)
                        == crate::transport::srv_receivable(*old(server), ch),
            decreases records.len() - ri,
        {
            let record = self.records[ri];
            proof {
                assert(record == records[ri as int]);
                assert(!logical_processed(records, ri as int, record.logical_id));
                assert(!client_processed(records, ri as int, record.client_id));
                assert(received_from(self.received@, record.logical_id, 0u8) =~= received_from(
                    old(self).received@,
                    record.logical_id,
                    0u8,
                ));
            }
            let ghost self_mid = *self;
            let ghost server_mid = *server;
            self.drain_client(server, record.logical_id, record.client_id, channel_count);
            ri = ri + 1;
            proof {
                assert(old(self).received@.len() <= self_mid.received@.len());
                assert(self.received@.take(old(self).received@.len() as int)
                    =~= self_mid.received@.take(old(self).received@.len() as int));
                assert forall|i: int, ch: u8|
                    0 <= i < ri && ch < channel_count implies #[trigger] received_from(
                    self.received@,
                    (#[trigger] records[i]).logical_id,
                    ch,
                ) =~= received_from(old(self).received@, records[i].logical_id, ch)
                    + crate::transport::srv_inbound(*old(server), records[i].client_id, ch) by {
                    if i == ri - 1 {
                        assert(!logical_processed(records, ri as int - 1, record.logical_id));
                        assert(received_from(self_mid.received@, record.logical_id, ch)
                            =~= received_from(old(self).received@, record.logical_id, ch));
                        assert(!client_processed(records, ri as int - 1, record.client_id));
                        assert(crate::transport::srv_inbound(server_mid, record.client_id, ch)
                            =~= crate::transport::srv_inbound(*old(server), record.client_id, ch));
                        assert(received_from(self.received@, record.logical_id, ch)
                            =~= received_from(self_mid.received@, record.logical_id, ch)
                            + crate::transport::srv_inbound(server_mid, record.client_id, ch));
                    } else {
                        assert(records[i].logical_id != record.logical_id);
                        assert(received_from(self.received@, records[i].logical_id, ch)
                            =~= received_from(self_mid.received@, records[i].logical_id, ch));
                        assert(records[i].client_id != record.client_id);
                        assert(crate::transport::srv_inbound(*server, records[i].client_id, ch)
                            =~= crate::transport::srv_inbound(server_mid, records[i].client_id, ch));
                    }
                }
                assert forall|i: int, ch: u8|
                    0 <= i < ri && ch < channel_count implies #[trigger] crate::transport::srv_inbound(
                    *server,
                    (#[trigger] records[i]).client_id,
                    ch,
                ) =~= Seq::<Seq<u8>>::empty() by {
                    if i < ri - 1 {
                        assert(records[i].client_id != record.client_id);
                        assert(crate::transport::srv_inbound(server_mid, records[i].client_id, ch)
                            =~= Seq::<Seq<u8>>::empty());
                    }
                }
                assert forall|l: u64, ch: u8|
                    !(logical_processed(records, ri as int, l) && ch < channel_count) implies
                    #[trigger] received_from(self.received@, l, ch) =~= received_from(
                    old(self).received@,
                    l,
                    ch,
                ) by {
                    if !(logical_processed(records, ri as int, l) && ch < channel_count) {
                        if ch < channel_count {
                            assert(l != record.logical_id);
                            assert(!logical_processed(records, ri as int - 1, l));
                        } else {
                            assert(!(l == record.logical_id && ch < channel_count));
                        }
                        assert(received_from(self.received@, l, ch) =~= received_from(
                            self_mid.received@,
                            l,
                            ch,
                        ));
                        if logical_processed(records, ri as int - 1, l) {
                            assert(logical_processed(records, ri as int, l));
                        }
                    }
                }
                assert forall|c: u64, ch: u8|
                    !(client_processed(records, ri as int, c) && ch < channel_count) implies
                    #[trigger] crate::transport::srv_inbound(*server, c, ch)
                    =~= crate::transport::srv_inbound(*old(server), c, ch) by {
                    if !(client_processed(records, ri as int, c) && ch < channel_count) {
                        if ch < channel_count {
                            assert(c != record.client_id);
                        }
                        assert(crate::transport::srv_inbound(*server, c, ch)
                            =~= crate::transport::srv_inbound(server_mid, c, ch));
                        if client_processed(records, ri as int - 1, c) {
                            assert(client_processed(records, ri as int, c));
                        }
                    }
                }
            }
        }
        proof {
            let n = records.len() as int;
            assert forall|l: u64, ch: u8|
                old(self).bridge.map().contains_key(l) && ch < channel_count implies #[trigger] received_from(
                self.received@,
                l,
                ch,
            ) =~= received_from(old(self).received@, l, ch) + crate::transport::srv_inbound(
                *old(server),
                old(self).bridge.map()[l],
                ch,
            ) by {
                let i = choose|i: int| 0 <= i < n && (#[trigger] records[i]).logical_id == l;
                assert(records[i].client_id == old(self).bridge.map()[l]);
                assert(received_from(self.received@, records[i].logical_id, ch) =~= received_from(
                    old(self).received@,
                    records[i].logical_id,
                    ch,
                ) + crate::transport::srv_inbound(*old(server), records[i].client_id, ch));
            }
            assert forall|l: u64, ch: u8|
                !(old(self).bridge.map().contains_key(l) && ch < channel_count) implies #[trigger] received_from(
                self.received@,
                l,
                ch,
            ) =~= received_from(old(self).received@, l, ch) by {
                if !old(self).bridge.map().contains_key(l) {
                    assert(!logical_processed(records, n, l)) by {
                        if logical_processed(records, n, l) {
                            let i = choose|i: int|
                                0 <= i < n && (#[trigger] records[i]).logical_id == l;
                            assert(old(self).bridge.map().contains_key(records[i].logical_id));
                        }
                    }
                } else {
                    assert(!(logical_processed(records, n, l) && ch < channel_count));
                }
            }
            assert forall|c: u64, ch: u8|
                old(self).bridge.rev_map().contains_key(c) && ch < channel_count implies #[trigger] crate::transport::srv_inbound(
                *final(server),
                c,
                ch,
            ) =~= Seq::<Seq<u8>>::empty() by {
                let l = old(self).bridge.rev_map()[c];
                assert(old(self).bridge.map().contains_key(l) && old(self).bridge.map()[l] == c);
                let i = choose|i: int| 0 <= i < n && (#[trigger] records[i]).logical_id == l;
                assert(records[i].client_id == c);
                assert(crate::transport::srv_inbound(*server, records[i].client_id, ch) =~= Seq::<
                    Seq<u8>,
                >::empty());
            }
            assert forall|c: u64, ch: u8|
                !(old(self).bridge.rev_map().contains_key(c) && ch < channel_count) implies
                #[trigger] crate::transport::srv_inbound(*final(server), c, ch)
                =~= crate::transport::srv_inbound(*old(server), c, ch) by {
                if !old(self).bridge.rev_map().contains_key(c) {
                    assert(!client_processed(records, n, c)) by {
                        if client_processed(records, n, c) {
                            let i = choose|i: int|
                                0 <= i < n && (#[trigger] records[i]).client_id == c;
                            let r = records[i];
                            assert(old(self).bridge.map().contains_key(r.logical_id));
                            assert(old(self).bridge.rev_map().contains_key(c));
                        }
                    }
                } else {
                    assert(!(client_processed(records, n, c) && ch < channel_count));
                }
            }
        }
    }
}

/// No message loss within a tick on one channel: when every queued message
/// is addressed to the same registered destination on the same channel, the
/// outbound pump's handover — `queued_for`, which its postcondition appends
/// to the transport's queue — is all of the payloads, one per message, in
/// queue order. With the transport's own ordered-reliable delivery this
/// carries the queue order to the peer.
pub proof fn lemma_single_destination_order(
    queue: Seq<OutboundMessage>,
    fwd: Map<u64, u64>,
    client_id: u64,
    channel_id: u8,
)
    requires
        forall|i: int|
            0 <= i < queue.len() ==> {
                let m = #[trigger] queue[i];
                &&& fwd.contains_key(m.logical_id)
                &&& fwd[m.logical_id] == client_id
                &&& m.channel_id == channel_id
            },
    ensures
        queued_for(queue, fwd, client_id, channel_id).len() == queue.len(),
        forall|i: int|
            0 <= i < queue.len() ==> #[trigger] queued_for(queue, fwd, client_id, channel_id)[i]
                == queue[i].payload@,
    decreases queue.len(),
{
    if queue.len() > 0 {
        lemma_single_destination_order(queue.drop_last(), fwd, client_id, channel_id);
    }
}

/// Post-disconnect silence: once no identity pair points at a transport
/// client — its record and pair were destroyed — the outbound pump's
/// handover to that client is empty, whatever is queued; nothing is ever
/// delivered to a destination that is no longer registered.
pub proof fn lemma_unregistered_destination_silent(
    queue: Seq<OutboundMessage>,
    fwd: Map<u64, u64>,
    client_id: u64,
    channel_id: u8,
)
    requires
        forall|l: u64| #[trigger] fwd.contains_key(l) ==> fwd[l] != client_id,
    ensures
        queued_for(queue, fwd, client_id, channel_id) =~= Seq::<Seq<u8>>::empty(),
    decreases queue.len(),
{
    if queue.len() > 0 {
        lemma_unregistered_destination_silent(queue.drop_last(), fwd, client_id, channel_id);
    }
}

/// A notification of a disconnection that this side forced.
pub open spec fn is_forced_disconnect(n: Notification) -> bool {
    n matches Notification::Disconnected { cause: DisconnectCause::ByServer, .. }
}

impl ServerContext {
    /// The framework destroyed a peer's record on its own while no transport
    /// is active: the record and the pair go away, with nothing to
    /// disconnect.
    pub fn drop_client(&mut self, logical_id: u64)
        requires
            old(self).wf(),
        ensures
            final(self).wf(),
            !final(self).bridge.map().contains_key(logical_id),
            forall|l: u64|
                l != logical_id ==> #[trigger] final(self).bridge.map().contains_key(l) == old(
                    self,
                ).bridge.map().contains_key(l),
            forall|l: u64| #[trigger]
                final(self).bridge.map().contains_key(l) ==> final(self).bridge.map()[l] == old(
                    self,
                ).bridge.map()[l],
            final(self).notifications@.len() >= old(self).notifications@.len(),
            final(self).notifications@.take(old(self).notifications@.len() as int) == old(
                self,
            ).notifications@,
            forall|j: int|
                old(self).notifications@.len() <= j < final(self).notifications@.len()
                    ==> is_forced_disconnect(#[trigger] final(self).notifications@[j]),
            final(self).running == old(self).running,
            final(self).received == old(self).received,
            final(self).outgoing == old(self).outgoing,
            final(self).disconnect_requests == old(self).disconnect_requests,
    {
        match self.bridge.resolve(logical_id) {
            Some(client_id) => {
                proof {
                    assert(self.bridge.rev_map().contains_key(client_id));
                    assert(self.bridge.rev_map()[client_id] == logical_id);
                }
                self.apply_disconnect(client_id, DisconnectCause::ByServer);
                proof {
                    assert(self.notifications@.drop_last() =~= old(self).notifications@);
                    assert(self.notifications@.take(old(self).notifications@.len() as int)
                        =~= old(self).notifications@);
                }
            },
            None => {},
        }
    }

    /// The framework destroyed a peer's record on its own while a transport
    /// is active: the record and the pair go away, and the transport is told
    /// to disconnect the peer.
    pub fn remove_client(&mut self, server: &mut renet::RenetServer, logical_id: u64)
        requires
            old(self).wf(),
        ensures
            final(self).wf(),
            !final(self).bridge.map().contains_key(logical_id),
            forall|l: u64|
                l != logical_id ==> #[trigger] final(self).bridge.map().contains_key(l) == old(
                    self,
                ).bridge.map().contains_key(l),
            forall|l: u64| #[trigger]
                final(self).bridge.map().contains_key(l) ==> final(self).bridge.map()[l] == old(
                    self,
                ).bridge.map()[l],
            old(self).bridge.map().contains_key(logical_id) ==> !crate::transport::srv_connected(
                *final(server),
                old(self).bridge.map()[logical_id],
            ),
            forall|c: u64|
                !(old(self).bridge.map().contains_key(logical_id) && c == old(
                    self,
                ).bridge.map()[logical_id]) ==> #[trigger] crate::transport::srv_connected(
                    *final(server),
                    c,
                ) == crate::transport::srv_connected(*old(server), c),
            forall|c: u64, ch: u8| #[trigger]
                crate::transport::srv_outbound(*final(server), c, ch)
                    =~= crate::transport::srv_outbound(*old(server), c, ch),
            final(self).notifications@.len() >= old(self).notifications@.len(),
            final(self).notifications@.take(old(self).notifications@.len() as int) == old(
                self,
            ).notifications@,
            forall|j: int|
                old(self).notifications@.len() <= j < final(self).notifications@.len()
                    ==> is_forced_disconnect(#[trigger] final(self).notifications@[j]),
            final(self).running == old(self).running,
            final(self).received == old(self).received,
            final(self).outgoing == old(self).outgoing,
            final(self).disconnect_requests == old(self).disconnect_requests,
            forall|ch: u8| #[trigger]
                crate::transport::srv_sendable(*final(server), ch)
                    == crate::transport::srv_sendable(*old(server), ch),
            forall|ch: u8| #[trigger]
                crate::transport::srv_receivable(*final(server), ch)
                    == crate::transport::srv_receivable(*old(server), ch),
    {
        match self.bridge.resolve(logical_id) {
            Some(client_id) => {
                proof {
                    assert(self.bridge.rev_map().contains_key(client_id));
                    assert(self.bridge.rev_map()[client_id] == logical_id);
                }
                self.apply_disconnect(client_id, DisconnectCause::ByServer);
                crate::transport::server_disconnect(server, client_id);
                proof {
                    assert(self.notifications@.drop_last() =~= old(self).notifications@);
                    assert(self.notifications@.take(old(self).notifications@.len() as int)
                        =~= old(self).notifications@);
                }
            },
            None => {},
        }
    }

    /// The disconnect request relay: destroys the record of every peer the
    /// framework asked to drop and tells the transport to disconnect it.
    /// Runs strictly after the outbound pump in the post-update phase, so the
    /// tick's final messages are already handed to the transport — their
    /// queues are left untouched here.
    pub fn disconnect_by_request(&mut self, server: &mut renet::RenetServer)
        requires
            old(self).wf(),
        ensures
            final(self).wf(),
            final(self).disconnect_requests@ =~= Seq::<u64>::empty(),
            forall|l: u64|
                #[trigger] final(self).bridge.map().contains_key(l) <==> (old(
                    self,
                ).bridge.map().contains_key(l) && !old(self).disconnect_requests@.contains(l)),
            forall|l: u64| #[trigger]
                final(self).bridge.map().contains_key(l) ==> final(self).bridge.map()[l] == old(
                    self,
                ).bridge.map()[l],
            forall|c: u64| #[trigger]
                crate::transport::srv_connected(*final(server), c) == (
                crate::transport::srv_connected(*old(server), c) && !(old(
                    self,
                ).bridge.rev_map().contains_key(c) && old(self).disconnect_requests@.contains(
                    old(self).bridge.rev_map()[c],
                ))),
            forall|c: u64, ch: u8| #[trigger]
                crate::transport::srv_outbound(*final(server), c, ch)
                    =~= crate::transport::srv_outbound(*old(server), c, ch),
            final(self).notifications@.len() >= old(self).notifications@.len(),
            final(self).notifications@.take(old(self).notifications@.len() as int) == old(
                self,
            ).notifications@,
            forall|j: int|
                old(self).notifications@.len() <= j < final(self).notifications@.len()
                    ==> is_forced_disconnect(#[trigger] final(self).notifications@[j]),
            final(self).running == old(self).running,
            final(self).received == old(self).received,
            final(self).outgoing == old(self).outgoing,
            forall|ch: u8| #[trigger]
                crate::transport::srv_sendable(*final(server), ch)
                    == crate::transport::srv_sendable(*old(server), ch),
            forall|ch: u8| #[trigger]
                crate::transport::srv_receivable(*final(server), ch)
                    == crate::transport::srv_receivable(*old(server), ch),
    {
        let ghost requests = old(self).disconnect_requests@;
        let mut k: usize = 0;
        let total: usize = self.disconnect_requests.len();
        let ghost n = total as nat;
        while self.disconnect_requests.len() > 0
            invariant
                old(self).wf(),
                self.wf(),
                k + self.disconnect_requests@.len() == n,
                n <= usize::MAX,
                requests.len() == n,
                self.disconnect_requests@ == requests.skip(k as int),
                forall|l: u64|
                    #[trigger] self.bridge.map().contains_key(l) <==> (old(
                        self,
                    ).bridge.map().contains_key(l) && !requests.take(k as int).contains(l)),
                forall|l: u64| #[trigger]
                    self.bridge.map().contains_key(l) ==> self.bridge.map()[l] == old(
                        self,
                    ).bridge.map()[l],
                forall|c: u64|
                    #[trigger] self.bridge.rev_map().contains_key(c) <==> (old(
                        self,
                    ).bridge.rev_map().contains_key(c) && !requests.take(k as int).contains(
                        old(self).bridge.rev_map()[c],
                    )),
                forall|c: u64| #[trigger]
                    self.bridge.rev_map().contains_key(c) ==> self.bridge.rev_map()[c] == old(
                        self,
                    ).bridge.rev_map()[c],
                forall|c: u64| #[trigger]
                    crate::transport::srv_connected(*server, c) == (
                    crate::transport::srv_connected(*old(server), c) && !(old(
                        self,
                    ).bridge.rev_map().contains_key(c) && requests.take(k as int).contains(
                        old(self).bridge.rev_map()[c],
                    ))),
                forall|c: u64, ch: u8| #[trigger]
                    crate::transport::srv_outbound(*server, c, ch)
                        =~= crate::transport::srv_outbound(*old(server), c, ch),
                self.notifications@.len() >= old(self).notifications@.len(),
                self.notifications@.take(old(self).notifications@.len() as int) == old(
                    self,
                ).notifications@,
                forall|j: int|
                    old(self).notifications@.len() <= j < self.notifications@.len()
                        ==> is_forced_disconnect(#[trigger] self.notifications@[j]),
                self.running == old(self).running,
                self.received == old(self).received,
                self.outgoing == old(self).outgoing,
                forall|ch: u8| #[trigger]
                    crate::transport::srv_sendable(*server, ch) == crate::transport::srv_sendable(
                        *old(server),
                        ch,
                    ),
                forall|ch: u8| #[trigger]
                    crate::transport::srv_receivable(*server, ch)
                        == crate::transport::srv_receivable(*old(server), ch),
            decreases self.disconnect_requests@.len(),
        {
            let ghost self_top = *self;
            let logical_id = self.disconnect_requests.remove(0);
            proof {
                assert(logical_id == requests[k as int]);
                assert(self.disconnect_requests@ =~= requests.skip(k as int + 1));
                assert(requests.take(k as int + 1).drop_last() =~= requests.take(k as int));
                assert(self.bridge == self_top.bridge);
                assert(self.records == self_top.records);
                assert(self.wf());
            }
            let ghost self_mid = *self;
            let ghost server_mid = *server;
            match self.bridge.resolve(logical_id) {
                Some(client_id) => {
                    proof {
                        assert(self.bridge.rev_map().contains_key(client_id));
                        assert(self.bridge.rev_map()[client_id] == logical_id);
                    }
                    self.apply_disconnect(client_id, DisconnectCause::ByServer);
                    crate::transport::server_disconnect(server, client_id);
                    proof {
                        assert(self.notifications@.take(old(self).notifications@.len() as int)
                            =~= self_mid.notifications@.take(
                            old(self).notifications@.len() as int,
                        ));
                        assert(!self.bridge.map().contains_key(logical_id));
                        assert forall|c: u64|
                            #[trigger] self.bridge.rev_map().contains_key(c) <==> (
                            self_mid.bridge.rev_map().contains_key(c)
                                && self_mid.bridge.rev_map()[c] != logical_id) by {
                            if self_mid.bridge.rev_map().contains_key(c)
                                && self_mid.bridge.rev_map()[c] == logical_id {
                                assert(self_mid.bridge.map()[logical_id] == c);
                                assert(c == client_id);
                            }
                        }
                        assert forall|c: u64| #[trigger]
                            crate::transport::srv_connected(*server, c) == (
                            crate::transport::srv_connected(server_mid, c) && !(
                            self_mid.bridge.rev_map().contains_key(c)
                                && self_mid.bridge.rev_map()[c] == logical_id)) by {
                            if self_mid.bridge.rev_map().contains_key(c)
                                && self_mid.bridge.rev_map()[c] == logical_id {
                                assert(self_mid.bridge.map()[logical_id] == c);
                                assert(c == client_id);
                            }
                        }
                    }
                },
                None => {
                    proof {
                        assert(!self_mid.bridge.map().contains_key(logical_id));
                        assert forall|c: u64|
                            #[trigger] self.bridge.rev_map().contains_key(c) <==> (
                            self_mid.bridge.rev_map().contains_key(c)
                                && self_mid.bridge.rev_map()[c] != logical_id) by {
                            if self_mid.bridge.rev_map().contains_key(c)
                                && self_mid.bridge.rev_map()[c] == logical_id {
                                assert(self_mid.bridge.map().contains_key(logical_id));
                            }
                        }
                        assert forall|c: u64| #[trigger]
                            crate::transport::srv_connected(*server, c) == (
                            crate::transport::srv_connected(server_mid, c) && !(
                            self_mid.bridge.rev_map().contains_key(c)
                                && self_mid.bridge.rev_map()[c] == logical_id)) by {
                            if self_mid.bridge.rev_map().contains_key(c)
                                && self_mid.bridge.rev_map()[c] == logical_id {
                                assert(self_mid.bridge.map().contains_key(logical_id));
                            }
                        }
                    }
                },
            }
            k = k + 1;
            proof {
                assert(!self.bridge.map().contains_key(logical_id));
                assert forall|l: u64|
                    l != logical_id implies #[trigger] self.bridge.map().contains_key(l)
                    == self_mid.bridge.map().contains_key(l) by {}
                assert(requests.take(k as int)[k as int - 1] == logical_id);
                assert(requests.take(k as int).contains(logical_id));
                assert forall|l: u64| #[trigger]
                    self.bridge.map().contains_key(l) <==> (old(self).bridge.map().contains_key(l)
                        && !requests.take(k as int).contains(l)) by {
                    if requests.take(k as int).contains(l) {
                        let j = choose|j: int|
                            0 <= j < k as int && #[trigger] requests.take(k as int)[j] == l;
                        if j < k as int - 1 {
                            assert(requests.take(k as int - 1)[j] == l);
                            assert(requests.take(k as int - 1).contains(l));
                        }
                    }
                    if requests.take(k as int - 1).contains(l) {
                        let j = choose|j: int|
                            0 <= j < k as int - 1 && #[trigger] requests.take(k as int - 1)[j] == l;
                        assert(requests.take(k as int)[j] == l);
                        assert(requests.take(k as int).contains(l));
                    }
                }
                assert forall|c: u64| #[trigger]
                    self.bridge.rev_map().contains_key(c) <==> (old(
                        self,
                    ).bridge.rev_map().contains_key(c) && !requests.take(k as int).contains(
                        old(self).bridge.rev_map()[c],
                    )) by {
                    let l = old(self).bridge.rev_map()[c];
                    if requests.take(k as int).contains(l) {
                        let j = choose|j: int|
                            0 <= j < k as int && #[trigger] requests.take(k as int)[j] == l;
                        if j < k as int - 1 {
                            assert(requests.take(k as int - 1)[j] == l);
                            assert(requests.take(k as int - 1).contains(l));
                        }
                    }
                    if requests.take(k as int - 1).contains(l) {
                        let j = choose|j: int|
                            0 <= j < k as int - 1 && #[trigger] requests.take(k as int - 1)[j] == l;
                        assert(requests.take(k as int)[j] == l);
                        assert(requests.take(k as int).contains(l));
                    }
                }
                assert forall|c: u64| #[trigger]
                    crate::transport::srv_connected(*server, c) == (
                    crate::transport::srv_connected(*old(server), c) && !(old(
                        self,
                    ).bridge.rev_map().contains_key(c) && requests.take(k as int).contains(
                        old(self).bridge.rev_map()[c],
                    ))) by {
                    if old(self).bridge.rev_map().contains_key(c) {
                        let l = old(self).bridge.rev_map()[c];
                        if requests.take(k as int).contains(l)
                            && !requests.take(k as int - 1).contains(l) {
                            let j = choose|j: int|
                                0 <= j < k as int && #[trigger] requests.take(k as int)[j] == l;
                            if j < k as int - 1 {
                                assert(requests.take(k as int - 1)[j] == l);
                            }
                            assert(j == k as int - 1);
                            assert(l == requests[k as int - 1]);
                        }
                        if requests.take(k as int - 1).contains(l) {
                            let j = choose|j: int|
                                0 <= j < k as int - 1 && #[trigger] requests.take(k as int - 1)[j] == l;
                            assert(requests.take(k as int)[j] == l);
                            assert(requests.take(k as int).contains(l));
                        }
                    }
                }
            }
        }
        proof {
            assert(requests.take(n as int) =~= requests);
        }
    }
}

impl ServerContext {
    /// The pre-update phase of one tick, in the required order: first the
    /// lifecycle monitor applies the transport's events, then the inbound
    /// pump drains every channel of every peer — so a freshly connected
    /// peer's first messages are picked up, and a lost peer's stale messages
    /// are not pulled under its old identity.
    pub fn server_pre_update(
        &mut self,
        server: &mut renet::RenetServer,
        events: Vec<TransportEvent>,
        channel_count: u8,
    )
        requires
            old(self).wf(),
            old(self).bridge.next() + events@.len() <= u64::MAX,
            forall|ch: u8|
                ch < channel_count ==> crate::transport::srv_receivable(*old(server), ch),
        ensures
            final(self).wf(),
            lifecycle_of(*final(self)) == lifecycle_run(lifecycle_of(*old(self)), events@),
            final(self).running == old(self).running,
            final(self).outgoing == old(self).outgoing,
            final(self).disconnect_requests == old(self).disconnect_requests,
            old(self).received@.len() <= final(self).received@.len(),
            final(self).received@.take(old(self).received@.len() as int) == old(self).received@,
            ({
                let run = lifecycle_run(lifecycle_of(*old(self)), events@);
                &&& forall|l: u64, ch: u8|
                    run.fwd.contains_key(l) && ch < channel_count ==> #[trigger] received_from(
                        final(self).received@,
                        l,
                        ch,
                    ) =~= received_from(old(self).received@, l, ch)
                        + crate::transport::srv_inbound(*old(server), run.fwd[l], ch)
                &&& forall|l: u64, ch: u8|
                    !(run.fwd.contains_key(l) && ch < channel_count) ==> #[trigger] received_from(
                        final(self).received@,
                        l,
                        ch,
                    ) =~= received_from(old(self).received@, l, ch)
                &&& forall|c: u64, ch: u8|
                    run.rev.contains_key(c) && ch < channel_count
                        ==> #[trigger] crate::transport::srv_inbound(*final(server), c, ch) =~= Seq::<
                        Seq<u8>,
                    >::empty()
            }),
            forall|c: u64, ch: u8| #[trigger]
                crate::transport::srv_outbound(*final(server), c, ch)
                    =~= crate::transport::srv_outbound(*old(server), c, ch),
            forall|c: u64| #[trigger]
                crate::transport::srv_connected(*final(server), c)
                    == crate::transport::srv_connected(*old(server), c),
            forall|ch: u8| #[trigger]
                crate::transport::srv_sendable(*final(server), ch)
                    == crate::transport::srv_sendable(*old(server), ch),
            forall|ch: u8| #[trigger]
                crate::transport::srv_receivable(*final(server), ch)
                    == crate::transport::srv_receivable(*old(server), ch),
    {
        self.process_server_events(events);
        let ghost run = lifecycle_run(lifecycle_of(*old(self)), events@);
        proof {
            assert(self.bridge.map() == run.fwd);
            assert(self.bridge.rev_map() == run.rev);
        }
        self.receive_packets(server, channel_count);
    }

    /// The post-update phase of one tick, in the required order: first the
    /// outbound pump hands every queued message to the transport, then the
    /// disconnect request relay tears requested peers down — so a final
    /// message queued for a peer in its last tick is handed over before the
    /// disconnect is applied.
    pub fn server_post_update(&mut self, server: &mut renet::RenetServer)
        requires
            old(self).wf(),
            forall|i: int|
                0 <= i < old(self).outgoing@.len() ==> old(self).bridge.map().contains_key(
                    (#[trigger] old(self).outgoing@[i]).logical_id,
                ),
            forall|i: int|
                0 <= i < old(self).outgoing@.len() ==> crate::transport::srv_sendable(
                    *old(server),
                    (#[trigger] old(self).outgoing@[i]).channel_id,
                ),
            forall|c: u64, ch: u8|
                crate::transport::srv_connected(*old(server), c) ==> #[trigger] queued_bytes_for(
                    old(self).outgoing@,
                    old(self).bridge.map(),
                    c,
                    ch,
                ) <= crate::transport::srv_room(*old(server), c, ch),
        ensures
            final(self).wf(),
            final(self).outgoing@ =~= Seq::<OutboundMessage>::empty(),
            final(self).disconnect_requests@ =~= Seq::<u64>::empty(),
            final(self).running == old(self).running,
            final(self).received == old(self).received,
            // Every message queued this tick reaches the transport's queues
            // before any requested teardown is applied.
            forall|c: u64, ch: u8|
                crate::transport::srv_connected(*old(server), c) ==> #[trigger] crate::transport::srv_outbound(
                    *final(server),
                    c,
                    ch,
                ) =~= crate::transport::srv_outbound(*old(server), c, ch) + queued_for(
                    old(self).outgoing@,
                    old(self).bridge.map(),
                    c,
                    ch,
                ),
            forall|c: u64, ch: u8|
                !crate::transport::srv_connected(*old(server), c)
                    ==> #[trigger] crate::transport::srv_outbound(*final(server), c, ch)
                    =~= crate::transport::srv_outbound(*old(server), c, ch),
            forall|l: u64|
                #[trigger] final(self).bridge.map().contains_key(l) <==> (old(
                    self,
                ).bridge.map().contains_key(l) && !old(self).disconnect_requests@.contains(l)),
            forall|c: u64| #[trigger]
                crate::transport::srv_connected(*final(server), c) == (
                crate::transport::srv_connected(*old(server), c) && !(old(
                    self,
                ).bridge.rev_map().contains_key(c) && old(self).disconnect_requests@.contains(
                    old(self).bridge.rev_map()[c],
                ))),
    {
        self.send_packets(server);
        self.disconnect_by_request(server);
    }
}

/// Exactly-once notification: one transport event yields exactly one
/// lifecycle notification — a connect of an unknown client id appends one
/// connected notification, a disconnect of a known one appends one
/// disconnected notification with the reported cause, and nothing is ever
/// appended twice for one event.
pub proof fn lemma_exactly_once_notification(v: LifecycleView, event: TransportEvent)
    ensures
        lifecycle_step(v, event).notifications.len() <= v.notifications.len() + 1,
        (event matches TransportEvent::Connected { client_id } ==> (!v.rev.contains_key(client_id)
            ==> lifecycle_step(v, event).notifications == v.notifications.push(
            Notification::Connected { logical_id: v.next as u64, client_id },
        ))),
        (event matches TransportEvent::Disconnected { client_id, cause } ==> (v.rev.contains_key(
            client_id,
        ) ==> lifecycle_step(v, event).notifications == v.notifications.push(
            Notification::Disconnected { logical_id: v.rev[client_id], client_id, cause },
        ))),
{
}

/// Connect/disconnect symmetry: over one connect-then-disconnect of a single
/// connection, exactly one record is created and exactly one is destroyed,
/// the identity bridge holds the pair exactly while the connection is up,
/// and records and bridge return to where they started.
pub proof fn lemma_connect_disconnect_symmetry(
    v: LifecycleView,
    client_id: u64,
    cause: DisconnectCause,
)
    requires
        !v.rev.contains_key(client_id),
        !v.fwd.contains_key(v.next as u64),
        forall|i: int|
            0 <= i < v.records.len() ==> (#[trigger] v.records[i]).logical_id != v.next as u64,
        forall|i: int, j: int|
            0 <= i < j < v.records.len() ==> (#[trigger] v.records[i]).logical_id != (
            #[trigger] v.records[j]).logical_id,
        0 <= v.next < u64::MAX,
    ensures
        ({
            let connected = lifecycle_step(v, TransportEvent::Connected { client_id });
            let parted = lifecycle_step(
                connected,
                TransportEvent::Disconnected { client_id, cause },
            );
            &&& connected.records.len() == v.records.len() + 1
            &&& connected.fwd.contains_key(v.next as u64) && connected.fwd[v.next as u64]
                == client_id
            &&& connected.rev.contains_key(client_id) && connected.rev[client_id] == v.next as u64
            &&& connected.notifications == v.notifications.push(Notification::Connected {
                logical_id: v.next as u64,
                client_id,
            })
            &&& parted.records =~= v.records
            &&& parted.fwd =~= v.fwd
            &&& parted.rev =~= v.rev
            &&& !parted.fwd.contains_key(v.next as u64)
            &&& !parted.rev.contains_key(client_id)
            &&& parted.notifications == connected.notifications.push(Notification::Disconnected {
                logical_id: v.next as u64,
                client_id,
                cause,
            })
        }),
{
    let logical = v.next as u64;
    let connected = lifecycle_step(v, TransportEvent::Connected { client_id });
    let i = choose|i: int|
        0 <= i < connected.records.len() && (#[trigger] connected.records[i]).logical_id == logical;
    assert(connected.records[v.records.len() as int].logical_id == logical);
    assert(i == v.records.len() as int);
    assert(connected.records.remove(i) =~= v.records);
}

} // verus!

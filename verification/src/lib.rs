//! Binds a replication framework's transport-agnostic view of a network
//! (channels, connected peers, byte messages) to the renet messaging
//! transport.
//!
//! The crate models the framework side explicitly: a channel registry that is
//! translated into renet channel configurations, an identity bridge that pairs
//! the framework's logical connection handles with renet's numeric client
//! ids, and per-tick pump functions that move payload bytes and lifecycle
//! events between the two systems. All calls into renet go through a small
//! set of trusted wrappers in [`transport`]; everything around them is
//! verified.

pub mod channels;
pub mod client;
pub mod identity;
pub mod server;
pub mod transport;

pub use channels::Channel;
pub use channels::ChannelEntry;
pub use channels::ChannelRegistry;
pub use channels::ChannelSettings;
pub use channels::SendKind;
pub use client::ClientContext;
pub use client::ClientStatus;
pub use identity::IdentityBridge;
pub use server::DisconnectCause;
pub use server::Notification;
pub use server::ServerContext;
pub use server::TransportEvent;

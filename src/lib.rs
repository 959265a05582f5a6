//! A relay that shares the pose of every connected peer with every other
//! peer: peer admission, the world state store, the peer registry and the
//! decisions of the broadcast engine, all verified.
//!
//! Floating-point values never appear here: a coordinate or a rotation is
//! carried as the bit pattern of its `f32` (`f32::to_bits`), since the relay
//! only stores and forwards them.

mod client;
mod laws;
mod protocol;
mod reconnect;
mod registry;
mod relay;
mod store;

pub use client::{not_of, Game, START_COORDINATE};
pub use laws::{
    admission_ids_strictly_increase, departure_is_complete, malformed_payload_is_harmless,
    upsert_leaves_one_entry,
};
pub use protocol::{ClientMessage, Point, RemoteState, ServerMessage, State};
pub use reconnect::{is_connection_lost, ReconnectPolicy, Recovery, SendFailure};
pub use registry::{has_key, keys_ascending, keys_of, registered, unregistered, PeerRegistry};
pub use relay::{departed, joined, received, reported, Delivery, Relay};
pub use store::{ids_ascending, removed, upserted, WorldStateStore};

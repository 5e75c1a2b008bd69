//! Replication core for a hex-grid world: coordinate and position model,
//! wire protocol with a fixed binary encoding, bidirectional identity
//! mapping, terrain discovery, and the server/client replication drivers.

pub mod hex;
pub mod store;
pub mod components;
pub mod message;
pub mod codec;
pub mod identity;
pub mod terrain;
pub mod client;
pub mod keybits;
pub mod server;

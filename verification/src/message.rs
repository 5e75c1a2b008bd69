//! The wire protocol: event payloads and the authoritative / requested
//! message envelope.
//!
//! `Do` wraps a fact the server asserts; it may only legitimately be
//! originated by the server and must be applied by clients. `Try` wraps a
//! client's request; it may only legitimately be originated by a client
//! and must be validated by the server before it becomes a `Do`.

use vstd::prelude::*;
use crate::hex::Hx;
use crate::components::{EntityType, Pos, Heading};

verus! {

/// Entity id used in a discovery request before the server has assigned
/// a real id.
pub const ENT_PLACEHOLDER: u64 = 0xFFFF_FFFF_FFFF_FFFF;

/// An event: an authoritative fact or a requested fact, depending on the
/// envelope that carries it. Every id on the wire is a server-space id.
#[derive(Clone, Copy, Debug, PartialEq, Eq, Structural)]
pub enum Event {
    /// Create an entity of `typ` at `hx`.
    Spawn { ent: u64, typ: EntityType, hx: Hx },
    /// Remove an entity.
    Despawn { ent: u64 },
    /// Directional intent: a key bitmask and the elapsed time it covers,
    /// in milliseconds.
    Input { ent: u64, key_bits: u8, dt_ms: u32 },
    /// Authoritative position update.
    Move { ent: u64, pos: Pos, heading: Heading },
}

/// The wire envelope: provenance of the event it carries.
#[derive(Clone, Copy, Debug, PartialEq, Eq, Structural)]
pub enum Message {
    /// Server-authoritative: must be applied as fact.
    Do { event: Event },
    /// Client-requested: must be validated by the server first.
    Try { event: Event },
}

impl Event {
    /// The server-space entity id the event speaks about.
    pub open spec fn ent_spec(self) -> u64 {
        match self {
            Event::Spawn { ent, .. } => ent,
            Event::Despawn { ent } => ent,
            Event::Input { ent, .. } => ent,
            Event::Move { ent, .. } => ent,
        }
    }
}

} // verus!

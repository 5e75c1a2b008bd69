//! Client replication driver: applies authoritative broadcasts to the
//! local mirror and forwards local intents upstream, translating entity
//! identifiers at the trust boundary.
//!
//! The driver owns the connection's identity table and terrain index.
//! What it does to the surrounding entity store is handed back as
//! effects; the caller performs them against its entity world.

use vstd::prelude::*;
use crate::hex::Hx;
use crate::components::{EntityType, Pos, Heading, Offset};
use crate::message::{Event, Message};
use crate::codec::{decode_spec, message_bytes, decode_message, encode_message, DecodeError};
use crate::identity::{IdentityMap, to_local_spec, to_server_spec, map_injective, lemma_unbind_clears, BindError};
use crate::terrain::TerrainIndex;

verus! {

/// An operation the driver asks its entity world to perform.
#[derive(Clone, Copy, Debug, PartialEq, Eq, Structural)]
pub enum ClientEffect {
    /// Create a local entity of this kind at this position.
    SpawnLocal { local: u64, typ: EntityType, pos: Pos },
    /// Flag the local entity as the locally controlled avatar.
    MarkControlled { local: u64 },
    /// Remove a local entity.
    DespawnLocal { local: u64 },
    /// Re-emit an authoritative input against a local entity.
    ForwardInput { local: u64, key_bits: u8, dt_ms: u32 },
    /// Overwrite a local entity's position and heading.
    UpdateLocal { local: u64, pos: Pos, heading: Heading },
}

/// The mathematical state of a client driver.
pub struct ClientModel {
    /// Local id to server id, actors only.
    pub bindings: Map<u64, u64>,
    /// Known terrain cells to the local decorator occupying them.
    pub terrain: Map<Hx, u64>,
    /// Next unused local id.
    pub next_local: u64,
    /// The locally controlled actor, once one spawned.
    pub controlled: Option<u64>,
}

/// Every allocated local id is below the allocator mark.
pub open spec fn model_fresh(s: ClientModel) -> bool {
    &&& forall|l: u64| s.bindings.contains_key(l) ==> l < s.next_local
    &&& s.bindings.dom().finite()
}

/// The position a spawn event places an entity at: the announced cell,
/// no sub-tile offset yet.
pub open spec fn spawn_pos(hx: Hx) -> Pos {
    Pos { hx, offset: Offset { x: 0, y: 0, z: 0 } }
}

/// State after applying one message.
///
/// A `Try` is a protocol violation here and changes nothing. A spawn
/// allocates a local id and binds it (actors) or records the cell
/// (decorators); a spawn for an already-bound server id or an already
/// known cell changes nothing. Despawn, input and move resolve the
/// server id; an unknown id changes nothing. Despawning the controlled
/// actor clears the control flag with it.
pub open spec fn client_step(s: ClientModel, m: Message) -> ClientModel {
    match m {
        Message::Try { .. } => s,
        Message::Do { event } => match event {
            Event::Spawn { ent, typ, hx } => {
                if s.next_local == u64::MAX {
                    s
                } else {
                    match typ {
                        EntityType::Actor => {
                            if to_local_spec(s.bindings, ent) is Some {
                                s
                            } else {
                                ClientModel {
                                    bindings: s.bindings.insert(s.next_local, ent),
                                    terrain: s.terrain,
                                    next_local: (s.next_local + 1) as u64,
                                    controlled: if s.bindings.dom().len() == 0 {
                                        Some(s.next_local)
                                    } else {
                                        s.controlled
                                    },
                                }
                            }
                        },
                        EntityType::Decorator(_) => {
                            if s.terrain.contains_key(hx) {
                                s
                            } else {
                                ClientModel {
                                    bindings: s.bindings,
                                    terrain: s.terrain.insert(hx, s.next_local),
                                    next_local: (s.next_local + 1) as u64,
                                    controlled: s.controlled,
                                }
                            }
                        },
                    }
                }
            },
            Event::Despawn { ent } => {
                match to_local_spec(s.bindings, ent) {
                    Some(l) => ClientModel {
                        bindings: s.bindings.remove(l),
                        terrain: s.terrain,
                        next_local: s.next_local,
                        controlled: if s.controlled == Some(l) {
                            None
                        } else {
                            s.controlled
                        },
                    },
                    None => s,
                }
            },
            Event::Input { .. } => s,
            Event::Move { .. } => s,
        },
    }
}

/// Effects of one message: what the entity world is asked to do.
pub open spec fn client_effects(s: ClientModel, m: Message) -> Seq<ClientEffect> {
    match m {
        Message::Try { .. } => Seq::empty(),
        Message::Do { event } => match event {
            Event::Spawn { ent, typ, hx } => {
                if s.next_local == u64::MAX {
                    Seq::empty()
                } else {
                    match typ {
                        EntityType::Actor => {
                            if to_local_spec(s.bindings, ent) is Some {
                                Seq::empty()
                            } else {
                                seq![
                                    ClientEffect::SpawnLocal {
                                        local: s.next_local,
                                        typ,
                                        pos: spawn_pos(hx),
                                    },
                                ] + if s.bindings.dom().len() == 0 {
                                    seq![ClientEffect::MarkControlled { local: s.next_local }]
                                } else {
                                    Seq::empty()
                                }
                            }
                        },
                        EntityType::Decorator(_) => {
                            if s.terrain.contains_key(hx) {
                                Seq::empty()
                            } else {
                                seq![
                                    ClientEffect::SpawnLocal {
                                        local: s.next_local,
                                        typ,
                                        pos: spawn_pos(hx),
                                    },
                                ]
                            }
                        },
                    }
                }
            },
            Event::Despawn { ent } => {
                match to_local_spec(s.bindings, ent) {
                    Some(l) => seq![ClientEffect::DespawnLocal { local: l }],
                    None => Seq::empty(),
                }
            },
            Event::Input { ent, key_bits, dt_ms } => {
                match to_local_spec(s.bindings, ent) {
                    Some(l) => seq![ClientEffect::ForwardInput { local: l, key_bits, dt_ms }],
                    None => Seq::empty(),
                }
            },
            Event::Move { ent, pos, heading } => {
                match to_local_spec(s.bindings, ent) {
                    Some(l) => seq![ClientEffect::UpdateLocal { local: l, pos, heading }],
                    None => Seq::empty(),
                }
            },
        },
    }
}

/// What became of one received message or frame; every drop is a logged
/// warning in behaviour, never a fault.
#[derive(Clone, Copy, Debug, PartialEq, Eq, Structural)]
pub enum ClientOutcome {
    /// Applied as authoritative fact.
    Applied,
    /// A `Try` arrived where only `Do` is legitimate: dropped.
    DroppedViolation,
    /// A spawn for a server id already mirrored, which would break the
    /// identity table's bijectivity: dropped.
    DroppedBoundEntity,
    /// A despawn, input or move whose server id is not mirrored:
    /// dropped, expected under churn.
    DroppedUnknownEntity,
    /// A decorator spawn for a cell the terrain index already knows:
    /// dropped.
    DroppedKnownCell,
    /// The local id space is exhausted: dropped.
    DroppedIdSpace,
    /// Not a canonical encoding: dropped, framing stays intact.
    DroppedMalformed,
}

/// Outcome of one message, mirroring `client_step` branch by branch.
pub open spec fn client_outcome_spec(s: ClientModel, m: Message) -> ClientOutcome {
    match m {
        Message::Try { .. } => ClientOutcome::DroppedViolation,
        Message::Do { event } => match event {
            Event::Spawn { ent, typ, hx } => {
                if s.next_local == u64::MAX {
                    ClientOutcome::DroppedIdSpace
                } else {
                    match typ {
                        EntityType::Actor => {
                            if to_local_spec(s.bindings, ent) is Some {
                                ClientOutcome::DroppedBoundEntity
                            } else {
                                ClientOutcome::Applied
                            }
                        },
                        EntityType::Decorator(_) => {
                            if s.terrain.contains_key(hx) {
                                ClientOutcome::DroppedKnownCell
                            } else {
                                ClientOutcome::Applied
                            }
                        },
                    }
                }
            },
            Event::Despawn { ent } => {
                match to_local_spec(s.bindings, ent) {
                    Some(_) => ClientOutcome::Applied,
                    None => ClientOutcome::DroppedUnknownEntity,
                }
            },
            Event::Input { ent, .. } => {
                match to_local_spec(s.bindings, ent) {
                    Some(_) => ClientOutcome::Applied,
                    None => ClientOutcome::DroppedUnknownEntity,
                }
            },
            Event::Move { ent, .. } => {
                match to_local_spec(s.bindings, ent) {
                    Some(_) => ClientOutcome::Applied,
                    None => ClientOutcome::DroppedUnknownEntity,
                }
            },
        },
    }
}

/// State after draining a batch of received frames in order; a frame
/// that is not a canonical encoding is dropped and changes nothing.
pub open spec fn client_run_state(s: ClientModel, frames: Seq<Vec<u8>>) -> ClientModel
    decreases frames.len(),
{
    if frames.len() == 0 {
        s
    } else {
        let s1 = client_run_state(s, frames.drop_last());
        match decode_spec(frames.last()@) {
            Some(m) => client_step(s1, m),
            None => s1,
        }
    }
}

/// Effects of draining a batch of received frames in order.
pub open spec fn client_run_effects(s: ClientModel, frames: Seq<Vec<u8>>) -> Seq<ClientEffect>
    decreases frames.len(),
{
    if frames.len() == 0 {
        Seq::empty()
    } else {
        let s1 = client_run_state(s, frames.drop_last());
        client_run_effects(s, frames.drop_last()) + match decode_spec(frames.last()@) {
            Some(m) => client_effects(s1, m),
            None => Seq::<ClientEffect>::empty(),
        }
    }
}

/// Outcome of each frame of a batch, in order.
pub open spec fn client_run_outcomes(s: ClientModel, frames: Seq<Vec<u8>>) -> Seq<ClientOutcome>
    decreases frames.len(),
{
    if frames.len() == 0 {
        Seq::empty()
    } else {
        let s1 = client_run_state(s, frames.drop_last());
        client_run_outcomes(s, frames.drop_last()).push(
            match decode_spec(frames.last()@) {
                Some(m) => client_outcome_spec(s1, m),
                None => ClientOutcome::DroppedMalformed,
            },
        )
    }
}

/// Client driver state: one connection's tables and id allocator.
pub struct ClientState {
    /// Identity table of this connection.
    pub idmap: IdentityMap,
    /// Known terrain cells.
    pub terrain: TerrainIndex,
    /// Next unused local id.
    pub next_local: u64,
    /// The locally controlled actor, once one spawned.
    pub controlled: Option<u64>,
}

impl ClientState {
    pub open spec fn model(&self) -> ClientModel {
        ClientModel {
            bindings: self.idmap@,
            terrain: self.terrain@,
            next_local: self.next_local,
            controlled: self.controlled,
        }
    }

    pub open spec fn wf(&self) -> bool {
        &&& self.idmap.wf()
        &&& self.terrain.wf()
        &&& model_fresh(self.model())
    }

    /// A fresh client with nothing mirrored yet.
    pub fn new() -> (r: ClientState)
        ensures
            r.wf(),
            r.model() == (ClientModel {
                bindings: Map::<u64, u64>::empty(),
                terrain: Map::<Hx, u64>::empty(),
                next_local: 0,
                controlled: None::<u64>,
            }),
    {
        let r = ClientState {
            idmap: IdentityMap::new(),
            terrain: TerrainIndex::new(),
            next_local: 0,
            controlled: None,
        };
        r
    }

    /// Apply one received message, appending the entity-world operations
    /// it calls for and reporting what became of the message.
    pub fn apply_message(&mut self, msg: &Message, effects: &mut Vec<ClientEffect>) -> (r:
        ClientOutcome)
        requires
            old(self).wf(),
        ensures
            final(self).wf(),
            final(self).model() == client_step(old(self).model(), *msg),
            final(effects)@ == old(effects)@ + client_effects(old(self).model(), *msg),
            r == client_outcome_spec(old(self).model(), *msg),
    {
        match msg {
            Message::Try { event: _ } => {
                // A requested fact has no authority here: dropped.
                proof {
                    assert(final(effects)@ =~= old(effects)@ + client_effects(
                        old(self).model(),
                        *msg,
                    ));
                }
                ClientOutcome::DroppedViolation
            },
            Message::Do { event } => match event {
                Event::Spawn { ent, typ, hx } => {
                    if self.next_local == u64::MAX {
                        proof {
                            assert(final(effects)@ =~= old(effects)@ + client_effects(
                                old(self).model(),
                                *msg,
                            ));
                        }
                        return ClientOutcome::DroppedIdSpace;
                    }
                    match typ {
                        EntityType::Actor => {
                            let first = self.idmap.count() == 0;
                            let local = self.next_local;
                            match self.idmap.bind(local, *ent) {
                                Ok(()) => {
                                    effects.push(
                                        ClientEffect::SpawnLocal {
                                            local,
                                            typ: *typ,
                                            pos: Pos {
                                                hx: *hx,
                                                offset: Offset { x: 0, y: 0, z: 0 },
                                            },
                                        },
                                    );
                                    if first {
                                        self.controlled = Some(local);
                                        effects.push(ClientEffect::MarkControlled { local });
                                    }
                                    self.next_local = self.next_local + 1;
                                    proof {
                                        assert(final(effects)@ =~= old(effects)@ + client_effects(
                                            old(self).model(),
                                            *msg,
                                        ));
                                    }
                                    ClientOutcome::Applied
                                },
                                Err(BindError::ServerBound) => {
                                    // The server id is already mirrored: dropped.
                                    proof {
                                        assert(final(effects)@ =~= old(effects)@ + client_effects(
                                            old(self).model(),
                                            *msg,
                                        ));
                                    }
                                    ClientOutcome::DroppedBoundEntity
                                },
                                Err(BindError::LocalBound) => {
                                    proof {
                                        assert(to_server_spec(old(self).idmap@, local) is None);
                                        assert(false);
                                    }
                                    ClientOutcome::DroppedBoundEntity
                                },
                            }
                        },
                        EntityType::Decorator(_) => {
                            let local = self.next_local;
                            let fresh = self.terrain.record(*hx, local);
                            if fresh {
                                effects.push(
                                    ClientEffect::SpawnLocal {
                                        local,
                                        typ: *typ,
                                        pos: Pos { hx: *hx, offset: Offset { x: 0, y: 0, z: 0 } },
                                    },
                                );
                                self.next_local = self.next_local + 1;
                            }
                            proof {
                                assert(final(effects)@ =~= old(effects)@ + client_effects(
                                    old(self).model(),
                                    *msg,
                                ));
                            }
                            if fresh {
                                ClientOutcome::Applied
                            } else {
                                ClientOutcome::DroppedKnownCell
                            }
                        },
                    }
                },
                Event::Despawn { ent } => {
                    match self.idmap.unbind(*ent) {
                        Some(l) => {
                            effects.push(ClientEffect::DespawnLocal { local: l });
                            match self.controlled {
                                Some(c) => {
                                    if c == l {
                                        self.controlled = None;
                                    }
                                },
                                None => {},
                            }
                            proof {
                                old(self).idmap.lemma_wf_injective();
                                let lw = choose|l2: u64|
                                    old(self).idmap@.contains_key(l2) && old(self).idmap@[l2]
                                        == *ent;
                                assert(old(self).idmap@.contains_key(l) && old(self).idmap@[l]
                                    == *ent);
                                assert(old(self).idmap@[lw] == old(self).idmap@[l]);
                                assert(lw == l);
                                assert(final(effects)@ =~= old(effects)@ + client_effects(
                                    old(self).model(),
                                    *msg,
                                ));
                            }
                            ClientOutcome::Applied
                        },
                        None => {
                            // Unknown id: expected under churn, dropped.
                            proof {
                                assert(final(effects)@ =~= old(effects)@ + client_effects(
                                    old(self).model(),
                                    *msg,
                                ));
                            }
                            ClientOutcome::DroppedUnknownEntity
                        },
                    }
                },
                Event::Input { ent, key_bits, dt_ms } => {
                    let r = match self.idmap.resolve_to_local(*ent) {
                        Some(l) => {
                            effects.push(
                                ClientEffect::ForwardInput {
                                    local: l,
                                    key_bits: *key_bits,
                                    dt_ms: *dt_ms,
                                },
                            );
                            ClientOutcome::Applied
                        },
                        None => {
                            // Unknown id: dropped.
                            ClientOutcome::DroppedUnknownEntity
                        },
                    };
                    proof {
                        assert(final(effects)@ =~= old(effects)@ + client_effects(
                            old(self).model(),
                            *msg,
                        ));
                    }
                    r
                },
                Event::Move { ent, pos, heading } => {
                    let r = match self.idmap.resolve_to_local(*ent) {
                        Some(l) => {
                            effects.push(
                                ClientEffect::UpdateLocal { local: l, pos: *pos, heading: *heading },
                            );
                            ClientOutcome::Applied
                        },
                        None => {
                            // Unknown id: dropped.
                            ClientOutcome::DroppedUnknownEntity
                        },
                    };
                    proof {
                        assert(final(effects)@ =~= old(effects)@ + client_effects(
                            old(self).model(),
                            *msg,
                        ));
                    }
                    r
                },
            },
        }
    }

    /// Drain a batch of received frames in order: decode each, drop the
    /// malformed, apply the authoritative ones, and hand back the
    /// entity-world operations they call for, with what became of each
    /// frame, in order, for the caller's log.
    pub fn do_server_events(&mut self, frames: &Vec<Vec<u8>>) -> (r: (
        Vec<ClientEffect>,
        Vec<ClientOutcome>,
    ))
        requires
            old(self).wf(),
        ensures
            final(self).wf(),
            final(self).model() == client_run_state(old(self).model(), frames@),
            r.0@ == client_run_effects(old(self).model(), frames@),
            r.1@ == client_run_outcomes(old(self).model(), frames@),
    {
        let mut effects: Vec<ClientEffect> = Vec::new();
        let mut outcomes: Vec<ClientOutcome> = Vec::new();
        let n = frames.len();
        let mut i: usize = 0;
        while i < n
            invariant
                0 <= i <= n,
                n == frames@.len(),
                self.wf(),
                self.model() == client_run_state(old(self).model(), frames@.take(i as int)),
                effects@ == client_run_effects(old(self).model(), frames@.take(i as int)),
                outcomes@ == client_run_outcomes(old(self).model(), frames@.take(i as int)),
            decreases n - i,
        {
            let outcome = match decode_message(&frames[i]) {
                Ok(m) => self.apply_message(&m, &mut effects),
                Err(DecodeError::Malformed) => {
                    // Malformed frame: dropped; framing stays intact.
                    ClientOutcome::DroppedMalformed
                },
            };
            outcomes.push(outcome);
            proof {
                assert(frames@.take(i + 1).drop_last() =~= frames@.take(i as int));
                assert(frames@.take(i + 1).last() == frames@[i as int]);
            }
            i += 1;
        }
        proof {
            assert(frames@.take(n as int) =~= frames@);
        }
        (effects, outcomes)
    }

    /// The `Try` messages owed for a batch of locally originated events:
    /// inputs whose entity is bound, translated to server space. Anything
    /// else, and any unbound entity, is dropped, never queued.
    pub fn try_events(&self, events: &Vec<Event>) -> (out: Vec<Vec<u8>>)
        requires
            self.wf(),
        ensures
            out@.len() == try_events_spec(self.model(), events@).len(),
            forall|j: int|
                0 <= j < out@.len() ==> (#[trigger] out@[j])@ == message_bytes(
                    try_events_spec(self.model(), events@)[j],
                ),
    {
        let mut out: Vec<Vec<u8>> = Vec::new();
        let n = events.len();
        let mut i: usize = 0;
        while i < n
            invariant
                0 <= i <= n,
                n == events@.len(),
                self.wf(),
                out@.len() == try_events_spec(self.model(), events@.take(i as int)).len(),
                forall|j: int|
                    0 <= j < out@.len() ==> (#[trigger] out@[j])@ == message_bytes(
                        try_events_spec(self.model(), events@.take(i as int))[j],
                    ),
            decreases n - i,
        {
            let ghost prefix = try_events_spec(self.model(), events@.take(i as int));
            match events[i] {
                Event::Input { ent, key_bits, dt_ms } => {
                    match self.idmap.resolve_to_server(ent) {
                        Some(server) => {
                            let m = Message::Try {
                                event: Event::Input { ent: server, key_bits, dt_ms },
                            };
                            let bytes = encode_message(&m);
                            out.push(bytes);
                        },
                        None => {
                            // Not yet bound: the intent is dropped.
                        },
                    }
                },
                _ => {
                    // Only inputs travel upstream.
                },
            }
            proof {
                assert(events@.take(i + 1).drop_last() =~= events@.take(i as int));
                assert(events@.take(i + 1).last() == events@[i as int]);
            }
            i += 1;
        }
        proof {
            assert(events@.take(n as int) =~= events@);
        }
        out
    }
}

/// The upstream messages owed for locally originated events.
pub open spec fn try_events_spec(s: ClientModel, events: Seq<Event>) -> Seq<Message>
    decreases events.len(),
{
    if events.len() == 0 {
        Seq::empty()
    } else {
        try_events_spec(s, events.drop_last()) + match events.last() {
            Event::Input { ent, key_bits, dt_ms } => {
                match to_server_spec(s.bindings, ent) {
                    Some(server) => seq![
                        Message::Try { event: Event::Input { ent: server, key_bits, dt_ms } },
                    ],
                    None => Seq::<Message>::empty(),
                }
            },
            _ => Seq::<Message>::empty(),
        }
    }
}

/// An authoritative spawn, then move, then despawn for one fresh actor
/// id apply cleanly in order: the spawn binds a new local entity, the
/// move updates exactly that entity, the despawn removes it, and the
/// table returns to its starting state.
pub proof fn lemma_spawn_move_despawn_applies(
    s: ClientModel,
    ent: u64,
    hx: Hx,
    pos: Pos,
    heading: Heading,
)
    requires
        model_fresh(s),
        map_injective(s.bindings),
        to_local_spec(s.bindings, ent) is None,
        s.next_local < u64::MAX,
    ensures
        ({
            let m_spawn = Message::Do { event: Event::Spawn { ent, typ: EntityType::Actor, hx } };
            let s1 = client_step(s, m_spawn);
            let m_move = Message::Do { event: Event::Move { ent, pos, heading } };
            let s2 = client_step(s1, m_move);
            let m_desp = Message::Do { event: Event::Despawn { ent } };
            let s3 = client_step(s2, m_desp);
            &&& client_effects(s, m_spawn)[0] == (ClientEffect::SpawnLocal {
                local: s.next_local,
                typ: EntityType::Actor,
                pos: spawn_pos(hx),
            })
            &&& client_effects(s1, m_move) == seq![
                ClientEffect::UpdateLocal { local: s.next_local, pos, heading },
            ]
            &&& client_effects(s2, m_desp) == seq![
                ClientEffect::DespawnLocal { local: s.next_local },
            ]
            &&& s3.bindings == s.bindings
        }),
{
    let nl = s.next_local;
    let m_spawn = Message::Do { event: Event::Spawn { ent, typ: EntityType::Actor, hx } };
    let s1 = client_step(s, m_spawn);
    assert(s1.bindings == s.bindings.insert(nl, ent));
    assert forall|l2: u64| s1.bindings.contains_key(l2) && s1.bindings[l2] == ent implies l2
        == nl by {
        if l2 != nl {
            assert(s.bindings.contains_key(l2) && s.bindings[l2] == ent);
        }
    }
    assert(s1.bindings.contains_key(nl) && s1.bindings[nl] == ent);
    assert(to_local_spec(s1.bindings, ent) == Some(nl)) by {
        let lw = choose|l: u64| s1.bindings.contains_key(l) && s1.bindings[l] == ent;
    }
    let m_move = Message::Do { event: Event::Move { ent, pos, heading } };
    let s2 = client_step(s1, m_move);
    assert(s2 == s1);
    let m_desp = Message::Do { event: Event::Despawn { ent } };
    let s3 = client_step(s2, m_desp);
    assert(s3.bindings == s1.bindings.remove(nl));
    assert(!s.bindings.contains_key(nl));
    assert(s3.bindings =~= s.bindings);
}

/// A move for an id that was never spawned is ignored: it changes
/// nothing and asks the entity world for nothing.
pub proof fn lemma_move_before_spawn_ignored(s: ClientModel, ent: u64, pos: Pos, heading: Heading)
    requires
        to_local_spec(s.bindings, ent) is None,
    ensures
        client_step(s, Message::Do { event: Event::Move { ent, pos, heading } }) == s,
        client_effects(s, Message::Do { event: Event::Move { ent, pos, heading } })
            == Seq::<ClientEffect>::empty(),
{
}

/// A duplicate despawn is a no-op: once an id has been despawned, a
/// second despawn for it changes nothing and asks for nothing.
pub proof fn lemma_despawn_idempotent(s: ClientModel, ent: u64)
    requires
        map_injective(s.bindings),
    ensures
        ({
            let m = Message::Do { event: Event::Despawn { ent } };
            let s1 = client_step(s, m);
            &&& client_step(s1, m) == s1
            &&& client_effects(s1, m) == Seq::<ClientEffect>::empty()
        }),
{
    let m = Message::Do { event: Event::Despawn { ent } };
    let s1 = client_step(s, m);
    match to_local_spec(s.bindings, ent) {
        Some(l) => {
            assert(s.bindings.contains_key(l) && s.bindings[l] == ent);
            lemma_unbind_clears(s.bindings, l);
            assert(to_local_spec(s1.bindings, ent) is None);
        },
        None => {
            assert(s1 == s);
        },
    }
}

} // verus!

//! Server replication driver: the authoritative side.
//!
//! The server owns the true state of all entities. It accepts client
//! intents (`Try { Input }`), queues them against the entity each
//! connection controls, and on each simulation tick drains the queue,
//! integrates movement, and hands back the authoritative broadcast batch
//! that the transport must deliver to every connected client.

use vstd::prelude::*;
use crate::hex::{Hx, hx_add_spec, wrap32, lemma_wrap32_small, lemma_wrap32_absorb};
use crate::components::{EntityType, Pos, Heading, Offset};
use crate::message::{Event, Message};
use crate::codec::decode_spec;
use crate::codec::decode_message;
use crate::codec::DecodeError;
use crate::keybits::{heading_of_keys, heading_of_keys_spec};
use crate::store::{
    assoc_map,
    distinct_keys,
    lemma_assoc_map_dom,
    lemma_assoc_map_value,
    lemma_assoc_map_remove,
};

verus! {

/// One movement step is owed per this many milliseconds of intent time.
pub const MOVE_QUANTUM_MS: u32 = 100;

/// Movement per intent is clamped to this many steps.
pub const MAX_MOVE_STEPS: u32 = 64;

/// A queued movement intent, keyed by the server-space entity it moves.
#[derive(Clone, Copy, Debug, PartialEq, Eq, Structural)]
pub struct Intent {
    pub ent: u64,
    pub key_bits: u8,
    pub dt_ms: u32,
}

/// Authoritative state of one entity.
#[derive(Clone, Copy, Debug, PartialEq, Eq, Structural)]
pub struct EntityState {
    pub typ: EntityType,
    pub pos: Pos,
    pub heading: Heading,
}

/// What became of one received frame.
#[derive(Clone, Copy, Debug, PartialEq, Eq, Structural)]
pub enum ReceiveOutcome {
    /// A `Try { Input }` from a known connection: queued.
    Queued,
    /// Not a canonical encoding: dropped, framing intact.
    DroppedMalformed,
    /// A `Do` arrived where only `Try` is legitimate: dropped.
    DroppedViolation,
    /// A `Try` carrying anything but an input: dropped.
    DroppedUnexpected,
    /// The sending connection is not known: dropped.
    DroppedUnknownConnection,
}

/// The mathematical state of the server driver.
pub struct ServerModel {
    /// Connection id to the entity it controls.
    pub connections: Map<u64, u64>,
    /// Authoritative entity states by server id.
    pub entities: Map<u64, EntityState>,
    /// Intents awaiting the next tick, in arrival order.
    pub queue: Seq<Intent>,
    /// Next unused server entity id.
    pub next_id: u64,
}

/// `p` advanced `k` steps along `d`.
pub open spec fn hx_stepped(p: Hx, d: Hx, k: nat) -> Hx
    decreases k,
{
    if k == 0 {
        p
    } else {
        hx_add_spec(hx_stepped(p, d, (k - 1) as nat), d)
    }
}

/// Stepping is linear: advancing `k` steps along `d` lands on the
/// wrapped sum of the start and `k` times the delta, componentwise.
pub proof fn lemma_hx_stepped_linear(p: Hx, d: Hx, k: nat)
    ensures
        hx_stepped(p, d, k).x as int == wrap32(p.x + k * d.x),
        hx_stepped(p, d, k).y as int == wrap32(p.y + k * d.y),
        hx_stepped(p, d, k).z as int == wrap32(p.z + k * d.z),
        hx_stepped(p, d, k).r as int == wrap32(p.r + k * d.r),
    decreases k,
{
    if k == 0 {
        lemma_wrap32_small(p.x as int);
        lemma_wrap32_small(p.y as int);
        lemma_wrap32_small(p.z as int);
        lemma_wrap32_small(p.r as int);
    } else {
        lemma_hx_stepped_linear(p, d, (k - 1) as nat);
        lemma_wrap32_absorb(p.x + (k - 1) * d.x, d.x as int);
        lemma_wrap32_absorb(p.y + (k - 1) * d.y, d.y as int);
        lemma_wrap32_absorb(p.z + (k - 1) * d.z, d.z as int);
        lemma_wrap32_absorb(p.r + (k - 1) * d.r, d.r as int);
        assert((k - 1) * d.x + d.x == k * d.x) by (nonlinear_arith);
        assert((k - 1) * d.y + d.y == k * d.y) by (nonlinear_arith);
        assert((k - 1) * d.z + d.z == k * d.z) by (nonlinear_arith);
        assert((k - 1) * d.r + d.r == k * d.r) by (nonlinear_arith);
    }
}

/// Steps owed for an intent: one per full quantum of elapsed time,
/// clamped.
pub open spec fn intent_steps(it: Intent) -> nat {
    let k = it.dt_ms as int / MOVE_QUANTUM_MS as int;
    if k > MAX_MOVE_STEPS as int {
        MAX_MOVE_STEPS as nat
    } else {
        k as nat
    }
}

/// The entity after integrating one intent: the hex cell advanced along
/// the requested heading, the heading updated, everything else kept.
pub open spec fn moved_entity(e: EntityState, it: Intent) -> EntityState {
    let h = heading_of_keys_spec(it.key_bits);
    EntityState {
        typ: e.typ,
        pos: Pos { hx: hx_stepped(e.pos.hx, h.0, intent_steps(it)), offset: e.pos.offset },
        heading: h,
    }
}

/// Entities after draining a queue in order; an intent whose entity is
/// gone (despawned before the tick) is dropped.
pub open spec fn apply_intents(es: Map<u64, EntityState>, q: Seq<Intent>) -> Map<u64, EntityState>
    decreases q.len(),
{
    if q.len() == 0 {
        es
    } else {
        let es1 = apply_intents(es, q.drop_last());
        let it = q.last();
        if es1.contains_key(it.ent) {
            es1.insert(it.ent, moved_entity(es1[it.ent], it))
        } else {
            es1
        }
    }
}

/// The authoritative moves announced for a drained queue, in order.
pub open spec fn intent_messages(es: Map<u64, EntityState>, q: Seq<Intent>) -> Seq<Message>
    decreases q.len(),
{
    if q.len() == 0 {
        Seq::empty()
    } else {
        let es1 = apply_intents(es, q.drop_last());
        let it = q.last();
        intent_messages(es, q.drop_last()) + if es1.contains_key(it.ent) {
            seq![
                Message::Do {
                    event: Event::Move {
                        ent: it.ent,
                        pos: moved_entity(es1[it.ent], it).pos,
                        heading: moved_entity(es1[it.ent], it).heading,
                    },
                },
            ]
        } else {
            Seq::<Message>::empty()
        }
    }
}

/// State after one received frame.
pub open spec fn receive_step(s: ServerModel, conn_id: u64, frame: Seq<u8>) -> ServerModel {
    match decode_spec(frame) {
        Some(Message::Try { event: Event::Input { ent: _, key_bits, dt_ms } }) => {
            if s.connections.contains_key(conn_id) {
                ServerModel {
                    queue: s.queue.push(
                        Intent { ent: s.connections[conn_id], key_bits, dt_ms },
                    ),
                    ..s
                }
            } else {
                s
            }
        },
        _ => s,
    }
}

/// Outcome of one received frame.
pub open spec fn receive_outcome_spec(s: ServerModel, conn_id: u64, frame: Seq<u8>)
    -> ReceiveOutcome {
    match decode_spec(frame) {
        None => ReceiveOutcome::DroppedMalformed,
        Some(Message::Do { .. }) => ReceiveOutcome::DroppedViolation,
        Some(Message::Try { event: Event::Input { .. } }) => {
            if s.connections.contains_key(conn_id) {
                ReceiveOutcome::Queued
            } else {
                ReceiveOutcome::DroppedUnknownConnection
            }
        },
        Some(Message::Try { .. }) => ReceiveOutcome::DroppedUnexpected,
    }
}

/// The position a new actor spawns at.
pub open spec fn connect_pos() -> Pos {
    Pos { hx: Hx { x: 0, y: 0, z: 0, r: 0 }, offset: Offset { x: 0, y: 0, z: 0 } }
}

/// Server driver state.
pub struct ServerState {
    connections: Vec<(u64, u64)>,
    entities: Vec<(u64, EntityState)>,
    queue: Vec<Intent>,
    next_id: u64,
}

impl ServerState {
    pub closed spec fn model(&self) -> ServerModel {
        ServerModel {
            connections: assoc_map(self.connections@),
            entities: assoc_map(self.entities@),
            queue: self.queue@,
            next_id: self.next_id,
        }
    }

    pub closed spec fn wf(&self) -> bool {
        &&& distinct_keys(self.connections@)
        &&& distinct_keys(self.entities@)
        &&& forall|j: int|
            0 <= j < self.entities@.len() ==> (#[trigger] self.entities@[j]).0 < self.next_id
    }

    /// A server with no connections and no entities.
    pub fn new() -> (r: ServerState)
        ensures
            r.wf(),
            r.model() == (ServerModel {
                connections: Map::<u64, u64>::empty(),
                entities: Map::<u64, EntityState>::empty(),
                queue: Seq::<Intent>::empty(),
                next_id: 0,
            }),
    {
        ServerState { connections: Vec::new(), entities: Vec::new(), queue: Vec::new(), next_id: 0 }
    }

    /// The entity a connection controls, if the connection is known.
    pub fn connection_entity(&self, conn_id: u64) -> (r: Option<u64>)
        requires
            self.wf(),
        ensures
            r == (if self.model().connections.contains_key(conn_id) {
                Some(self.model().connections[conn_id])
            } else {
                None::<u64>
            }),
    {
        let n = self.connections.len();
        let mut i: usize = 0;
        while i < n
            invariant
                0 <= i <= n,
                n == self.connections@.len(),
                self.wf(),
                forall|j: int| 0 <= j < i ==> (#[trigger] self.connections@[j]).0 != conn_id,
            decreases n - i,
        {
            if self.connections[i].0 == conn_id {
                proof {
                    lemma_assoc_map_value(self.connections@, i as int);
                }
                return Some(self.connections[i].1);
            }
            i += 1;
        }
        proof {
            lemma_assoc_map_dom(self.connections@, conn_id);
        }
        None
    }

    /// Accept a new connection: spawn its actor at the origin and hand
    /// back the authoritative announcement owed to every client. A
    /// connection id already in use, or an exhausted id space, changes
    /// nothing.
    pub fn on_connect(&mut self, conn_id: u64) -> (broadcast: Vec<Message>)
        requires
            old(self).wf(),
        ensures
            final(self).wf(),
            ({
                let s = old(self).model();
                if s.connections.contains_key(conn_id) || s.next_id == u64::MAX {
                    &&& final(self).model() == s
                    &&& broadcast@ == Seq::<Message>::empty()
                } else {
                    &&& final(self).model() == (ServerModel {
                        connections: s.connections.insert(conn_id, s.next_id),
                        entities: s.entities.insert(
                            s.next_id,
                            EntityState {
                                typ: EntityType::Actor,
                                pos: connect_pos(),
                                heading: Heading(Hx { x: 0, y: 0, z: 0, r: 0 }),
                            },
                        ),
                        queue: s.queue,
                        next_id: (s.next_id + 1) as u64,
                    })
                    &&& broadcast@ == seq![
                        Message::Do {
                            event: Event::Spawn {
                                ent: s.next_id,
                                typ: EntityType::Actor,
                                hx: Hx { x: 0, y: 0, z: 0, r: 0 },
                            },
                        },
                    ]
                }
            }),
    {
        if self.next_id == u64::MAX {
            return Vec::new();
        }
        if self.connection_entity(conn_id).is_some() {
            return Vec::new();
        }
        let ent = self.next_id;
        let ghost oldconns = self.connections@;
        let ghost oldents = self.entities@;
        proof {
            lemma_assoc_map_dom(oldconns, conn_id);
            lemma_assoc_map_dom(oldents, ent);
        }
        self.connections.push((conn_id, ent));
        self.entities.push(
            (
                ent,
                EntityState {
                    typ: EntityType::Actor,
                    pos: Pos { hx: Hx { x: 0, y: 0, z: 0, r: 0 }, offset: Offset { x: 0, y: 0, z: 0 } },
                    heading: Heading(Hx { x: 0, y: 0, z: 0, r: 0 }),
                },
            ),
        );
        self.next_id = self.next_id + 1;
        proof {
            assert(self.connections@.drop_last() =~= oldconns);
            assert(self.entities@.drop_last() =~= oldents);
            assert forall|j: int| 0 <= j < oldconns.len() implies (#[trigger] oldconns[j]).0
                != conn_id by {
                lemma_assoc_map_dom(oldconns, conn_id);
            }
            assert forall|j: int| 0 <= j < oldents.len() implies (#[trigger] oldents[j]).0
                != ent by {}
        }
        let mut broadcast: Vec<Message> = Vec::new();
        broadcast.push(
            Message::Do {
                event: Event::Spawn { ent, typ: EntityType::Actor, hx: Hx { x: 0, y: 0, z: 0, r: 0 } },
            },
        );
        broadcast
    }

    /// Drop a connection: despawn the entity it controlled and hand back
    /// the announcement owed to every remaining client.
    pub fn on_disconnect(&mut self, conn_id: u64) -> (broadcast: Vec<Message>)
        requires
            old(self).wf(),
        ensures
            final(self).wf(),
            ({
                let s = old(self).model();
                if s.connections.contains_key(conn_id) {
                    &&& final(self).model() == (ServerModel {
                        connections: s.connections.remove(conn_id),
                        entities: s.entities.remove(s.connections[conn_id]),
                        queue: s.queue,
                        next_id: s.next_id,
                    })
                    &&& broadcast@ == seq![
                        Message::Do { event: Event::Despawn { ent: s.connections[conn_id] } },
                    ]
                } else {
                    &&& final(self).model() == s
                    &&& broadcast@ == Seq::<Message>::empty()
                }
            }),
    {
        let n = self.connections.len();
        let mut i: usize = 0;
        while i < n
            invariant
                0 <= i <= n,
                n == self.connections@.len(),
                old(self) == self,
                self.wf(),
                forall|j: int| 0 <= j < i ==> (#[trigger] self.connections@[j]).0 != conn_id,
            decreases n - i,
        {
            if self.connections[i].0 == conn_id {
                let ent = self.connections[i].1;
                proof {
                    lemma_assoc_map_value(self.connections@, i as int);
                    lemma_assoc_map_remove(self.connections@, i as int);
                }
                self.connections.remove(i);
                let ghost es = assoc_map(self.entities@);
                self.remove_entity(ent);
                proof {
                    if !es.contains_key(ent) {
                        assert(es.remove(ent) =~= es);
                    }
                }
                let mut broadcast: Vec<Message> = Vec::new();
                broadcast.push(Message::Do { event: Event::Despawn { ent } });
                return broadcast;
            }
            i += 1;
        }
        proof {
            lemma_assoc_map_dom(self.connections@, conn_id);
        }
        Vec::new()
    }

    /// Remove an entity by server id; absent ids change nothing.
    fn remove_entity(&mut self, ent: u64)
        requires
            distinct_keys(old(self).entities@),
            forall|j: int|
                0 <= j < old(self).entities@.len() ==> (#[trigger] old(self).entities@[j]).0 < old(
                    self,
                ).next_id,
        ensures
            final(self).connections == old(self).connections,
            final(self).queue == old(self).queue,
            final(self).next_id == old(self).next_id,
            distinct_keys(final(self).entities@),
            forall|j: int|
                0 <= j < final(self).entities@.len() ==> (#[trigger] final(self).entities@[j]).0
                    < final(self).next_id,
            assoc_map(final(self).entities@) == (if assoc_map(old(self).entities@).contains_key(
                ent,
            ) {
                assoc_map(old(self).entities@).remove(ent)
            } else {
                assoc_map(old(self).entities@)
            }),
    {
        let n = self.entities.len();
        let mut i: usize = 0;
        while i < n
            invariant
                0 <= i <= n,
                n == self.entities@.len(),
                old(self) == self,
                distinct_keys(self.entities@),
                forall|j: int|
                    0 <= j < self.entities@.len() ==> (#[trigger] self.entities@[j]).0
                        < self.next_id,
                forall|j: int| 0 <= j < i ==> (#[trigger] self.entities@[j]).0 != ent,
            decreases n - i,
        {
            if self.entities[i].0 == ent {
                let ghost before = self.entities@;
                proof {
                    lemma_assoc_map_value(self.entities@, i as int);
                    lemma_assoc_map_remove(self.entities@, i as int);
                }
                self.entities.remove(i);
                proof {
                    before.remove_ensures(i as int);
                    assert(before == old(self).entities@);
                    assert forall|j: int| 0 <= j < self.entities@.len() implies (
                    #[trigger] self.entities@[j]).0 < self.next_id by {
                        if j < i {
                            assert(self.entities@[j] == before[j]);
                            assert((before[j]).0 < self.next_id);
                        } else {
                            assert(self.entities@[j] == before[j + 1]);
                            assert((before[j + 1]).0 < self.next_id);
                        }
                    }
                }
                return ;
            }
            i += 1;
        }
        proof {
            lemma_assoc_map_dom(self.entities@, ent);
        }
    }

    /// Take delivery of one frame from a connection. Only a `Try`
    /// carrying an input from a known connection is queued — against the
    /// entity that connection controls, whatever id the frame claims.
    /// Everything else is dropped, and the kind of drop reported.
    pub fn receive(&mut self, conn_id: u64, frame: &Vec<u8>) -> (r: ReceiveOutcome)
        requires
            old(self).wf(),
        ensures
            final(self).wf(),
            final(self).model() == receive_step(old(self).model(), conn_id, frame@),
            r == receive_outcome_spec(old(self).model(), conn_id, frame@),
    {
        match decode_message(frame) {
            Err(DecodeError::Malformed) => ReceiveOutcome::DroppedMalformed,
            Ok(Message::Do { .. }) => ReceiveOutcome::DroppedViolation,
            Ok(Message::Try { event }) => match event {
                Event::Input { ent: _, key_bits, dt_ms } => {
                    match self.connection_entity(conn_id) {
                        Some(controlled) => {
                            self.queue.push(Intent { ent: controlled, key_bits, dt_ms });
                            ReceiveOutcome::Queued
                        },
                        None => ReceiveOutcome::DroppedUnknownConnection,
                    }
                },
                _ => ReceiveOutcome::DroppedUnexpected,
            },
        }
    }

    /// One simulation tick: drain every queued intent in order,
    /// integrate movement, and hand back the authoritative broadcast
    /// owed to all connected clients — the originators included, so
    /// every client converges through the same path.
    pub fn tick(&mut self) -> (broadcast: Vec<Message>)
        requires
            old(self).wf(),
        ensures
            final(self).wf(),
            final(self).model() == (ServerModel {
                connections: old(self).model().connections,
                entities: apply_intents(old(self).model().entities, old(self).model().queue),
                queue: Seq::<Intent>::empty(),
                next_id: old(self).model().next_id,
            }),
            broadcast@ == intent_messages(old(self).model().entities, old(self).model().queue),
    {
        let mut broadcast: Vec<Message> = Vec::new();
        let n = self.queue.len();
        let mut i: usize = 0;
        while i < n
            invariant
                0 <= i <= n,
                n == self.queue@.len(),
                self.queue == old(self).queue,
                self.connections == old(self).connections,
                self.next_id == old(self).next_id,
                distinct_keys(self.connections@),
                distinct_keys(self.entities@),
                forall|j: int|
                    0 <= j < self.entities@.len() ==> (#[trigger] self.entities@[j]).0
                        < self.next_id,
                assoc_map(self.entities@) == apply_intents(
                    assoc_map(old(self).entities@),
                    self.queue@.take(i as int),
                ),
                broadcast@ == intent_messages(
                    assoc_map(old(self).entities@),
                    self.queue@.take(i as int),
                ),
            decreases n - i,
        {
            let it = self.queue[i];
            self.step_intent(it, &mut broadcast);
            proof {
                assert(self.queue@.take(i + 1).drop_last() =~= self.queue@.take(i as int));
                assert(self.queue@.take(i + 1).last() == self.queue@[i as int]);
            }
            i += 1;
        }
        proof {
            assert(self.queue@.take(n as int) =~= old(self).queue@);
        }
        self.queue.clear();
        proof {
            assert(self.queue@ =~= Seq::<Intent>::empty());
        }
        broadcast
    }

    /// Integrate one intent, appending the move it announces.
    fn step_intent(&mut self, it: Intent, broadcast: &mut Vec<Message>)
        requires
            distinct_keys(old(self).entities@),
            forall|j: int|
                0 <= j < old(self).entities@.len() ==> (#[trigger] old(self).entities@[j]).0 < old(
                    self,
                ).next_id,
        ensures
            final(self).connections == old(self).connections,
            final(self).queue == old(self).queue,
            final(self).next_id == old(self).next_id,
            distinct_keys(final(self).entities@),
            forall|j: int|
                0 <= j < final(self).entities@.len() ==> (#[trigger] final(self).entities@[j]).0
                    < final(self).next_id,
            ({
                let es = assoc_map(old(self).entities@);
                if es.contains_key(it.ent) {
                    &&& assoc_map(final(self).entities@) == es.insert(
                        it.ent,
                        moved_entity(es[it.ent], it),
                    )
                    &&& final(broadcast)@ == old(broadcast)@.push(
                        Message::Do {
                            event: Event::Move {
                                ent: it.ent,
                                pos: moved_entity(es[it.ent], it).pos,
                                heading: moved_entity(es[it.ent], it).heading,
                            },
                        },
                    )
                } else {
                    &&& assoc_map(final(self).entities@) == es
                    &&& final(broadcast)@ == old(broadcast)@
                }
            }),
    {
        let n = self.entities.len();
        let mut i: usize = 0;
        while i < n
            invariant
                0 <= i <= n,
                n == self.entities@.len(),
                old(self) == self,
                old(broadcast) == broadcast,
                distinct_keys(self.entities@),
                forall|j: int|
                    0 <= j < self.entities@.len() ==> (#[trigger] self.entities@[j]).0
                        < self.next_id,
                forall|j: int| 0 <= j < i ==> (#[trigger] self.entities@[j]).0 != it.ent,
            decreases n - i,
        {
            if self.entities[i].0 == it.ent {
                let e = self.entities[i].1;
                proof {
                    lemma_assoc_map_value(self.entities@, i as int);
                    lemma_assoc_map_remove(self.entities@, i as int);
                }
                let heading = heading_of_keys(it.key_bits);
                let steps = {
                    let q = it.dt_ms / MOVE_QUANTUM_MS;
                    if q > MAX_MOVE_STEPS {
                        MAX_MOVE_STEPS
                    } else {
                        q
                    }
                };
                let mut hx = e.pos.hx;
                let mut k: u32 = 0;
                while k < steps
                    invariant
                        0 <= k <= steps,
                        hx == hx_stepped(e.pos.hx, heading_of_keys_spec(it.key_bits).0, k as nat),
                        heading == heading_of_keys_spec(it.key_bits),
                    decreases steps - k,
                {
                    hx = hx.add(heading.0);
                    k += 1;
                }
                proof {
                    assert(steps as nat == intent_steps(it));
                }
                let moved = EntityState {
                    typ: e.typ,
                    pos: Pos { hx, offset: e.pos.offset },
                    heading,
                };
                let ghost before = self.entities@;
                self.entities.remove(i);
                let ghost removed = self.entities@;
                proof {
                    before.remove_ensures(i as int);
                }
                self.entities.push((it.ent, moved));
                proof {
                    assert(self.entities@.drop_last() =~= removed);
                    assert forall|j: int| 0 <= j < removed.len() implies (#[trigger] removed[j]).0
                        != it.ent by {
                        lemma_assoc_map_dom(removed, it.ent);
                        lemma_assoc_map_value(removed, j);
                    }
                    assert(assoc_map(self.entities@) == assoc_map(removed).insert(it.ent, moved));
                    assert(assoc_map(before).remove(it.ent).insert(it.ent, moved) =~= assoc_map(
                        before,
                    ).insert(it.ent, moved));
                    assert(before == old(self).entities@);
                    assert forall|j: int| 0 <= j < self.entities@.len() implies (
                    #[trigger] self.entities@[j]).0 < self.next_id by {
                        if j < removed.len() {
                            assert(self.entities@[j] == removed[j]);
                            if j < i {
                                assert(removed[j] == before[j]);
                                assert((before[j]).0 < self.next_id);
                            } else {
                                assert(removed[j] == before[j + 1]);
                                assert((before[j + 1]).0 < self.next_id);
                            }
                        } else {
                            assert(self.entities@[j] == (it.ent, moved));
                            assert(before[i as int].0 == it.ent);
                            assert((before[i as int]).0 < self.next_id);
                        }
                    }
                }
                broadcast.push(
                    Message::Do {
                        event: Event::Move { ent: it.ent, pos: moved.pos, heading: moved.heading },
                    },
                );
                return ;
            }
            i += 1;
        }
        proof {
            lemma_assoc_map_dom(self.entities@, it.ent);
        }
    }
}

} // verus!

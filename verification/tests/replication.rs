//! Client and server replication drivers, and the end-to-end path.

use hexrep::hex::Hx;
use hexrep::components::{EntityType, Heading, Offset, Pos};
use hexrep::message::{Event, Message};
use hexrep::codec::encode_message;
use hexrep::client::{ClientEffect, ClientOutcome, ClientState};
use hexrep::server::{ReceiveOutcome, ServerState};
use hexrep::keybits::KEY_UP;

fn hx(x: i32, y: i32, z: i32, r: i32) -> Hx {
    Hx { x, y, z, r }
}

fn frame(m: Message) -> Vec<u8> {
    encode_message(&m)
}

fn frames_of(msgs: &[Message]) -> Vec<Vec<u8>> {
    msgs.iter().map(encode_message).collect()
}

fn spawn_actor(ent: u64) -> Vec<u8> {
    frame(Message::Do { event: Event::Spawn { ent, typ: EntityType::Actor, hx: hx(0, 0, 0, 0) } })
}

#[test]
fn spawn_move_despawn_in_order_applies_cleanly() {
    let mut client = ClientState::new();
    let pos = Pos { hx: hx(2, 0, 0, 0), offset: Offset { x: 0, y: 0, z: 0 } };
    let heading = Heading(hx(1, 0, 0, 0));
    let frames = vec![
        spawn_actor(5),
        frame(Message::Do { event: Event::Move { ent: 5, pos, heading } }),
        frame(Message::Do { event: Event::Despawn { ent: 5 } }),
    ];
    let (effects, outcomes) = client.do_server_events(&frames);
    assert_eq!(
        effects,
        vec![
            ClientEffect::SpawnLocal {
                local: 0,
                typ: EntityType::Actor,
                pos: Pos { hx: hx(0, 0, 0, 0), offset: Offset { x: 0, y: 0, z: 0 } },
            },
            ClientEffect::MarkControlled { local: 0 },
            ClientEffect::UpdateLocal { local: 0, pos, heading },
            ClientEffect::DespawnLocal { local: 0 },
        ]
    );
    // Every message in the sequence applied; none errored.
    assert_eq!(outcomes, vec![ClientOutcome::Applied; 3]);
}

#[test]
fn move_before_spawn_is_ignored() {
    let mut client = ClientState::new();
    let pos = Pos { hx: hx(2, 0, 0, 0), offset: Offset { x: 0, y: 0, z: 0 } };
    let frames = vec![
        frame(Message::Do { event: Event::Move { ent: 5, pos, heading: Heading(hx(0, 0, 0, 0)) } }),
    ];
    let (effects, outcomes) = client.do_server_events(&frames);
    assert_eq!(effects, vec![]);
    assert_eq!(outcomes, vec![ClientOutcome::DroppedUnknownEntity]);
}

#[test]
fn duplicate_despawn_is_a_no_op() {
    let mut client = ClientState::new();
    let frames = vec![
        spawn_actor(5),
        frame(Message::Do { event: Event::Despawn { ent: 5 } }),
        frame(Message::Do { event: Event::Despawn { ent: 5 } }),
    ];
    let (effects, outcomes) = client.do_server_events(&frames);
    assert_eq!(
        effects,
        vec![
            ClientEffect::SpawnLocal {
                local: 0,
                typ: EntityType::Actor,
                pos: Pos { hx: hx(0, 0, 0, 0), offset: Offset { x: 0, y: 0, z: 0 } },
            },
            ClientEffect::MarkControlled { local: 0 },
            ClientEffect::DespawnLocal { local: 0 },
        ]
    );
    // The duplicate is reported as an unknown-id drop, not applied twice.
    assert_eq!(
        outcomes,
        vec![
            ClientOutcome::Applied,
            ClientOutcome::Applied,
            ClientOutcome::DroppedUnknownEntity,
        ]
    );
}

#[test]
fn only_the_first_actor_is_marked_controlled() {
    let mut client = ClientState::new();
    let effects = client.do_server_events(&vec![spawn_actor(5), spawn_actor(6)]).0;
    let marks = effects
        .iter()
        .filter(|e| matches!(e, ClientEffect::MarkControlled { .. }))
        .count();
    assert_eq!(marks, 1);
    assert_eq!(effects[1], ClientEffect::MarkControlled { local: 0 });
}

#[test]
fn a_try_received_by_the_client_is_dropped() {
    let mut client = ClientState::new();
    let frames = vec![
        frame(Message::Try { event: Event::Despawn { ent: 5 } }),
    ];
    let (effects, outcomes) = client.do_server_events(&frames);
    assert_eq!(effects, vec![]);
    assert_eq!(outcomes, vec![ClientOutcome::DroppedViolation]);
}

#[test]
fn a_malformed_frame_does_not_break_the_ones_after_it() {
    let mut client = ClientState::new();
    let frames = vec![vec![0xFF, 0xFF, 0xFF], spawn_actor(5)];
    let (effects, outcomes) = client.do_server_events(&frames);
    assert_eq!(effects.len(), 2);
    assert_eq!(effects[1], ClientEffect::MarkControlled { local: 0 });
    assert_eq!(outcomes, vec![ClientOutcome::DroppedMalformed, ClientOutcome::Applied]);
}

#[test]
fn decorator_spawns_fill_the_terrain_index_once() {
    let mut client = ClientState::new();
    let deco = frame(Message::Do {
        event: Event::Spawn {
            ent: 9,
            typ: EntityType::Decorator(hexrep::components::DecoratorDescriptor {
                index: 1,
                is_solid: true,
            }),
            hx: hx(1, 0, 0, 0),
        },
    });
    let (effects, outcomes) = client.do_server_events(&vec![deco.clone(), deco]);
    // The duplicate announcement for a known cell is ignored.
    assert_eq!(effects.len(), 1);
    assert_eq!(outcomes, vec![ClientOutcome::Applied, ClientOutcome::DroppedKnownCell]);
    assert!(client.terrain.contains(hx(1, 0, 0, 0)));
}

#[test]
fn local_intents_are_translated_or_dropped() {
    let mut client = ClientState::new();
    client.do_server_events(&vec![spawn_actor(77)]);
    let out = client.try_events(&vec![
        // Bound: travels upstream under the server-space id.
        Event::Input { ent: 0, key_bits: KEY_UP, dt_ms: 100 },
        // Unbound local entity: dropped, never queued.
        Event::Input { ent: 3, key_bits: KEY_UP, dt_ms: 100 },
        // Not an input: dropped.
        Event::Despawn { ent: 0 },
    ]);
    assert_eq!(out.len(), 1);
    assert_eq!(
        out[0],
        frame(Message::Try { event: Event::Input { ent: 77, key_bits: KEY_UP, dt_ms: 100 } })
    );
}

#[test]
fn server_classifies_received_frames() {
    let mut server = ServerState::new();
    let spawns = server.on_connect(1);
    assert_eq!(spawns.len(), 1);
    assert_eq!(server.receive(1, &vec![1, 2]), ReceiveOutcome::DroppedMalformed);
    let do_frame = frame(Message::Do { event: Event::Despawn { ent: 0 } });
    assert_eq!(server.receive(1, &do_frame), ReceiveOutcome::DroppedViolation);
    let try_despawn = frame(Message::Try { event: Event::Despawn { ent: 0 } });
    assert_eq!(server.receive(1, &try_despawn), ReceiveOutcome::DroppedUnexpected);
    let input = frame(Message::Try { event: Event::Input { ent: 0, key_bits: KEY_UP, dt_ms: 100 } });
    assert_eq!(server.receive(9, &input), ReceiveOutcome::DroppedUnknownConnection);
    assert_eq!(server.receive(1, &input), ReceiveOutcome::Queued);
}

#[test]
fn one_tick_turns_an_input_into_a_broadcast_move() {
    let mut server = ServerState::new();
    let spawns = server.on_connect(1);
    let ent = match spawns[0] {
        Message::Do { event: Event::Spawn { ent, .. } } => ent,
        _ => panic!("a connect must announce a spawn"),
    };
    // The connection owning `ent` asks to move up for a tenth of a second.
    let input = frame(Message::Try {
        event: Event::Input { ent, key_bits: KEY_UP, dt_ms: 100 },
    });
    assert_eq!(server.receive(1, &input), ReceiveOutcome::Queued);
    let broadcast = server.tick();
    assert_eq!(
        broadcast,
        vec![Message::Do {
            event: Event::Move {
                ent,
                pos: Pos { hx: hx(0, 1, 0, 0), offset: Offset { x: 0, y: 0, z: 0 } },
                heading: Heading(hx(0, 1, 0, 0)),
            },
        }]
    );
    // Every client, the originator included, converges through the same
    // authoritative path.
    let mut client = ClientState::new();
    client.do_server_events(&frames_of(&spawns));
    let effects = client.do_server_events(&frames_of(&broadcast)).0;
    assert_eq!(
        effects,
        vec![ClientEffect::UpdateLocal {
            local: 0,
            pos: Pos { hx: hx(0, 1, 0, 0), offset: Offset { x: 0, y: 0, z: 0 } },
            heading: Heading(hx(0, 1, 0, 0)),
        }]
    );
}

#[test]
fn movement_is_quantised_and_clamped() {
    let mut server = ServerState::new();
    let spawns = server.on_connect(1);
    let ent = match spawns[0] {
        Message::Do { event: Event::Spawn { ent, .. } } => ent,
        _ => panic!("a connect must announce a spawn"),
    };
    // 250 ms is two whole quanta; the re-send after the tick starts from
    // the already-advanced position.
    let input = frame(Message::Try { event: Event::Input { ent, key_bits: KEY_UP, dt_ms: 250 } });
    server.receive(1, &input);
    let first = server.tick();
    match first[0] {
        Message::Do { event: Event::Move { pos, .. } } => assert_eq!(pos.hx, hx(0, 2, 0, 0)),
        _ => panic!("a tick with queued input must announce a move"),
    }
    // An absurd elapsed time moves at most the clamp.
    let huge = frame(Message::Try {
        event: Event::Input { ent, key_bits: KEY_UP, dt_ms: u32::MAX },
    });
    server.receive(1, &huge);
    let second = server.tick();
    match second[0] {
        Message::Do { event: Event::Move { pos, .. } } => assert_eq!(pos.hx, hx(0, 2 + 64, 0, 0)),
        _ => panic!("a tick with queued input must announce a move"),
    }
}

#[test]
fn disconnect_despawns_and_later_intents_are_dropped() {
    let mut server = ServerState::new();
    let spawns = server.on_connect(1);
    let ent = match spawns[0] {
        Message::Do { event: Event::Spawn { ent, .. } } => ent,
        _ => panic!("a connect must announce a spawn"),
    };
    let input = frame(Message::Try { event: Event::Input { ent, key_bits: KEY_UP, dt_ms: 100 } });
    assert_eq!(server.receive(1, &input), ReceiveOutcome::Queued);
    let byes = server.on_disconnect(1);
    assert_eq!(byes, vec![Message::Do { event: Event::Despawn { ent } }]);
    // The entity is gone before the tick: its queued intent is dropped.
    assert_eq!(server.tick(), vec![]);
    // The connection is gone too.
    assert_eq!(server.receive(1, &input), ReceiveOutcome::DroppedUnknownConnection);
}

//! Wire codec, identity table and terrain discovery.

use hexrep::hex::Hx;
use hexrep::components::{DecoratorDescriptor, EntityType, Heading, Offset, Pos};
use hexrep::message::{Event, Message, ENT_PLACEHOLDER};
use hexrep::codec::{encode_message, decode_message, DecodeError, WIRE_VERSION};
use hexrep::identity::{IdentityMap, BindError};
use hexrep::terrain::{TerrainIndex, discover_tiles, DISCOVER_TILE_INDEX};

fn hx(x: i32, y: i32, z: i32, r: i32) -> Hx {
    Hx { x, y, z, r }
}

fn round_trip(m: Message) {
    let bytes = encode_message(&m);
    assert_eq!(decode_message(&bytes), Ok(m));
}

#[test]
fn codec_round_trips_every_shape() {
    round_trip(Message::Do {
        event: Event::Spawn { ent: 7, typ: EntityType::Actor, hx: hx(1, -2, 3, -4) },
    });
    round_trip(Message::Do {
        event: Event::Spawn {
            ent: u64::MAX,
            typ: EntityType::Decorator(DecoratorDescriptor { index: 9000, is_solid: false }),
            hx: hx(i32::MIN, i32::MAX, 0, 1),
        },
    });
    round_trip(Message::Try { event: Event::Despawn { ent: 0 } });
    round_trip(Message::Do { event: Event::Despawn { ent: 12345678901234567890 } });
    round_trip(Message::Try {
        event: Event::Input { ent: 7, key_bits: 0b110101, dt_ms: 100 },
    });
    round_trip(Message::Do {
        event: Event::Move {
            ent: 42,
            pos: Pos { hx: hx(5, 6, 7, 8), offset: Offset { x: -1, y: 2000000, z: -65536 } },
            heading: Heading(hx(0, -1, 0, 0)),
        },
    });
}

#[test]
fn decoder_rejects_what_the_encoder_never_says() {
    // Empty and truncated inputs.
    assert_eq!(decode_message(&vec![]), Err(DecodeError::Malformed));
    assert_eq!(decode_message(&vec![WIRE_VERSION]), Err(DecodeError::Malformed));
    let good = encode_message(&Message::Do { event: Event::Despawn { ent: 5 } });
    let mut truncated = good.clone();
    truncated.pop();
    assert_eq!(decode_message(&truncated), Err(DecodeError::Malformed));
    // A trailing byte breaks the fixed length.
    let mut trailing = good.clone();
    trailing.push(0);
    assert_eq!(decode_message(&trailing), Err(DecodeError::Malformed));
    // A wrong version byte.
    let mut wrong_version = good.clone();
    wrong_version[0] = WIRE_VERSION + 1;
    assert_eq!(decode_message(&wrong_version), Err(DecodeError::Malformed));
    // An unknown envelope tag and an unknown event tag.
    let mut bad_envelope = good.clone();
    bad_envelope[1] = 9;
    assert_eq!(decode_message(&bad_envelope), Err(DecodeError::Malformed));
    let mut bad_event = good.clone();
    bad_event[2] = 9;
    assert_eq!(decode_message(&bad_event), Err(DecodeError::Malformed));
    // An actor spawn whose unused descriptor bytes are not zero is not
    // canonical.
    let spawn = encode_message(&Message::Do {
        event: Event::Spawn { ent: 1, typ: EntityType::Actor, hx: hx(0, 0, 0, 0) },
    });
    let mut dirty = spawn.clone();
    dirty[12] = 1;
    assert_eq!(decode_message(&dirty), Err(DecodeError::Malformed));
    // A solidity byte beyond 0 or 1 is not canonical either.
    let deco = encode_message(&Message::Do {
        event: Event::Spawn {
            ent: 1,
            typ: EntityType::Decorator(DecoratorDescriptor { index: 2, is_solid: true }),
            hx: hx(0, 0, 0, 0),
        },
    });
    let mut bad_solid = deco.clone();
    bad_solid[20] = 2;
    assert_eq!(decode_message(&bad_solid), Err(DecodeError::Malformed));
}

#[test]
fn identity_round_trips_until_unbind() {
    let mut map = IdentityMap::new();
    assert_eq!(map.count(), 0);
    assert_eq!(map.bind(10, 77), Ok(()));
    assert_eq!(map.bind(11, 78), Ok(()));
    assert_eq!(map.count(), 2);
    // Bound pairs resolve both ways.
    assert_eq!(map.resolve_to_server(10), Some(77));
    assert_eq!(map.resolve_to_local(77), Some(10));
    assert_eq!(map.resolve_to_server(11), Some(78));
    assert_eq!(map.resolve_to_local(78), Some(11));
    // After unbind both directions answer absent.
    assert_eq!(map.unbind(77), Some(10));
    assert_eq!(map.resolve_to_server(10), None);
    assert_eq!(map.resolve_to_local(77), None);
    assert_eq!(map.count(), 1);
    // A second unbind of the same server id is absent, not a fault.
    assert_eq!(map.unbind(77), None);
}

#[test]
fn identity_refuses_duplicate_bindings() {
    let mut map = IdentityMap::new();
    assert_eq!(map.bind(10, 77), Ok(()));
    assert_eq!(map.bind(10, 99), Err(BindError::LocalBound));
    assert_eq!(map.bind(11, 77), Err(BindError::ServerBound));
    assert_eq!(map.count(), 1);
}

#[test]
fn terrain_keeps_the_first_record() {
    let mut map = TerrainIndex::new();
    assert!(!map.contains(hx(1, 0, 0, 0)));
    assert!(map.record(hx(1, 0, 0, 0), 5));
    assert!(map.contains(hx(1, 0, 0, 0)));
    assert_eq!(map.get(hx(1, 0, 0, 0)), Some(5));
    // A second record for the same cell changes nothing.
    assert!(!map.record(hx(1, 0, 0, 0), 9));
    assert_eq!(map.get(hx(1, 0, 0, 0)), Some(5));
    assert_eq!(map.get(hx(0, 1, 0, 0)), None);
}

#[test]
fn discovery_requests_each_unknown_cell_once_per_actor() {
    let mut map = TerrainIndex::new();
    let actors = vec![
        (
            Pos { hx: hx(0, 0, 0, 0), offset: Offset { x: 0, y: 0, z: 0 } },
            Heading(hx(1, 0, 0, 0)),
        ),
    ];
    let events = discover_tiles(&actors, &map);
    assert_eq!(events.len(), 1);
    assert_eq!(
        events[0],
        Event::Spawn {
            ent: ENT_PLACEHOLDER,
            typ: EntityType::Decorator(DecoratorDescriptor {
                index: DISCOVER_TILE_INDEX,
                is_solid: true,
            }),
            hx: hx(1, 0, 0, 0),
        }
    );
    // Once the index records the cell, the same evaluation asks nothing.
    assert!(map.record(hx(1, 0, 0, 0), 3));
    let again = discover_tiles(&actors, &map);
    assert_eq!(again.len(), 0);
}

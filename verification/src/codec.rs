//! Fixed, versioned binary encoding of `Message`.
//!
//! Every integer is little-endian with a fixed width, every variant is a
//! one-byte tag, and each message shape has a single canonical byte
//! string. `message_bytes` is the authoritative definition of the
//! encoding; the encoder produces it exactly and the decoder accepts a
//! byte string if and only if it is the canonical encoding of some
//! message.

use vstd::prelude::*;
use vstd::arithmetic::div_mod::*;
use crate::hex::Hx;
use crate::components::{EntityType, DecoratorDescriptor, Offset, Pos, Heading};
use crate::message::{Event, Message};

verus! {

/// Version tag of the encoding; the first byte of every message.
pub const WIRE_VERSION: u8 = 1;

/// A byte string that is not the canonical encoding of any message.
#[derive(Clone, Copy, Debug, PartialEq, Eq, Structural)]
pub enum DecodeError {
    Malformed,
}

/// `256^n`: the number of values `n` bytes can carry.
pub open spec fn pow256(n: nat) -> int
    decreases n,
{
    if n == 0 {
        1
    } else {
        256 * pow256((n - 1) as nat)
    }
}

/// The little-endian value of `n` bytes of `b` starting at `i`.
pub open spec fn le_nat(b: Seq<u8>, i: int, n: nat) -> int
    decreases n,
{
    if n == 0 {
        0
    } else {
        b[i] + 256 * le_nat(b, i + 1, (n - 1) as nat)
    }
}

/// The `n` little-endian bytes of the non-negative value `v`.
pub open spec fn le_of(v: int, n: nat) -> Seq<u8>
    decreases n,
{
    if n == 0 {
        Seq::empty()
    } else {
        seq![(v % 256) as u8] + le_of(v / 256, (n - 1) as nat)
    }
}

pub proof fn lemma_le_of_len(v: int, n: nat)
    ensures
        le_of(v, n).len() == n,
    decreases n,
{
    if n > 0 {
        lemma_le_of_len(v / 256, (n - 1) as nat);
    }
}

/// Reading the same bytes from two places gives the same value.
pub proof fn lemma_le_nat_pointwise(b: Seq<u8>, i: int, c: Seq<u8>, j: int, n: nat)
    requires
        forall|k: int| 0 <= k < n ==> #[trigger] b[i + k] == c[j + k],
    ensures
        le_nat(b, i, n) == le_nat(c, j, n),
    decreases n,
{
    if n > 0 {
        assert(b[i + 0] == c[j + 0]);
        assert forall|k: int| 0 <= k < n - 1 implies #[trigger] b[i + 1 + k] == c[j + 1 + k] by {
            assert(b[i + (1 + k)] == c[j + (1 + k)]);
        }
        lemma_le_nat_pointwise(b, i + 1, c, j + 1, (n - 1) as nat);
    }
}


proof fn lemma_le_nat_nonneg(b: Seq<u8>, i: int, n: nat)
    ensures
        0 <= le_nat(b, i, n),
    decreases n,
{
    if n > 0 {
        lemma_le_nat_nonneg(b, i + 1, (n - 1) as nat);
    }
}

proof fn lemma_le_nat_bound(b: Seq<u8>, i: int, n: nat)
    ensures
        0 <= le_nat(b, i, n) < pow256(n),
    decreases n,
{
    if n == 0 {
    } else {
        lemma_le_nat_bound(b, i + 1, (n - 1) as nat);
    }
}

/// Writing back the value read from `n` bytes reproduces those bytes.
proof fn lemma_le_of_le_nat(b: Seq<u8>, i: int, n: nat)
    ensures
        forall|k: int| 0 <= k < n ==> #[trigger] le_of(le_nat(b, i, n), n)[k] == b[i + k],
    decreases n,
{
    if n > 0 {
        let v = le_nat(b, i, n);
        let rest = le_nat(b, i + 1, (n - 1) as nat);
        lemma_le_nat_nonneg(b, i + 1, (n - 1) as nat);
        lemma_fundamental_div_mod_converse_mod(v, 256, rest, b[i] as int);
        lemma_fundamental_div_mod_converse_div(v, 256, rest, b[i] as int);
        assert(v % 256 == b[i] as int);
        assert(v / 256 == rest);
        lemma_le_of_le_nat(b, i + 1, (n - 1) as nat);
        lemma_le_of_len(rest, (n - 1) as nat);
        assert forall|k: int| 0 <= k < n implies #[trigger] le_of(v, n)[k] == b[i + k] by {
            if k == 0 {
                assert(le_of(v, n)[0] == (v % 256) as u8);
            } else {
                assert(le_of(v, n)[k] == le_of(rest, (n - 1) as nat)[k - 1]);
                assert(le_of(rest, (n - 1) as nat)[k - 1] == b[(i + 1) + (k - 1)]);
            }
        }
    }
}

/// Reading back the bytes of a value recovers the value.
pub proof fn lemma_le_roundtrip(v: int, n: nat)
    requires
        0 <= v < pow256(n),
    ensures
        le_nat(le_of(v, n), 0, n) == v,
    decreases n,
{
    if n == 0 {
        assert(pow256(0) == 1);
    } else {
        let rest = le_of(v / 256, (n - 1) as nat);
        let whole = le_of(v, n);
        lemma_le_of_len(v / 256, (n - 1) as nat);
        assert(pow256(n) == 256 * pow256((n - 1) as nat));
        lemma_multiply_divide_lt(v, 256, pow256((n - 1) as nat));
        lemma_le_roundtrip(v / 256, (n - 1) as nat);
        assert forall|k: int| 0 <= k < n - 1 implies #[trigger] whole[1 + k] == rest[0 + k] by {
            assert(whole[1 + k] == rest[1 + k - 1]);
        }
        lemma_le_nat_pointwise(whole, 1, rest, 0, (n - 1) as nat);
        lemma_fundamental_div_mod(v, 256);
    }
}

/// Powers of 256 for the widths the wire uses.
pub proof fn lemma_pow256_values()
    ensures
        pow256(4) == 0x1_0000_0000,
        pow256(8) == 0x1_0000_0000_0000_0000,
{
    assert(pow256(0) == 1);
    assert(pow256(1) == 256);
    assert(pow256(2) == 0x1_0000);
    assert(pow256(3) == 0x100_0000);
    assert(pow256(4) == 0x1_0000_0000);
    assert(pow256(5) == 0x100_0000_0000);
    assert(pow256(6) == 0x1_0000_0000_0000);
    assert(pow256(7) == 0x100_0000_0000_0000);
    assert(pow256(8) == 0x1_0000_0000_0000_0000);
}

/// Two's-complement unsigned image of an `i32` value.
pub open spec fn u32_rep_i32(x: int) -> int {
    if x < 0 {
        x + 0x1_0000_0000
    } else {
        x
    }
}

/// Signed value of a 32-bit unsigned image.
pub open spec fn i32_val_u32(u: int) -> int {
    if u >= 0x8000_0000 {
        u - 0x1_0000_0000
    } else {
        u
    }
}

/// The four little-endian bytes of an `i32` field.
pub open spec fn le4_i32(x: int) -> Seq<u8> {
    le_of(u32_rep_i32(x), 4)
}

pub open spec fn bool_byte(v: bool) -> u8 {
    if v {
        1u8
    } else {
        0u8
    }
}

/// Wire form of a hex coordinate: four `i32` fields.
pub open spec fn hx_bytes(h: Hx) -> Seq<u8> {
    le4_i32(h.x as int) + le4_i32(h.y as int) + le4_i32(h.z as int) + le4_i32(h.r as int)
}

/// Wire form of an offset: three `i32` fields.
pub open spec fn offset_bytes(o: Offset) -> Seq<u8> {
    le4_i32(o.x as int) + le4_i32(o.y as int) + le4_i32(o.z as int)
}

/// Wire form of a position: the hex cell, then the offset.
pub open spec fn pos_bytes(p: Pos) -> Seq<u8> {
    hx_bytes(p.hx) + offset_bytes(p.offset)
}

/// Wire form of an entity kind. Both variants take ten bytes, so every
/// event shape has one fixed length; an actor's unused descriptor bytes
/// must be zero, which keeps the encoding canonical.
pub open spec fn typ_bytes(t: EntityType) -> Seq<u8> {
    match t {
        EntityType::Actor => seq![0u8] + le_of(0, 8) + seq![0u8],
        EntityType::Decorator(d) => seq![1u8] + le_of(d.index as int, 8) + seq![
            bool_byte(d.is_solid),
        ],
    }
}

/// Wire form of an event: a one-byte tag, then its fixed-width fields.
pub open spec fn event_bytes(e: Event) -> Seq<u8> {
    match e {
        Event::Spawn { ent, typ, hx } => seq![0u8] + le_of(ent as int, 8) + typ_bytes(typ)
            + hx_bytes(hx),
        Event::Despawn { ent } => seq![1u8] + le_of(ent as int, 8),
        Event::Input { ent, key_bits, dt_ms } => seq![2u8] + le_of(ent as int, 8) + seq![key_bits]
            + le_of(dt_ms as int, 4),
        Event::Move { ent, pos, heading } => seq![3u8] + le_of(ent as int, 8) + pos_bytes(pos)
            + hx_bytes(heading.0),
    }
}

/// The canonical encoding of a message: the version byte, the envelope
/// tag, then the event.
pub open spec fn message_bytes(m: Message) -> Seq<u8> {
    match m {
        Message::Do { event } => seq![WIRE_VERSION, 0u8] + event_bytes(event),
        Message::Try { event } => seq![WIRE_VERSION, 1u8] + event_bytes(event),
    }
}

/// Signed field read at byte position `i`.
pub open spec fn i32_at(b: Seq<u8>, i: int) -> i32 {
    i32_val_u32(le_nat(b, i, 4)) as i32
}

pub open spec fn hx_at(b: Seq<u8>, i: int) -> Hx {
    Hx { x: i32_at(b, i), y: i32_at(b, i + 4), z: i32_at(b, i + 8), r: i32_at(b, i + 12) }
}

pub open spec fn offset_at(b: Seq<u8>, i: int) -> Offset {
    Offset { x: i32_at(b, i), y: i32_at(b, i + 4), z: i32_at(b, i + 8) }
}

pub open spec fn pos_at(b: Seq<u8>, i: int) -> Pos {
    Pos { hx: hx_at(b, i), offset: offset_at(b, i + 16) }
}

/// The event carried by a byte string whose envelope already checked out,
/// or nothing if the bytes are not a canonical event. Requires at least
/// three bytes to be present.
pub open spec fn decode_event_spec(b: Seq<u8>) -> Option<Event> {
    if b[2] == 0u8 {
        if b.len() == 37 && ((b[11] == 0u8 && le_nat(b, 12, 8) == 0 && b[20] == 0u8) || (b[11]
            == 1u8 && le_nat(b, 12, 8) <= usize::MAX as int && (b[20] == 0u8 || b[20] == 1u8))) {
            Some(
                Event::Spawn {
                    ent: le_nat(b, 3, 8) as u64,
                    typ: if b[11] == 0u8 {
                        EntityType::Actor
                    } else {
                        EntityType::Decorator(
                            DecoratorDescriptor {
                                index: le_nat(b, 12, 8) as usize,
                                is_solid: b[20] == 1u8,
                            },
                        )
                    },
                    hx: hx_at(b, 21),
                },
            )
        } else {
            None
        }
    } else if b[2] == 1u8 {
        if b.len() == 11 {
            Some(Event::Despawn { ent: le_nat(b, 3, 8) as u64 })
        } else {
            None
        }
    } else if b[2] == 2u8 {
        if b.len() == 16 {
            Some(
                Event::Input {
                    ent: le_nat(b, 3, 8) as u64,
                    key_bits: b[11],
                    dt_ms: le_nat(b, 12, 4) as u32,
                },
            )
        } else {
            None
        }
    } else if b[2] == 3u8 {
        if b.len() == 55 {
            Some(
                Event::Move {
                    ent: le_nat(b, 3, 8) as u64,
                    pos: pos_at(b, 11),
                    heading: Heading(hx_at(b, 39)),
                },
            )
        } else {
            None
        }
    } else {
        None
    }
}

/// The message a byte string canonically encodes, or nothing.
pub open spec fn decode_spec(b: Seq<u8>) -> Option<Message> {
    if b.len() < 3 || b[0] != WIRE_VERSION || (b[1] != 0u8 && b[1] != 1u8) {
        None
    } else {
        match decode_event_spec(b) {
            Some(e) => Some(
                if b[1] == 0u8 {
                    Message::Do { event: e }
                } else {
                    Message::Try { event: e }
                },
            ),
            None => None,
        }
    }
}

fn push_u64_le(out: &mut Vec<u8>, v: u64)
    ensures
        final(out)@ == old(out)@ + le_of(v as int, 8),
{
    let b0: u8 = (v % 256) as u8;
    let t1: u64 = v / 256;
    let b1: u8 = (t1 % 256) as u8;
    let t2: u64 = t1 / 256;
    let b2: u8 = (t2 % 256) as u8;
    let t3: u64 = t2 / 256;
    let b3: u8 = (t3 % 256) as u8;
    let t4: u64 = t3 / 256;
    let b4: u8 = (t4 % 256) as u8;
    let t5: u64 = t4 / 256;
    let b5: u8 = (t5 % 256) as u8;
    let t6: u64 = t5 / 256;
    let b6: u8 = (t6 % 256) as u8;
    let t7: u64 = t6 / 256;
    let b7: u8 = (t7 % 256) as u8;
    out.push(b0);
    out.push(b1);
    out.push(b2);
    out.push(b3);
    out.push(b4);
    out.push(b5);
    out.push(b6);
    out.push(b7);
    proof {
        assert(t7 as int / 256 == 0);
        assert(le_of(0, 0) =~= Seq::<u8>::empty());
        assert(le_of(t7 as int, 1) =~= seq![b7]);
        assert(le_of(t6 as int, 2) =~= seq![b6] + le_of(t7 as int, 1));
        assert(le_of(t5 as int, 3) =~= seq![b5] + le_of(t6 as int, 2));
        assert(le_of(t4 as int, 4) =~= seq![b4] + le_of(t5 as int, 3));
        assert(le_of(t3 as int, 5) =~= seq![b3] + le_of(t4 as int, 4));
        assert(le_of(t2 as int, 6) =~= seq![b2] + le_of(t3 as int, 5));
        assert(le_of(t1 as int, 7) =~= seq![b1] + le_of(t2 as int, 6));
        assert(le_of(v as int, 8) =~= seq![b0] + le_of(t1 as int, 7));
        assert(le_of(v as int, 8) =~= seq![b0, b1, b2, b3, b4, b5, b6, b7]);
        assert(final(out)@ =~= old(out)@ + le_of(v as int, 8));
    }
}

fn push_u32_le(out: &mut Vec<u8>, v: u32)
    ensures
        final(out)@ == old(out)@ + le_of(v as int, 4),
{
    let b0: u8 = (v % 256) as u8;
    let t1: u32 = v / 256;
    let b1: u8 = (t1 % 256) as u8;
    let t2: u32 = t1 / 256;
    let b2: u8 = (t2 % 256) as u8;
    let t3: u32 = t2 / 256;
    let b3: u8 = (t3 % 256) as u8;
    out.push(b0);
    out.push(b1);
    out.push(b2);
    out.push(b3);
    proof {
        assert(t3 as int / 256 == 0);
        assert(le_of(0, 0) =~= Seq::<u8>::empty());
        assert(le_of(t3 as int, 1) =~= seq![b3]);
        assert(le_of(t2 as int, 2) =~= seq![b2] + le_of(t3 as int, 1));
        assert(le_of(t1 as int, 3) =~= seq![b1] + le_of(t2 as int, 2));
        assert(le_of(v as int, 4) =~= seq![b0] + le_of(t1 as int, 3));
        assert(le_of(v as int, 4) =~= seq![b0, b1, b2, b3]);
        assert(final(out)@ =~= old(out)@ + le_of(v as int, 4));
    }
}

fn push_i32_le(out: &mut Vec<u8>, x: i32)
    ensures
        final(out)@ == old(out)@ + le4_i32(x as int),
{
    let u: u32 = if x < 0 {
        ((x as i64) + 0x1_0000_0000i64) as u32
    } else {
        x as u32
    };
    proof {
        assert(u as int == u32_rep_i32(x as int));
    }
    push_u32_le(out, u);
}

fn push_hx(out: &mut Vec<u8>, h: Hx)
    ensures
        final(out)@ == old(out)@ + hx_bytes(h),
{
    push_i32_le(out, h.x);
    push_i32_le(out, h.y);
    push_i32_le(out, h.z);
    push_i32_le(out, h.r);
    proof {
        assert(final(out)@ =~= old(out)@ + hx_bytes(h));
    }
}

fn push_offset(out: &mut Vec<u8>, o: Offset)
    ensures
        final(out)@ == old(out)@ + offset_bytes(o),
{
    push_i32_le(out, o.x);
    push_i32_le(out, o.y);
    push_i32_le(out, o.z);
    proof {
        assert(final(out)@ =~= old(out)@ + offset_bytes(o));
    }
}

fn push_typ(out: &mut Vec<u8>, t: &EntityType)
    ensures
        final(out)@ == old(out)@ + typ_bytes(*t),
{
    match t {
        EntityType::Actor => {
            out.push(0u8);
            push_u64_le(out, 0);
            out.push(0u8);
            proof {
                assert(final(out)@ =~= old(out)@ + typ_bytes(*t));
            }
        },
        EntityType::Decorator(d) => {
            out.push(1u8);
            push_u64_le(out, d.index as u64);
            out.push(if d.is_solid { 1u8 } else { 0u8 });
            proof {
                assert(final(out)@ =~= old(out)@ + typ_bytes(*t));
            }
        },
    }
}

fn encode_event(out: &mut Vec<u8>, e: &Event)
    ensures
        final(out)@ == old(out)@ + event_bytes(*e),
{
    match e {
        Event::Spawn { ent, typ, hx } => {
            out.push(0u8);
            push_u64_le(out, *ent);
            push_typ(out, typ);
            push_hx(out, *hx);
            proof {
                assert(final(out)@ =~= old(out)@ + event_bytes(*e));
            }
        },
        Event::Despawn { ent } => {
            out.push(1u8);
            push_u64_le(out, *ent);
            proof {
                assert(final(out)@ =~= old(out)@ + event_bytes(*e));
            }
        },
        Event::Input { ent, key_bits, dt_ms } => {
            out.push(2u8);
            push_u64_le(out, *ent);
            out.push(*key_bits);
            push_u32_le(out, *dt_ms);
            proof {
                assert(final(out)@ =~= old(out)@ + event_bytes(*e));
            }
        },
        Event::Move { ent, pos, heading } => {
            out.push(3u8);
            push_u64_le(out, *ent);
            push_hx(out, pos.hx);
            push_offset(out, pos.offset);
            push_hx(out, heading.0);
            proof {
                assert(final(out)@ =~= old(out)@ + event_bytes(*e));
            }
        },
    }
}

/// Encode a message into its canonical byte string.
pub fn encode_message(m: &Message) -> (out: Vec<u8>)
    ensures
        out@ == message_bytes(*m),
{
    let mut out: Vec<u8> = Vec::new();
    out.push(WIRE_VERSION);
    match m {
        Message::Do { event } => {
            out.push(0u8);
            encode_event(&mut out, event);
        },
        Message::Try { event } => {
            out.push(1u8);
            encode_event(&mut out, event);
        },
    }
    proof {
        assert(out@ =~= message_bytes(*m));
    }
    out
}

fn read_u64_le(b: &Vec<u8>, i: usize) -> (r: u64)
    requires
        i + 8 <= b@.len(),
    ensures
        r as int == le_nat(b@, i as int, 8),
{
    let n: usize = b.len();
    let r: u64 = (b[i] as u64) + 256 * ((b[i + 1] as u64) + 256 * ((b[i + 2] as u64) + 256 * ((b[i
        + 3] as u64) + 256 * ((b[i + 4] as u64) + 256 * ((b[i + 5] as u64) + 256 * ((b[i + 6]
        as u64) + 256 * (b[i + 7] as u64)))))));
    proof {
        reveal_with_fuel(le_nat, 9);
    }
    r
}

fn read_u32_le(b: &Vec<u8>, i: usize) -> (r: u32)
    requires
        i + 4 <= b@.len(),
    ensures
        r as int == le_nat(b@, i as int, 4),
{
    let n: usize = b.len();
    let r: u32 = (b[i] as u32) + 256 * ((b[i + 1] as u32) + 256 * ((b[i + 2] as u32) + 256 * (b[i
        + 3] as u32)));
    proof {
        reveal_with_fuel(le_nat, 5);
    }
    r
}

fn read_i32_le(b: &Vec<u8>, i: usize) -> (r: i32)
    requires
        i + 4 <= b@.len(),
    ensures
        r as int == i32_val_u32(le_nat(b@, i as int, 4)),
        r == i32_at(b@, i as int),
{
    let u: u32 = read_u32_le(b, i);
    if u >= 0x8000_0000u32 {
        ((u as i64) - 0x1_0000_0000i64) as i32
    } else {
        u as i32
    }
}

fn read_hx(b: &Vec<u8>, i: usize) -> (r: Hx)
    requires
        i + 16 <= b@.len(),
    ensures
        r == hx_at(b@, i as int),
{
    let n: usize = b.len();
    Hx {
        x: read_i32_le(b, i),
        y: read_i32_le(b, i + 4),
        z: read_i32_le(b, i + 8),
        r: read_i32_le(b, i + 12),
    }
}

fn read_offset(b: &Vec<u8>, i: usize) -> (r: Offset)
    requires
        i + 12 <= b@.len(),
    ensures
        r == offset_at(b@, i as int),
{
    let n: usize = b.len();
    Offset { x: read_i32_le(b, i), y: read_i32_le(b, i + 4), z: read_i32_le(b, i + 8) }
}

/// Decode a byte string; succeeds exactly on the canonical encodings
/// (`lemma_codec_round_trip` and `lemma_decode_canonical` pin both
/// directions of `decode_spec`).
pub fn decode_message(buf: &Vec<u8>) -> (r: Result<Message, DecodeError>)
    ensures
        r == (match decode_spec(buf@) {
            Some(m) => Result::<Message, DecodeError>::Ok(m),
            None => Result::<Message, DecodeError>::Err(DecodeError::Malformed),
        }),
{
    if buf.len() < 3 {
        return Err(DecodeError::Malformed);
    }
    if buf[0] != WIRE_VERSION {
        return Err(DecodeError::Malformed);
    }
    let mtag: u8 = buf[1];
    if mtag != 0 && mtag != 1 {
        return Err(DecodeError::Malformed);
    }
    let etag: u8 = buf[2];
    let event_opt: Option<Event> = if etag == 0 {
        if buf.len() != 37 {
            None
        } else {
            let ent: u64 = read_u64_le(buf, 3);
            let ttag: u8 = buf[11];
            let idx: u64 = read_u64_le(buf, 12);
            let solid: u8 = buf[20];
            let hx: Hx = read_hx(buf, 21);
            if ttag == 0 && idx == 0 && solid == 0 {
                Some(Event::Spawn { ent, typ: EntityType::Actor, hx })
            } else if ttag == 1 && idx <= usize::MAX as u64 && solid <= 1 {
                Some(
                    Event::Spawn {
                        ent,
                        typ: EntityType::Decorator(
                            DecoratorDescriptor { index: idx as usize, is_solid: solid == 1 },
                        ),
                        hx,
                    },
                )
            } else {
                None
            }
        }
    } else if etag == 1 {
        if buf.len() != 11 {
            None
        } else {
            Some(Event::Despawn { ent: read_u64_le(buf, 3) })
        }
    } else if etag == 2 {
        if buf.len() != 16 {
            None
        } else {
            Some(
                Event::Input {
                    ent: read_u64_le(buf, 3),
                    key_bits: buf[11],
                    dt_ms: read_u32_le(buf, 12),
                },
            )
        }
    } else if etag == 3 {
        if buf.len() != 55 {
            None
        } else {
            let ent: u64 = read_u64_le(buf, 3);
            let hx: Hx = read_hx(buf, 11);
            let offset: Offset = read_offset(buf, 27);
            let heading: Hx = read_hx(buf, 39);
            Some(Event::Move { ent, pos: Pos { hx, offset }, heading: Heading(heading) })
        }
    } else {
        None
    };
    match event_opt {
        Some(e) => {
            if mtag == 0 {
                Ok(Message::Do { event: e })
            } else {
                Ok(Message::Try { event: e })
            }
        },
        None => Err(DecodeError::Malformed),
    }
}

proof fn lemma_u64_field_at(b: Seq<u8>, i: int, v: u64)
    requires
        forall|k: int| 0 <= k < 8 ==> #[trigger] b[i + k] == le_of(v as int, 8)[k],
    ensures
        le_nat(b, i, 8) == v as int,
{
    lemma_le_of_len(v as int, 8);
    lemma_le_nat_pointwise(b, i, le_of(v as int, 8), 0, 8);
    lemma_pow256_values();
    lemma_le_roundtrip(v as int, 8);
}

proof fn lemma_u32_field_at(b: Seq<u8>, i: int, v: u32)
    requires
        forall|k: int| 0 <= k < 4 ==> #[trigger] b[i + k] == le_of(v as int, 4)[k],
    ensures
        le_nat(b, i, 4) == v as int,
{
    lemma_le_of_len(v as int, 4);
    lemma_le_nat_pointwise(b, i, le_of(v as int, 4), 0, 4);
    lemma_pow256_values();
    lemma_le_roundtrip(v as int, 4);
}

proof fn lemma_i32_field_at(b: Seq<u8>, i: int, x: i32)
    requires
        forall|k: int| 0 <= k < 4 ==> #[trigger] b[i + k] == le4_i32(x as int)[k],
    ensures
        i32_at(b, i) == x,
{
    lemma_le_of_len(u32_rep_i32(x as int), 4);
    lemma_le_nat_pointwise(b, i, le4_i32(x as int), 0, 4);
    lemma_pow256_values();
    lemma_le_roundtrip(u32_rep_i32(x as int), 4);
}

proof fn lemma_hx_field_at(b: Seq<u8>, i: int, h: Hx)
    requires
        forall|k: int| 0 <= k < 16 ==> #[trigger] b[i + k] == hx_bytes(h)[k],
    ensures
        hx_at(b, i) == h,
{
    let c = hx_bytes(h);
    lemma_le_of_len(u32_rep_i32(h.x as int), 4);
    lemma_le_of_len(u32_rep_i32(h.y as int), 4);
    lemma_le_of_len(u32_rep_i32(h.z as int), 4);
    lemma_le_of_len(u32_rep_i32(h.r as int), 4);
    assert forall|k: int| 0 <= k < 4 implies #[trigger] b[i + k] == le4_i32(h.x as int)[k] by {
        assert(c[k] == le4_i32(h.x as int)[k]);
    }
    lemma_i32_field_at(b, i, h.x);
    assert forall|k: int| 0 <= k < 4 implies #[trigger] b[(i + 4) + k] == le4_i32(h.y as int)[k] by {
        assert(b[i + (4 + k)] == c[4 + k]);
        assert(b[(i + 4) + k] == b[i + (4 + k)]);
        assert(c[4 + k] == le4_i32(h.y as int)[k]);
    }
    lemma_i32_field_at(b, i + 4, h.y);
    assert forall|k: int| 0 <= k < 4 implies #[trigger] b[(i + 8) + k] == le4_i32(h.z as int)[k] by {
        assert(b[i + (8 + k)] == c[8 + k]);
        assert(b[(i + 8) + k] == b[i + (8 + k)]);
        assert(c[8 + k] == le4_i32(h.z as int)[k]);
    }
    lemma_i32_field_at(b, i + 8, h.z);
    assert forall|k: int| 0 <= k < 4 implies #[trigger] b[(i + 12) + k] == le4_i32(h.r as int)[k] by {
        assert(b[i + (12 + k)] == c[12 + k]);
        assert(b[(i + 12) + k] == b[i + (12 + k)]);
        assert(c[12 + k] == le4_i32(h.r as int)[k]);
    }
    lemma_i32_field_at(b, i + 12, h.r);
}

proof fn lemma_offset_field_at(b: Seq<u8>, i: int, o: Offset)
    requires
        forall|k: int| 0 <= k < 12 ==> #[trigger] b[i + k] == offset_bytes(o)[k],
    ensures
        offset_at(b, i) == o,
{
    let c = offset_bytes(o);
    lemma_le_of_len(u32_rep_i32(o.x as int), 4);
    lemma_le_of_len(u32_rep_i32(o.y as int), 4);
    lemma_le_of_len(u32_rep_i32(o.z as int), 4);
    assert forall|k: int| 0 <= k < 4 implies #[trigger] b[i + k] == le4_i32(o.x as int)[k] by {
        assert(c[k] == le4_i32(o.x as int)[k]);
    }
    lemma_i32_field_at(b, i, o.x);
    assert forall|k: int| 0 <= k < 4 implies #[trigger] b[(i + 4) + k] == le4_i32(o.y as int)[k] by {
        assert(b[i + (4 + k)] == c[4 + k]);
        assert(b[(i + 4) + k] == b[i + (4 + k)]);
        assert(c[4 + k] == le4_i32(o.y as int)[k]);
    }
    lemma_i32_field_at(b, i + 4, o.y);
    assert forall|k: int| 0 <= k < 4 implies #[trigger] b[(i + 8) + k] == le4_i32(o.z as int)[k] by {
        assert(b[i + (8 + k)] == c[8 + k]);
        assert(b[(i + 8) + k] == b[i + (8 + k)]);
        assert(c[8 + k] == le4_i32(o.z as int)[k]);
    }
    lemma_i32_field_at(b, i + 8, o.z);
}

proof fn lemma_pos_field_at(b: Seq<u8>, i: int, p: Pos)
    requires
        forall|k: int| 0 <= k < 28 ==> #[trigger] b[i + k] == pos_bytes(p)[k],
    ensures
        pos_at(b, i) == p,
{
    let c = pos_bytes(p);
    lemma_hx_bytes_len(p.hx);
    lemma_offset_bytes_len(p.offset);
    assert forall|k: int| 0 <= k < 16 implies #[trigger] b[i + k] == hx_bytes(p.hx)[k] by {
        assert(c[k] == hx_bytes(p.hx)[k]);
    }
    lemma_hx_field_at(b, i, p.hx);
    assert forall|k: int| 0 <= k < 12 implies #[trigger] b[(i + 16) + k] == offset_bytes(
        p.offset,
    )[k] by {
        assert(b[i + (16 + k)] == c[16 + k]);
        assert(b[(i + 16) + k] == b[i + (16 + k)]);
        assert(c[16 + k] == offset_bytes(p.offset)[k]);
    }
    lemma_offset_field_at(b, i + 16, p.offset);
}

pub proof fn lemma_hx_bytes_len(h: Hx)
    ensures
        hx_bytes(h).len() == 16,
{
    lemma_le_of_len(u32_rep_i32(h.x as int), 4);
    lemma_le_of_len(u32_rep_i32(h.y as int), 4);
    lemma_le_of_len(u32_rep_i32(h.z as int), 4);
    lemma_le_of_len(u32_rep_i32(h.r as int), 4);
}

pub proof fn lemma_offset_bytes_len(o: Offset)
    ensures
        offset_bytes(o).len() == 12,
{
    lemma_le_of_len(u32_rep_i32(o.x as int), 4);
    lemma_le_of_len(u32_rep_i32(o.y as int), 4);
    lemma_le_of_len(u32_rep_i32(o.z as int), 4);
}

pub proof fn lemma_typ_bytes_len(t: EntityType)
    ensures
        typ_bytes(t).len() == 10,
{
    match t {
        EntityType::Actor => {
            lemma_le_of_len(0, 8);
        },
        EntityType::Decorator(d) => {
            lemma_le_of_len(d.index as int, 8);
        },
    }
}

/// Decoding the canonical encoding of any message yields that message:
/// the codec loses nothing and the decoder accepts everything the
/// encoder can say.
pub proof fn lemma_codec_round_trip(m: Message)
    ensures
        decode_spec(message_bytes(m)) == Some(m),
{
    let b = message_bytes(m);
    let e = match m {
        Message::Do { event } => event,
        Message::Try { event } => event,
    };
    let mtag: u8 = match m {
        Message::Do { .. } => 0u8,
        Message::Try { .. } => 1u8,
    };
    assert(b == seq![WIRE_VERSION, mtag] + event_bytes(e));
    let eb = event_bytes(e);
    match e {
        Event::Spawn { ent, typ, hx } => {
            let pre = seq![0u8] + le_of(ent as int, 8);
            let pre2 = pre + typ_bytes(typ);
            lemma_le_of_len(ent as int, 8);
            lemma_typ_bytes_len(typ);
            lemma_hx_bytes_len(hx);
            assert(eb == pre2 + hx_bytes(hx));
            assert(b.len() == 37);
            assert(b[2] == 0u8);
            assert forall|k: int| 0 <= k < 8 implies #[trigger] b[3 + k] == le_of(
                ent as int,
                8,
            )[k] by {
                assert(b[3 + k] == eb[1 + k]);
                assert(eb[1 + k] == pre[1 + k]);
                assert(pre[1 + k] == le_of(ent as int, 8)[k]);
            }
            lemma_u64_field_at(b, 3, ent);
            assert forall|k: int| 0 <= k < 10 implies #[trigger] b[11 + k] == typ_bytes(
                typ,
            )[k] by {
                assert(b[11 + k] == eb[9 + k]);
                assert(eb[9 + k] == pre2[9 + k]);
                assert(pre2[9 + k] == typ_bytes(typ)[k]);
            }
            match typ {
                EntityType::Actor => {
                    let tb = typ_bytes(typ);
                    lemma_le_of_len(0, 8);
                    assert(b[11int + 0] == tb[0]);
                    assert(tb[0] == 0u8);
                    assert(b[11int + 9] == tb[9]);
                    assert(tb[9] == 0u8);
                    assert(b[20] == 0u8);
                    assert forall|k: int| 0 <= k < 8 implies #[trigger] b[12 + k] == le_of(
                        0,
                        8,
                    )[k] by {
                        assert(b[11 + (1 + k)] == tb[1 + k]);
                        assert(b[12 + k] == b[11 + (1 + k)]);
                        assert(tb[1 + k] == le_of(0, 8)[1 + k - 1]);
                    }
                    lemma_u64_field_at(b, 12, 0u64);
                    assert(le_nat(b, 12, 8) == 0);
                    assert(b[11] == 0u8);
                },
                EntityType::Decorator(d) => {
                    let tb = typ_bytes(typ);
                    lemma_le_of_len(d.index as int, 8);
                    assert(b[11int + 0] == tb[0]);
                    assert(tb[0] == 1u8);
                    assert(b[11] == 1u8);
                    assert(b[11int + 9] == tb[9]);
                    assert(tb[9] == bool_byte(d.is_solid));
                    assert(b[20] == bool_byte(d.is_solid));
                    assert forall|k: int| 0 <= k < 8 implies #[trigger] b[12 + k] == le_of(
                        d.index as u64 as int,
                        8,
                    )[k] by {
                        assert(b[11 + (1 + k)] == tb[1 + k]);
                        assert(b[12 + k] == b[11 + (1 + k)]);
                        assert(tb[1 + k] == le_of(d.index as int, 8)[1 + k - 1]);
                    }
                    lemma_u64_field_at(b, 12, d.index as u64);
                    assert(le_nat(b, 12, 8) == d.index as int);
                },
            }
            assert forall|k: int| 0 <= k < 16 implies #[trigger] b[21 + k] == hx_bytes(hx)[k] by {
                assert(b[21 + k] == eb[19 + k]);
                assert(eb[19 + k] == hx_bytes(hx)[k]);
            }
            lemma_hx_field_at(b, 21, hx);
            assert(decode_event_spec(b) == Some(e));
        },
        Event::Despawn { ent } => {
            lemma_le_of_len(ent as int, 8);
            assert(b.len() == 11);
            assert(b[2] == 1u8);
            assert forall|k: int| 0 <= k < 8 implies #[trigger] b[3 + k] == le_of(
                ent as int,
                8,
            )[k] by {
                assert(b[3 + k] == eb[1 + k]);
                assert(eb[1 + k] == le_of(ent as int, 8)[1 + k - 1]);
            }
            lemma_u64_field_at(b, 3, ent);
            assert(decode_event_spec(b) == Some(e));
        },
        Event::Input { ent, key_bits, dt_ms } => {
            let pre = seq![2u8] + le_of(ent as int, 8);
            let pre2 = pre + seq![key_bits];
            lemma_le_of_len(ent as int, 8);
            lemma_le_of_len(dt_ms as int, 4);
            assert(eb == pre2 + le_of(dt_ms as int, 4));
            assert(b.len() == 16);
            assert(b[2] == 2u8);
            assert forall|k: int| 0 <= k < 8 implies #[trigger] b[3 + k] == le_of(
                ent as int,
                8,
            )[k] by {
                assert(b[3 + k] == eb[1 + k]);
                assert(eb[1 + k] == pre[1 + k]);
                assert(pre[1 + k] == le_of(ent as int, 8)[k]);
            }
            lemma_u64_field_at(b, 3, ent);
            assert(b[11] == eb[9]);
            assert(eb[9] == pre2[9]);
            assert(pre2[9] == key_bits);
            assert forall|k: int| 0 <= k < 4 implies #[trigger] b[12 + k] == le_of(
                dt_ms as int,
                4,
            )[k] by {
                assert(b[12 + k] == eb[10 + k]);
                assert(eb[10 + k] == le_of(dt_ms as int, 4)[10 + k - 10]);
            }
            lemma_u32_field_at(b, 12, dt_ms);
            assert(decode_event_spec(b) == Some(e));
        },
        Event::Move { ent, pos, heading } => {
            let pre = seq![3u8] + le_of(ent as int, 8);
            let pre2 = pre + pos_bytes(pos);
            lemma_le_of_len(ent as int, 8);
            lemma_hx_bytes_len(pos.hx);
            lemma_offset_bytes_len(pos.offset);
            lemma_hx_bytes_len(heading.0);
            assert(eb == pre2 + hx_bytes(heading.0));
            assert(b.len() == 55);
            assert(b[2] == 3u8);
            assert forall|k: int| 0 <= k < 8 implies #[trigger] b[3 + k] == le_of(
                ent as int,
                8,
            )[k] by {
                assert(b[3 + k] == eb[1 + k]);
                assert(eb[1 + k] == pre[1 + k]);
                assert(pre[1 + k] == le_of(ent as int, 8)[k]);
            }
            lemma_u64_field_at(b, 3, ent);
            assert forall|k: int| 0 <= k < 28 implies #[trigger] b[11 + k] == pos_bytes(
                pos,
            )[k] by {
                assert(b[11 + k] == eb[9 + k]);
                assert(eb[9 + k] == pre2[9 + k]);
                assert(pre2[9 + k] == pos_bytes(pos)[k]);
            }
            lemma_pos_field_at(b, 11, pos);
            assert forall|k: int| 0 <= k < 16 implies #[trigger] b[39 + k] == hx_bytes(
                heading.0,
            )[k] by {
                assert(b[39 + k] == eb[37 + k]);
                assert(eb[37 + k] == hx_bytes(heading.0)[k]);
            }
            lemma_hx_field_at(b, 39, heading.0);
            assert(decode_event_spec(b) == Some(e));
        },
    }
    assert(b[0] == WIRE_VERSION);
    assert(b[1] == mtag);
}


proof fn lemma_u64_bytes_at(b: Seq<u8>, i: int)
    ensures
        forall|k: int|
            0 <= k < 8 ==> #[trigger] le_of((le_nat(b, i, 8) as u64) as int, 8)[k] == b[i + k],
{
    lemma_le_nat_bound(b, i, 8);
    lemma_pow256_values();
    assert((le_nat(b, i, 8) as u64) as int == le_nat(b, i, 8));
    lemma_le_of_le_nat(b, i, 8);
}

proof fn lemma_u32_bytes_at(b: Seq<u8>, i: int)
    ensures
        forall|k: int|
            0 <= k < 4 ==> #[trigger] le_of((le_nat(b, i, 4) as u32) as int, 4)[k] == b[i + k],
{
    lemma_le_nat_bound(b, i, 4);
    lemma_pow256_values();
    assert((le_nat(b, i, 4) as u32) as int == le_nat(b, i, 4));
    lemma_le_of_le_nat(b, i, 4);
}

proof fn lemma_i32_bytes_at(b: Seq<u8>, i: int)
    ensures
        forall|k: int| 0 <= k < 4 ==> #[trigger] le4_i32(i32_at(b, i) as int)[k] == b[i + k],
{
    let u = le_nat(b, i, 4);
    lemma_le_nat_bound(b, i, 4);
    lemma_pow256_values();
    assert(i32_at(b, i) as int == i32_val_u32(u));
    assert(u32_rep_i32(i32_at(b, i) as int) == u);
    lemma_le_of_le_nat(b, i, 4);
}

proof fn lemma_hx_bytes_at(b: Seq<u8>, i: int)
    ensures
        forall|k: int| 0 <= k < 16 ==> #[trigger] hx_bytes(hx_at(b, i))[k] == b[i + k],
{
    let h = hx_at(b, i);
    lemma_hx_bytes_len(h);
    lemma_le_of_len(u32_rep_i32(h.x as int), 4);
    lemma_le_of_len(u32_rep_i32(h.y as int), 4);
    lemma_le_of_len(u32_rep_i32(h.z as int), 4);
    lemma_le_of_len(u32_rep_i32(h.r as int), 4);
    lemma_i32_bytes_at(b, i);
    lemma_i32_bytes_at(b, i + 4);
    lemma_i32_bytes_at(b, i + 8);
    lemma_i32_bytes_at(b, i + 12);
    assert forall|k: int| 0 <= k < 16 implies #[trigger] hx_bytes(h)[k] == b[i + k] by {
        if k < 4 {
            assert(hx_bytes(h)[k] == le4_i32(h.x as int)[k]);
            assert(le4_i32(i32_at(b, i) as int)[k] == b[i + k]);
        } else if k < 8 {
            assert(hx_bytes(h)[k] == le4_i32(h.y as int)[k - 4]);
            assert(le4_i32(i32_at(b, i + 4) as int)[k - 4] == b[(i + 4) + (k - 4)]);
        } else if k < 12 {
            assert(hx_bytes(h)[k] == le4_i32(h.z as int)[k - 8]);
            assert(le4_i32(i32_at(b, i + 8) as int)[k - 8] == b[(i + 8) + (k - 8)]);
        } else {
            assert(hx_bytes(h)[k] == le4_i32(h.r as int)[k - 12]);
            assert(le4_i32(i32_at(b, i + 12) as int)[k - 12] == b[(i + 12) + (k - 12)]);
        }
    }
}

proof fn lemma_offset_bytes_at(b: Seq<u8>, i: int)
    ensures
        forall|k: int| 0 <= k < 12 ==> #[trigger] offset_bytes(offset_at(b, i))[k] == b[i + k],
{
    let o = offset_at(b, i);
    lemma_offset_bytes_len(o);
    lemma_le_of_len(u32_rep_i32(o.x as int), 4);
    lemma_le_of_len(u32_rep_i32(o.y as int), 4);
    lemma_le_of_len(u32_rep_i32(o.z as int), 4);
    lemma_i32_bytes_at(b, i);
    lemma_i32_bytes_at(b, i + 4);
    lemma_i32_bytes_at(b, i + 8);
    assert forall|k: int| 0 <= k < 12 implies #[trigger] offset_bytes(o)[k] == b[i + k] by {
        if k < 4 {
            assert(offset_bytes(o)[k] == le4_i32(o.x as int)[k]);
            assert(le4_i32(i32_at(b, i) as int)[k] == b[i + k]);
        } else if k < 8 {
            assert(offset_bytes(o)[k] == le4_i32(o.y as int)[k - 4]);
            assert(le4_i32(i32_at(b, i + 4) as int)[k - 4] == b[(i + 4) + (k - 4)]);
        } else {
            assert(offset_bytes(o)[k] == le4_i32(o.z as int)[k - 8]);
            assert(le4_i32(i32_at(b, i + 8) as int)[k - 8] == b[(i + 8) + (k - 8)]);
        }
    }
}

proof fn lemma_pos_bytes_at(b: Seq<u8>, i: int)
    ensures
        forall|k: int| 0 <= k < 28 ==> #[trigger] pos_bytes(pos_at(b, i))[k] == b[i + k],
{
    let p = pos_at(b, i);
    lemma_hx_bytes_len(p.hx);
    lemma_offset_bytes_len(p.offset);
    lemma_hx_bytes_at(b, i);
    lemma_offset_bytes_at(b, i + 16);
    assert forall|k: int| 0 <= k < 28 implies #[trigger] pos_bytes(p)[k] == b[i + k] by {
        if k < 16 {
            assert(pos_bytes(p)[k] == hx_bytes(p.hx)[k]);
            assert(hx_bytes(hx_at(b, i))[k] == b[i + k]);
        } else {
            assert(pos_bytes(p)[k] == offset_bytes(p.offset)[k - 16]);
            assert(offset_bytes(offset_at(b, i + 16))[k - 16] == b[(i + 16) + (k - 16)]);
        }
    }
}

/// The decoder accepts nothing but canonical encodings: a byte string it
/// decodes is exactly the encoding of the decoded message.
pub proof fn lemma_decode_canonical(b: Seq<u8>, m: Message)
    requires
        decode_spec(b) == Some(m),
    ensures
        b == message_bytes(m),
{
    let e = match m {
        Message::Do { event } => event,
        Message::Try { event } => event,
    };
    let mb = message_bytes(m);
    let eb = event_bytes(e);
    assert(b.len() >= 3 && b[0] == WIRE_VERSION && (b[1] == 0u8 || b[1] == 1u8));
    assert(decode_event_spec(b) == Some(e));
    let ent = le_nat(b, 3, 8) as u64;
    lemma_u64_bytes_at(b, 3);
    lemma_le_of_len(ent as int, 8);
    if b[2] == 0u8 {
        let typ = if b[11] == 0u8 {
            EntityType::Actor
        } else {
            EntityType::Decorator(
                DecoratorDescriptor { index: le_nat(b, 12, 8) as usize, is_solid: b[20] == 1u8 },
            )
        };
        assert(e == (Event::Spawn { ent, typ, hx: hx_at(b, 21) }));
        lemma_typ_bytes_len(typ);
        lemma_hx_bytes_len(hx_at(b, 21));
        lemma_hx_bytes_at(b, 21);
        assert(mb.len() == 37);
        assert forall|k: int| 0 <= k < 37 implies mb[k] == b[k] by {
            if k >= 3 {
                assert(mb[k] == eb[k - 2]);
                if k < 11 {
                    assert(eb[k - 2] == le_of(ent as int, 8)[k - 3]);
                    assert(le_of((le_nat(b, 3, 8) as u64) as int, 8)[k - 3] == b[3 + (k - 3)]);
                } else if k < 21 {
                    assert(eb[k - 2] == typ_bytes(typ)[k - 11]);
                    match typ {
                        EntityType::Actor => {
                            lemma_le_of_len(0, 8);
                            assert(le_nat(b, 12, 8) == 0);
                            lemma_u64_bytes_at(b, 12);
                            if k == 11 {
                                assert(typ_bytes(typ)[0] == 0u8);
                                assert(b[11] == 0u8);
                            } else if k < 20 {
                                assert(typ_bytes(typ)[k - 11] == le_of(0, 8)[k - 12]);
                                assert(le_of((le_nat(b, 12, 8) as u64) as int, 8)[k - 12] == b[12
                                    + (k - 12)]);
                            } else {
                                assert(typ_bytes(typ)[9] == 0u8);
                                assert(b[20] == 0u8);
                            }
                        },
                        EntityType::Decorator(d) => {
                            lemma_le_of_len(d.index as int, 8);
                            lemma_le_nat_bound(b, 12, 8);
                            lemma_pow256_values();
                            assert(d.index as int == le_nat(b, 12, 8));
                            lemma_u64_bytes_at(b, 12);
                            if k == 11 {
                                assert(typ_bytes(typ)[0] == 1u8);
                                assert(b[11] == 1u8);
                            } else if k < 20 {
                                assert(typ_bytes(typ)[k - 11] == le_of(d.index as int, 8)[k - 12]);
                                assert(le_of((le_nat(b, 12, 8) as u64) as int, 8)[k - 12] == b[12
                                    + (k - 12)]);
                            } else {
                                assert(typ_bytes(typ)[9] == bool_byte(d.is_solid));
                                assert(b[20] == 0u8 || b[20] == 1u8);
                            }
                        },
                    }
                } else {
                    assert(eb[k - 2] == hx_bytes(hx_at(b, 21))[k - 21]);
                    assert(hx_bytes(hx_at(b, 21))[k - 21] == b[21 + (k - 21)]);
                }
            }
        }
        assert(b =~= mb);
    } else if b[2] == 1u8 {
        assert(e == (Event::Despawn { ent }));
        assert(mb.len() == 11);
        assert forall|k: int| 0 <= k < 11 implies mb[k] == b[k] by {
            if k >= 3 {
                assert(mb[k] == eb[k - 2]);
                assert(eb[k - 2] == le_of(ent as int, 8)[k - 3]);
                assert(le_of((le_nat(b, 3, 8) as u64) as int, 8)[k - 3] == b[3 + (k - 3)]);
            }
        }
        assert(b =~= mb);
    } else if b[2] == 2u8 {
        let dt = le_nat(b, 12, 4) as u32;
        assert(e == (Event::Input { ent, key_bits: b[11], dt_ms: dt }));
        lemma_le_of_len(dt as int, 4);
        lemma_u32_bytes_at(b, 12);
        assert(mb.len() == 16);
        assert forall|k: int| 0 <= k < 16 implies mb[k] == b[k] by {
            if k >= 3 {
                assert(mb[k] == eb[k - 2]);
                if k < 11 {
                    assert(eb[k - 2] == le_of(ent as int, 8)[k - 3]);
                    assert(le_of((le_nat(b, 3, 8) as u64) as int, 8)[k - 3] == b[3 + (k - 3)]);
                } else if k == 11 {
                    assert(eb[9] == b[11]);
                } else {
                    assert(eb[k - 2] == le_of(dt as int, 4)[k - 12]);
                    assert(le_of((le_nat(b, 12, 4) as u32) as int, 4)[k - 12] == b[12 + (k - 12)]);
                }
            }
        }
        assert(b =~= mb);
    } else {
        assert(b[2] == 3u8);
        assert(e == (Event::Move { ent, pos: pos_at(b, 11), heading: Heading(hx_at(b, 39)) }));
        lemma_hx_bytes_len(pos_at(b, 11).hx);
        lemma_offset_bytes_len(pos_at(b, 11).offset);
        lemma_hx_bytes_len(hx_at(b, 39));
        lemma_pos_bytes_at(b, 11);
        lemma_hx_bytes_at(b, 39);
        assert(mb.len() == 55);
        assert forall|k: int| 0 <= k < 55 implies mb[k] == b[k] by {
            if k >= 3 {
                assert(mb[k] == eb[k - 2]);
                if k < 11 {
                    assert(eb[k - 2] == le_of(ent as int, 8)[k - 3]);
                    assert(le_of((le_nat(b, 3, 8) as u64) as int, 8)[k - 3] == b[3 + (k - 3)]);
                } else if k < 39 {
                    assert(eb[k - 2] == pos_bytes(pos_at(b, 11))[k - 11]);
                    assert(pos_bytes(pos_at(b, 11))[k - 11] == b[11 + (k - 11)]);
                } else {
                    assert(eb[k - 2] == hx_bytes(hx_at(b, 39))[k - 39]);
                    assert(hx_bytes(hx_at(b, 39))[k - 39] == b[39 + (k - 39)]);
                }
            }
        }
        assert(b =~= mb);
    }
}


/// Decoding succeeds exactly on the canonical encodings: a byte string
/// decodes if and only if some message encodes to it.
pub proof fn lemma_decode_exactly_canonical(b: Seq<u8>)
    ensures
        (decode_spec(b) is Some) <==> exists|m: Message| b == #[trigger] message_bytes(m),
{
    if decode_spec(b) is Some {
        let m = choose|m: Message| decode_spec(b) == Some(m);
        lemma_decode_canonical(b, m);
        assert(b == message_bytes(m));
    }
    if exists|m: Message| b == #[trigger] message_bytes(m) {
        let m = choose|m: Message| b == #[trigger] message_bytes(m);
        lemma_codec_round_trip(m);
    }
}

/// The encoding is injective: two messages with the same canonical byte
/// string are the same message.
pub proof fn lemma_encoding_injective(m1: Message, m2: Message)
    requires
        message_bytes(m1) == message_bytes(m2),
    ensures
        m1 == m2,
{
    lemma_codec_round_trip(m1);
    lemma_codec_round_trip(m2);
}

} // verus!

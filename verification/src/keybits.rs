//! The input key bitmask and its mapping to a movement heading.

use vstd::prelude::*;
use crate::hex::Hx;
use crate::components::Heading;

verus! {

pub const KEY_UP: u8 = 1;

pub const KEY_DOWN: u8 = 2;

pub const KEY_LEFT: u8 = 4;

pub const KEY_RIGHT: u8 = 8;

pub const KEY_ZOOM_OUT: u8 = 16;

pub const KEY_ZOOM_IN: u8 = 32;

/// The heading an input bitmask asks for: the first pressed direction in
/// the order up, down, left, right; zero when no direction is pressed.
/// Zoom bits never move an entity.
pub open spec fn heading_of_keys_spec(key_bits: u8) -> Heading {
    if key_bits & KEY_UP != 0 {
        Heading(Hx { x: 0, y: 1, z: 0, r: 0 })
    } else if key_bits & KEY_DOWN != 0 {
        Heading(Hx { x: 0, y: -1i32, z: 0, r: 0 })
    } else if key_bits & KEY_LEFT != 0 {
        Heading(Hx { x: -1i32, y: 0, z: 0, r: 0 })
    } else if key_bits & KEY_RIGHT != 0 {
        Heading(Hx { x: 1, y: 0, z: 0, r: 0 })
    } else {
        Heading(Hx { x: 0, y: 0, z: 0, r: 0 })
    }
}

/// Map an input bitmask to its heading; always a unit direction.
pub fn heading_of_keys(key_bits: u8) -> (r: Heading)
    ensures
        r == heading_of_keys_spec(key_bits),
        r.is_unit(),
{
    if key_bits & KEY_UP != 0 {
        Heading(Hx { x: 0, y: 1, z: 0, r: 0 })
    } else if key_bits & KEY_DOWN != 0 {
        Heading(Hx { x: 0, y: -1, z: 0, r: 0 })
    } else if key_bits & KEY_LEFT != 0 {
        Heading(Hx { x: -1, y: 0, z: 0, r: 0 })
    } else if key_bits & KEY_RIGHT != 0 {
        Heading(Hx { x: 1, y: 0, z: 0, r: 0 })
    } else {
        Heading(Hx { x: 0, y: 0, z: 0, r: 0 })
    }
}

} // verus!

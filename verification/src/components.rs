//! Entity components: kinds, sub-tile offsets, headings, positions, and
//! the deterministic screen-space projection.
//!
//! Screen space is modelled in fixed-point sub-units: `SUB` sub-units make
//! one pixel. All projection arithmetic is exact integer arithmetic, so a
//! projection is a pure function of its input.

use vstd::prelude::*;
use crate::hex::{Hx, hx_add_spec, wrap32, wrapping_add_i32};

verus! {

/// Sub-units per screen pixel.
pub const SUB: i64 = 65536;

/// Horizontal extent of one tile, in sub-units.
pub const TILE_WIDTH: i64 = 100 * 65536;

/// Vertical row advance of one tile, in sub-units.
pub const TILE_HEIGHT: i64 = 75 * 65536;

/// Screen-space vertical rise per unit of elevation, in sub-units.
pub const TILE_RISE: i64 = 10 * 65536;

/// One quarter of `TILE_WIDTH`.
pub const LEAN_X_FULL: i64 = 25 * 65536;

/// One eighth of `TILE_WIDTH`.
pub const LEAN_X_HALF: i64 = 25 * 32768;

/// One quarter of `TILE_HEIGHT`.
pub const LEAN_Y_ROW: i64 = 75 * 16384;

/// One quarter of `TILE_RISE`.
pub const LEAN_Y_RISE: i64 = 10 * 16384;

/// A screen-space vector in fixed-point sub-units.
#[derive(Clone, Copy, Debug, PartialEq, Eq, Structural)]
pub struct ScreenVec {
    pub x: i64,
    pub y: i64,
    pub z: i64,
}

/// Continuous sub-tile displacement, in screen sub-units.
#[derive(Clone, Copy, Debug, PartialEq, Eq, Structural)]
pub struct Offset {
    pub x: i32,
    pub y: i32,
    pub z: i32,
}

/// A movement direction: one of the hex neighbour deltas, or zero.
#[derive(Clone, Copy, Debug, PartialEq, Eq, Structural)]
pub struct Heading(pub Hx);

/// Frames an entity has spent airborne.
#[derive(Clone, Copy, Debug, PartialEq, Eq, Structural)]
pub struct AirTime(pub i16);

/// Marker for the locally controlled actor.
#[derive(Clone, Copy, Debug, PartialEq, Eq, Structural)]
pub struct Actor;

/// Visual and collision description of a static terrain decorator.
#[derive(Clone, Copy, Debug, PartialEq, Eq, Structural)]
pub struct DecoratorDescriptor {
    pub index: usize,
    pub is_solid: bool,
}

/// What an entity is: a movable actor or a static terrain decorator.
#[derive(Clone, Copy, Debug, PartialEq, Eq, Structural)]
pub enum EntityType {
    Actor,
    Decorator(DecoratorDescriptor),
}

/// Absolute world position: coarse hex cell plus continuous offset.
#[derive(Clone, Copy, Debug, PartialEq, Eq, Structural)]
pub struct Pos {
    pub hx: Hx,
    pub offset: Offset,
}

/// Total componentwise addition of positions: the hex cells and the
/// offsets each add with wrap-around; used to accumulate incremental
/// movement before projecting.
pub open spec fn pos_add_spec(a: Pos, b: Pos) -> Pos {
    Pos {
        hx: hx_add_spec(a.hx, b.hx),
        offset: Offset {
            x: wrap32(a.offset.x + b.offset.x) as i32,
            y: wrap32(a.offset.y + b.offset.y) as i32,
            z: wrap32(a.offset.z + b.offset.z) as i32,
        },
    }
}

/// Planar screen x of a hex cell, in sub-units.
pub open spec fn screen_x_spec(h: Hx) -> int {
    h.x * (TILE_WIDTH as int) + h.y * ((TILE_WIDTH as int) / 2)
}

/// Planar screen y of a hex cell, in sub-units: the row advance plus a
/// vertical rise proportional to the elevation, which layers sprites by
/// height.
pub open spec fn screen_y_spec(h: Hx) -> int {
    h.y * (TILE_HEIGHT as int) + h.z * (TILE_RISE as int)
}

/// Screen projection of a position: planar projection of the hex cell,
/// depth taken from the elevation normalised against the ring field, plus
/// the continuous offset.
pub open spec fn into_screen_spec(p: Pos) -> ScreenVec {
    ScreenVec {
        x: (screen_x_spec(p.hx) + p.offset.x) as i64,
        y: (screen_y_spec(p.hx) + p.offset.y) as i64,
        z: ((p.hx.z - p.hx.r) * (SUB as int) + p.offset.z) as i64,
    }
}

/// Division with the quotient truncated toward zero.
pub open spec fn trunc_div_spec(a: int, d: int) -> int
    recommends
        d > 0,
{
    if a >= 0 {
        a / d
    } else {
        -((-a) / d)
    }
}

/// The game-space depth of a position in sub-units: the cell's elevation
/// plus the continuous z offset, normalised against the ring field.
pub open spec fn depth_su_spec(h: Hx, o: Offset) -> int {
    h.z * (SUB as int) + o.z - 100 * h.r * (SUB as int)
}

/// Screen projection with the depth re-normalised into a fixed
/// orthographic range: `z = ((z + offset_z - 100 r) / 2^16) * 1000`
/// pixels, computed exactly in sub-units as `(depth_su * 1000) / 2^16`
/// with the quotient truncated toward zero. The scaling is a fixed
/// contract of the model, not a tunable. The vertical rise term likewise
/// covers the whole depth, coarse cell and continuous offset alike: ten
/// pixels of rise per game unit, so `10 * offset_z` sub-units on top of
/// the cell's own rise.
pub open spec fn calculate_spec(h: Hx, o: Offset) -> ScreenVec {
    ScreenVec {
        x: (screen_x_spec(h) + o.x) as i64,
        y: (screen_y_spec(h) + o.z * 10 + o.y) as i64,
        z: trunc_div_spec(depth_su_spec(h, o) * 1000, SUB as int) as i64,
    }
}

/// The anticipatory lean toward a heading: the zero offset blended one
/// quarter of the way toward the heading's planar screen direction, with
/// the heading's elevation carried through whole.
pub open spec fn offset_of_heading_spec(h: Heading) -> Offset {
    Offset {
        x: (h.0.x * (LEAN_X_FULL as int) + h.0.y * (LEAN_X_HALF as int)) as i32,
        y: (h.0.y * (LEAN_Y_ROW as int) + h.0.z * (LEAN_Y_RISE as int)) as i32,
        z: (h.0.z * (SUB as int)) as i32,
    }
}

/// Conversion of a value into its screen-space projection.
pub trait IntoScreen {
    fn into_screen(self) -> ScreenVec;
}

/// Derivation of a screen-space value from a pair of world components.
pub trait Calculate<T> {
    fn calculate(self) -> T;
}

impl Pos {
    /// Componentwise total addition on hex cell and offset alike.
    pub fn add(self, other: Pos) -> (r: Pos)
        ensures
            r == pos_add_spec(self, other),
    {
        proof {
            crate::hex::lemma_wrap32_range(self.offset.x + other.offset.x);
            crate::hex::lemma_wrap32_range(self.offset.y + other.offset.y);
            crate::hex::lemma_wrap32_range(self.offset.z + other.offset.z);
        }
        Pos {
            hx: self.hx.add(other.hx),
            offset: Offset {
                x: wrapping_add_i32(self.offset.x, other.offset.x),
                y: wrapping_add_i32(self.offset.y, other.offset.y),
                z: wrapping_add_i32(self.offset.z, other.offset.z),
            },
        }
    }

    /// Exact fixed-point screen projection; see `into_screen_spec`.
    pub fn project(self) -> (r: ScreenVec)
        ensures
            r == into_screen_spec(self),
    {
        let sx: i64 = self.hx.x as i64 * TILE_WIDTH + self.hx.y as i64 * (TILE_WIDTH / 2);
        let sy: i64 = self.hx.y as i64 * TILE_HEIGHT + self.hx.z as i64 * TILE_RISE;
        let sz: i64 = (self.hx.z as i64 - self.hx.r as i64) * SUB;
        ScreenVec {
            x: sx + self.offset.x as i64,
            y: sy + self.offset.y as i64,
            z: sz + self.offset.z as i64,
        }
    }
}

impl Heading {
    /// A heading is a unit direction: one of the six hex neighbour deltas,
    /// or zero; never an elevation or ring delta.
    pub open spec fn is_unit(self) -> bool {
        self.0.z == 0 && self.0.r == 0 && {
            ||| (self.0.x == 0 && self.0.y == 0)
            ||| (self.0.x == 1 && self.0.y == 0)
            ||| (self.0.x == -1 && self.0.y == 0)
            ||| (self.0.x == 0 && self.0.y == 1)
            ||| (self.0.x == 0 && self.0.y == -1)
            ||| (self.0.x == 1 && self.0.y == -1)
            ||| (self.0.x == -1 && self.0.y == 1)
        }
    }

    /// Whether the heading is a unit direction, decidable at run time so
    /// an unverified caller can guard `to_offset`.
    pub fn check_unit(&self) -> (r: bool)
        ensures
            r == self.is_unit(),
    {
        self.0.z == 0 && self.0.r == 0 && ((self.0.x == 0 && self.0.y == 0) || (self.0.x == 1
            && self.0.y == 0) || (self.0.x == -1 && self.0.y == 0) || (self.0.x == 0 && self.0.y
            == 1) || (self.0.x == 0 && self.0.y == -1) || (self.0.x == 1 && self.0.y == -1) || (
        self.0.x == -1 && self.0.y == 1))
    }

    /// The visual lean produced by facing along this heading.
    pub fn to_offset(self) -> (r: Offset)
        requires
            self.is_unit(),
        ensures
            r == offset_of_heading_spec(self),
    {
        Offset {
            x: (self.0.x as i64 * LEAN_X_FULL + self.0.y as i64 * LEAN_X_HALF) as i32,
            y: (self.0.y as i64 * LEAN_Y_ROW + self.0.z as i64 * LEAN_Y_RISE) as i32,
            z: (self.0.z as i64 * SUB) as i32,
        }
    }
}

/// The lean is exactly one quarter of the heading's planar screen vector.
pub proof fn lemma_heading_lean_ratio(h: Heading)
    requires
        h.is_unit(),
    ensures
        4 * (offset_of_heading_spec(h).x as int) == screen_x_spec(h.0),
        4 * (offset_of_heading_spec(h).y as int) == screen_y_spec(h.0),
{
}

impl Default for Offset {
    fn default() -> (r: Offset)
        ensures
            r == (Offset { x: 0, y: 0, z: 0 }),
    {
        Offset { x: 0, y: 0, z: 0 }
    }
}

impl Default for Heading {
    fn default() -> (r: Heading)
        ensures
            r == (Heading(Hx { x: 0, y: 0, z: 0, r: 0 })),
    {
        Heading(Hx { x: 0, y: 0, z: 0, r: 0 })
    }
}

impl Default for Pos {
    fn default() -> (r: Pos)
        ensures
            r == (Pos {
                hx: Hx { x: 0, y: 0, z: 0, r: 0 },
                offset: Offset { x: 0, y: 0, z: 0 },
            }),
    {
        Pos { hx: Hx { x: 0, y: 0, z: 0, r: 0 }, offset: Offset { x: 0, y: 0, z: 0 } }
    }
}

impl IntoScreen for Pos {
    fn into_screen(self) -> (r: ScreenVec)
        ensures
            r == into_screen_spec(self),
    {
        self.project()
    }
}

impl Calculate<ScreenVec> for (Hx, Offset) {
    fn calculate(self) -> (r: ScreenVec)
        ensures
            r == calculate_spec(self.0, self.1),
    {
        let sx: i64 = self.0.x as i64 * TILE_WIDTH + self.0.y as i64 * (TILE_WIDTH / 2);
        let sy: i64 = self.0.y as i64 * TILE_HEIGHT + self.0.z as i64 * TILE_RISE + self.1.z
            as i64 * 10 + self.1.y as i64;
        let zsu: i64 = self.0.z as i64 * SUB + self.1.z as i64 - 100 * (self.0.r as i64) * SUB;
        let num: i128 = zsu as i128 * 1000;
        let sz: i64 = if num >= 0 {
            ((num as u128) / 65536u128) as i64
        } else {
            -((((-num) as u128) / 65536u128) as i64)
        };
        proof {
            assert(num == depth_su_spec(self.0, self.1) * 1000);
            assert(-0x8000_0000_0000_0000i128 * 1000 <= num <= 0x8000_0000_0000_0000i128 * 1000);
        }
        ScreenVec {
            x: sx + self.1.x as i64,
            y: sy,
            z: sz,
        }
    }
}

} // verus!

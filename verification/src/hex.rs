//! Axial hex coordinates with elevation and ring fields.
//!
//! Coordinate arithmetic is componentwise and total: each component is
//! combined with wrap-around (two's-complement) semantics, which keeps
//! addition associative and commutative over the whole value range.

use vstd::prelude::*;
use vstd::arithmetic::div_mod::*;

verus! {

/// A hex-grid coordinate: planar axial axes `x` and `y`, elevation `z`,
/// and a ring/rotation field `r` used when deriving screen depth.
#[derive(Clone, Copy, Debug, PartialEq, Eq, Structural)]
pub struct Hx {
    pub x: i32,
    pub y: i32,
    pub z: i32,
    pub r: i32,
}

/// Wrap an unbounded integer into the two's-complement range of `i32`.
pub open spec fn wrap32(v: int) -> int {
    ((v + 0x8000_0000) % 0x1_0000_0000) - 0x8000_0000
}

pub proof fn lemma_wrap32_range(v: int)
    ensures
        -0x8000_0000 <= wrap32(v) < 0x8000_0000,
{
    lemma_mod_division_less_than_divisor(v + 0x8000_0000, 0x1_0000_0000);
}

pub proof fn lemma_wrap32_small(v: int)
    requires
        -0x8000_0000 <= v < 0x8000_0000,
    ensures
        wrap32(v) == v,
{
    lemma_small_mod((v + 0x8000_0000) as nat, 0x1_0000_0000nat);
}

/// Wrapping absorbs an already-wrapped summand: wrapping the partial sum
/// first does not change the wrapped total.
pub proof fn lemma_wrap32_absorb(t: int, u: int)
    ensures
        wrap32(wrap32(t) + u) == wrap32(t + u),
{
    let m: int = 0x1_0000_0000;
    let h: int = 0x8000_0000;
    lemma_fundamental_div_mod(t + h, m);
    let q = (t + h) / m;
    assert(wrap32(t) + u + h == (t + u + h) + m * (-q)) by {
        assert(t + h == m * q + (t + h) % m);
    }
    lemma_mod_multiples_vanish(-q, t + u + h, m);
}

/// Total componentwise addition of two coordinates, wrapping each field.
pub open spec fn hx_add_spec(a: Hx, b: Hx) -> Hx {
    Hx {
        x: wrap32(a.x + b.x) as i32,
        y: wrap32(a.y + b.y) as i32,
        z: wrap32(a.z + b.z) as i32,
        r: wrap32(a.r + b.r) as i32,
    }
}

/// Componentwise wrapping addition on a single field.
pub fn wrapping_add_i32(a: i32, b: i32) -> (r: i32)
    ensures
        r as int == wrap32(a as int + b as int),
{
    let s: i64 = a as i64 + b as i64;
    let w: i64 = if s >= 0x8000_0000i64 {
        s - 0x1_0000_0000i64
    } else if s < -0x8000_0000i64 {
        s + 0x1_0000_0000i64
    } else {
        s
    };
    proof {
        let m: int = 0x1_0000_0000;
        let h: int = 0x8000_0000;
        if s >= h {
            lemma_mod_multiples_vanish(-1, s + h, m);
            lemma_small_mod((s - h) as nat, m as nat);
            assert(wrap32(s as int) == s - m);
        } else if s < -h {
            lemma_mod_multiples_vanish(1, s + h, m);
            lemma_small_mod((s + h + m) as nat, m as nat);
            assert(wrap32(s as int) == s + m);
        } else {
            lemma_wrap32_small(s as int);
        }
    }
    w as i32
}

impl Hx {
    /// Componentwise total addition; used to compose a heading delta with
    /// an absolute position.
    pub fn add(self, other: Hx) -> (r: Hx)
        ensures
            r == hx_add_spec(self, other),
    {
        proof {
            lemma_wrap32_range(self.x + other.x);
            lemma_wrap32_range(self.y + other.y);
            lemma_wrap32_range(self.z + other.z);
            lemma_wrap32_range(self.r + other.r);
        }
        Hx {
            x: wrapping_add_i32(self.x, other.x),
            y: wrapping_add_i32(self.y, other.y),
            z: wrapping_add_i32(self.z, other.z),
            r: wrapping_add_i32(self.r, other.r),
        }
    }
}

impl Default for Hx {
    /// The zero coordinate.
    fn default() -> (r: Hx)
        ensures
            r == (Hx { x: 0, y: 0, z: 0, r: 0 }),
    {
        Hx { x: 0, y: 0, z: 0, r: 0 }
    }
}

/// Coordinate addition is commutative.
pub proof fn lemma_hx_add_commutative(a: Hx, b: Hx)
    ensures
        hx_add_spec(a, b) == hx_add_spec(b, a),
{
}

/// Coordinate addition is associative.
pub proof fn lemma_hx_add_associative(a: Hx, b: Hx, c: Hx)
    ensures
        hx_add_spec(hx_add_spec(a, b), c) == hx_add_spec(a, hx_add_spec(b, c)),
{
    lemma_wrap32_range(a.x + b.x);
    lemma_wrap32_range(a.y + b.y);
    lemma_wrap32_range(a.z + b.z);
    lemma_wrap32_range(a.r + b.r);
    lemma_wrap32_range(b.x + c.x);
    lemma_wrap32_range(b.y + c.y);
    lemma_wrap32_range(b.z + c.z);
    lemma_wrap32_range(b.r + c.r);
    lemma_wrap32_absorb(a.x + b.x, c.x as int);
    lemma_wrap32_absorb(a.y + b.y, c.y as int);
    lemma_wrap32_absorb(a.z + b.z, c.z as int);
    lemma_wrap32_absorb(a.r + b.r, c.r as int);
    lemma_wrap32_absorb(b.x + c.x, a.x as int);
    lemma_wrap32_absorb(b.y + c.y, a.y as int);
    lemma_wrap32_absorb(b.z + c.z, a.z as int);
    lemma_wrap32_absorb(b.r + c.r, a.r as int);
}

} // verus!

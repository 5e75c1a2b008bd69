//! Coordinate arithmetic, screen projection and key mapping.

use hexrep::hex::Hx;
use hexrep::components::{Heading, Offset, Pos, ScreenVec, IntoScreen, Calculate};
use hexrep::keybits::{heading_of_keys, KEY_UP, KEY_DOWN, KEY_LEFT, KEY_RIGHT, KEY_ZOOM_IN};

fn hx(x: i32, y: i32, z: i32, r: i32) -> Hx {
    Hx { x, y, z, r }
}

#[test]
fn add_is_componentwise() {
    let a = hx(1, 2, 3, 4);
    let b = hx(10, 20, 30, 40);
    assert_eq!(a.add(b), hx(11, 22, 33, 44));
}

#[test]
fn add_is_commutative_on_samples() {
    let a = hx(5, -7, 2, 1);
    let b = hx(-3, 9, -2, 0);
    assert_eq!(a.add(b), b.add(a));
}

#[test]
fn add_is_associative_on_samples() {
    let a = hx(2147000000, 5, -9, 3);
    let b = hx(1000000, -5, 18, -3);
    let c = hx(-2147000000, 0, -9, 0);
    assert_eq!(a.add(b).add(c), a.add(b.add(c)));
}

#[test]
fn add_is_total_at_the_edges() {
    let a = hx(i32::MAX, i32::MIN, 0, 0);
    let b = hx(1, -1, 0, 0);
    let s = a.add(b);
    assert_eq!(s, hx(i32::MIN, i32::MAX, 0, 0));
}

#[test]
fn positions_add_componentwise() {
    let a = Pos { hx: Hx { x: 1, y: 2, z: 3, r: 4 }, offset: Offset { x: 10, y: -20, z: 30 } };
    let b = Pos { hx: Hx { x: 9, y: 8, z: 7, r: 6 }, offset: Offset { x: 1, y: 2, z: -3 } };
    let s = a.add(b);
    assert_eq!(s.hx, Hx { x: 10, y: 10, z: 10, r: 10 });
    assert_eq!(s.offset, Offset { x: 11, y: -18, z: 27 });
}

#[test]
fn projection_is_deterministic_and_exact() {
    let p = Pos { hx: hx(2, 1, 3, 0), offset: Offset { x: 0, y: 0, z: 0 } };
    let first = p.project();
    let second = p.project();
    assert_eq!(first, second);
    // x = 2 * TILE_WIDTH + 1 * TILE_WIDTH / 2, y = 1 * TILE_HEIGHT + 3 * TILE_RISE,
    // z = (3 - 0) * SUB, all in sub-units.
    assert_eq!(first, ScreenVec { x: 16384000, y: 6881280, z: 196608 });
}

#[test]
fn projection_adds_the_offset() {
    let p = Pos { hx: hx(0, 0, 0, 0), offset: Offset { x: 7, y: -9, z: 11 } };
    assert_eq!(p.into_screen(), ScreenVec { x: 7, y: -9, z: 11 });
}

#[test]
fn projection_normalises_depth_against_the_ring() {
    let p = Pos { hx: hx(0, 0, 5, 2), offset: Offset { x: 0, y: 0, z: 0 } };
    assert_eq!(p.project().z, (5 - 2) * 65536);
}

#[test]
fn calculate_uses_the_orthographic_depth_scale() {
    // z = ((z + offset_z - 100 r) / 2^16) * 1000 pixels; with no offset the
    // depth is (z - 100 r) * 1000 sub-units exactly.
    let v = (hx(2, 1, 3, 0), Offset { x: 0, y: 0, z: 0 }).calculate();
    assert_eq!(v.z, 3000);
    let v2 = (hx(0, 0, 0, 1), Offset { x: 0, y: 0, z: 0 }).calculate();
    assert_eq!(v2.z, -100000);
}

#[test]
fn calculate_depth_and_rise_cover_the_z_offset() {
    // One game unit of continuous z (65536 sub-units) is a full unit of
    // depth and ten pixels of rise.
    let v = (hx(0, 0, 0, 0), Offset { x: 0, y: 0, z: 65536 }).calculate();
    assert_eq!(v.z, 1000);
    assert_eq!(v.y, 655360);
    // The quotient truncates toward zero in both directions.
    let tiny = (hx(0, 0, 0, 0), Offset { x: 0, y: 0, z: 1 }).calculate();
    assert_eq!(tiny.z, 0);
    let tiny_neg = (hx(0, 0, 0, 0), Offset { x: 0, y: 0, z: -1 }).calculate();
    assert_eq!(tiny_neg.z, 0);
    // Half a game unit of z sits between the cell's own depth steps.
    let half = (hx(0, 0, 1, 0), Offset { x: 0, y: 0, z: 32768 }).calculate();
    assert_eq!(half.z, 1500);
}

#[test]
fn heading_lean_is_a_quarter_of_the_tile() {
    let lean = Heading(hx(1, 0, 0, 0)).to_offset();
    assert_eq!(lean, Offset { x: 100 * 65536 / 4, y: 0, z: 0 });
    let lean_up = Heading(hx(0, 1, 0, 0)).to_offset();
    assert_eq!(lean_up, Offset { x: 100 * 32768 / 4, y: 75 * 65536 / 4, z: 0 });
    assert_eq!(Heading(hx(0, 0, 0, 0)).to_offset(), Offset { x: 0, y: 0, z: 0 });
}

#[test]
fn keys_map_to_unit_headings() {
    assert_eq!(heading_of_keys(KEY_UP), Heading(hx(0, 1, 0, 0)));
    assert_eq!(heading_of_keys(KEY_DOWN), Heading(hx(0, -1, 0, 0)));
    assert_eq!(heading_of_keys(KEY_LEFT), Heading(hx(-1, 0, 0, 0)));
    assert_eq!(heading_of_keys(KEY_RIGHT), Heading(hx(1, 0, 0, 0)));
    assert_eq!(heading_of_keys(0), Heading(hx(0, 0, 0, 0)));
    // Zoom alone moves nothing; up wins over right when both are held.
    assert_eq!(heading_of_keys(KEY_ZOOM_IN), Heading(hx(0, 0, 0, 0)));
    assert_eq!(heading_of_keys(KEY_UP | KEY_RIGHT), Heading(hx(0, 1, 0, 0)));
}

//! Narrow-phase intersection tests between pairs of shapes.
use vstd::prelude::*;
use crate::fixed::{
    div_trunc, is_root, isqrt, lemma_mul_bound, lemma_root_bounds, lemma_tdiv_bound,
    root, tdiv, abs, lemma_tdiv_sandwich, lemma_norm_sandwich, lemma_rounded_norm_lower, LIMIT, SCALE,
    SCALE_SQ,
};
use crate::things::{in_limit, Rotation};

verus! {

/// One overlap between two shapes: a normal, scaled by `SCALE`, that points
/// from the first shape toward the second, and how deep they overlap along it.
#[derive(Debug, Clone, Copy)]
pub struct CollisionInfo {
    pub normal: (i64, i64),
    pub penetration: i64,
}

impl CollisionInfo {
    pub open spec fn wf(self) -> bool {
        &&& -2 * SCALE <= self.normal.0 <= 2 * SCALE
        &&& -2 * SCALE <= self.normal.1 <= 2 * SCALE
        &&& 0 <= self.penetration <= 4 * LIMIT
    }
}

/// An extent in thousandths of a pixel that the tests can take.
pub open spec fn extent_ok(v: i64) -> bool {
    0 <= v <= 4 * LIMIT
}

/// The direction of `(dx, dy)` scaled to length `SCALE`. Its length is taken
/// in thousandths of the offset's own unit, so that rounding keeps the
/// normal within a fraction of a percent of `SCALE` even for tiny offsets.
pub open spec fn unit_dir(dx: int, dy: int) -> (i64, i64) {
    let e = root((dx * dx + dy * dy) * SCALE_SQ);
    (tdiv(dx * SCALE_SQ, e) as i64, tdiv(dy * SCALE_SQ, e) as i64)
}

/// Squared length of a vector.
pub open spec fn norm_sq(v: (i64, i64)) -> int {
    v.0 * v.0 + v.1 * v.1
}

/// Two circles overlap when their centers are closer than the sum of their
/// radii. Coincident centers give no usable normal and count as no overlap.
pub open spec fn circle_circle(ax: int, ay: int, ra: int, bx: int, by: int, rb: int) -> Option<CollisionInfo> {
    let dx = bx - ax;
    let dy = by - ay;
    let n = dx * dx + dy * dy;
    let reach = ra + rb;
    if n < reach * reach && n > 0 {
        let d = root(n);
        Some(CollisionInfo { normal: unit_dir(dx, dy), penetration: (reach - d) as i64 })
    } else {
        None
    }
}

pub open spec fn clamp_to(v: int, h: int) -> int {
    if v > h {
        h
    } else if v < -h {
        -h
    } else {
        v
    }
}

/// The circle's center in the rectangle's frame: `(dx, dy)` rotated by the
/// inverse of `rot`.
pub open spec fn local_of(dx: int, dy: int, rot: Rotation) -> (int, int) {
    (tdiv(dx * rot.cos + dy * rot.sin, SCALE as int), tdiv(dy * rot.cos - dx * rot.sin, SCALE as int))
}

/// A vector of the rectangle's frame turned back into world axes.
pub open spec fn world_of(x: int, y: int, rot: Rotation) -> (i64, i64) {
    (tdiv(x * rot.cos - y * rot.sin, SCALE as int) as i64, tdiv(x * rot.sin + y * rot.cos, SCALE as int) as i64)
}

/// A circle and a rotated rectangle (full extents `w` by `h`) overlap when the
/// point of the rectangle nearest to the circle's center lies closer than the
/// radius. The normal points from the circle toward that point. A center at
/// less than a thousandth of a pixel from it (on or inside the rectangle)
/// counts as no overlap.
pub open spec fn circle_rect(cx: int, cy: int, r: int, rx: int, ry: int, w: int, h: int, rot: Rotation) -> Option<CollisionInfo> {
    let l = local_of(cx - rx, cy - ry, rot);
    let ox = l.0 - clamp_to(l.0, w / 2);
    let oy = l.1 - clamp_to(l.1, h / 2);
    let n = ox * ox + oy * oy;
    if n < r * r && n > 0 {
        let d = root(n);
        let nl = unit_dir(-ox, -oy);
        Some(CollisionInfo { normal: world_of(nl.0 as int, nl.1 as int, rot), penetration: (r - d) as i64 })
    } else {
        None
    }
}

proof fn lemma_square_expand(u: int, v: int)
    ensures
        (u - v) * (u - v) == u * u - 2 * (u * v) + v * v,
        (u + v) * (u + v) == u * u + 2 * (u * v) + v * v,
{
    assert((u - v) * (u - v) == u * u - 2 * (u * v) + v * v) by (nonlinear_arith);
    assert((u + v) * (u + v) == u * u + 2 * (u * v) + v * v) by (nonlinear_arith);
}

proof fn lemma_product_regroup(x: int, y: int, c: int, s: int)
    ensures
        (x * c) * (y * s) == (x * s) * (y * c),
        (x * c) * (x * c) == (x * x) * (c * c),
        (y * s) * (y * s) == (y * y) * (s * s),
        (x * s) * (x * s) == (x * x) * (s * s),
        (y * c) * (y * c) == (y * y) * (c * c),
{
    assert((x * c) * (y * s) == (x * s) * (y * c)) by (nonlinear_arith);
    assert((x * c) * (x * c) == (x * x) * (c * c)) by (nonlinear_arith);
    assert((y * s) * (y * s) == (y * y) * (s * s)) by (nonlinear_arith);
    assert((x * s) * (x * s) == (x * x) * (s * s)) by (nonlinear_arith);
    assert((y * c) * (y * c) == (y * y) * (c * c)) by (nonlinear_arith);
}

proof fn lemma_sum_product(a: int, b: int, p: int, q: int)
    ensures
        (a + b) * (p + q) == a * p + a * q + b * p + b * q,
{
    assert((a + b) * (p + q) == a * p + a * q + b * p + b * q) by (nonlinear_arith);
}

/// A rotation by `(c, s)` scales squared lengths by `c * c + s * s`.
proof fn lemma_rotation_keeps_length(x: int, y: int, c: int, s: int)
    ensures
        (x * c - y * s) * (x * c - y * s) + (x * s + y * c) * (x * s + y * c) == (x * x + y * y) * (c * c + s * s),
{
    lemma_square_expand(x * c, y * s);
    lemma_square_expand(x * s, y * c);
    lemma_product_regroup(x, y, c, s);
    lemma_sum_product(x * x, y * y, c * c, s * s);
}

proof fn lemma_abs_sq(z: int)
    ensures
        abs(z) * abs(z) == z * z,
{
    if z < 0 {
        assert((-z) * (-z) == z * z) by (nonlinear_arith);
    }
}

proof fn lemma_root_positive(n: int, d: int)
    requires
        is_root(n, d),
        n > 0,
    ensures
        d > 0,
{
    assert(d > 0) by (nonlinear_arith)
        requires
            d >= 0,
            n > 0,
            n < (d + 1) * (d + 1),
    ;
}

/// The direction of a nonzero offset has length `SCALE` give or take two,
/// and no component longer than `SCALE`.
proof fn lemma_unit_dir(dx: int, dy: int, e: int)
    requires
        dx * dx + dy * dy > 0,
        is_root((dx * dx + dy * dy) * 1_000_000, e),
    ensures
        e >= 1000,
        -SCALE <= tdiv(dx * 1_000_000, e) <= SCALE,
        -SCALE <= tdiv(dy * 1_000_000, e) <= SCALE,
        998 * 998 <= tdiv(dx * 1_000_000, e) * tdiv(dx * 1_000_000, e) + tdiv(dy * 1_000_000, e) * tdiv(dy * 1_000_000, e)
            <= 1002 * 1002,
{
    let n = dx * dx + dy * dy;
    let big = n * 1_000_000;
    assert(e >= 1000) by (nonlinear_arith)
        requires
            e >= 0,
            n >= 1,
            big == n * 1_000_000,
            big < (e + 1) * (e + 1),
    ;
    // No component is longer than the whole.
    assert((dx * 1000) * (dx * 1000) <= big && (dy * 1000) * (dy * 1000) <= big) by (nonlinear_arith)
        requires
            big == (dx * dx + dy * dy) * 1_000_000,
    ;
    lemma_root_bounds(big, e, dx * 1000);
    lemma_root_bounds(big, e, dy * 1000);
    lemma_mul_bound(dx * 1000, 1000, e, 1000);
    lemma_mul_bound(dy * 1000, 1000, e, 1000);
    assert(dx * 1000 * 1000 == dx * 1_000_000 && dy * 1000 * 1000 == dy * 1_000_000) by (nonlinear_arith);
    lemma_tdiv_bound(dx * 1_000_000, e, 1000);
    lemma_tdiv_bound(dy * 1_000_000, e, 1000);
    // The length, up to rounding.
    let nx = tdiv(dx * 1_000_000, e);
    let ny = tdiv(dy * 1_000_000, e);
    lemma_tdiv_sandwich(dx * 1_000_000, e);
    lemma_tdiv_sandwich(dy * 1_000_000, e);
    let bp = abs(dx * 1_000_000);
    let bq = abs(dy * 1_000_000);
    lemma_abs_sq(dx * 1_000_000);
    lemma_abs_sq(dy * 1_000_000);
    assert(bp * bp + bq * bq == big * 1_000_000) by (nonlinear_arith)
        requires
            bp * bp == (dx * 1_000_000) * (dx * 1_000_000),
            bq * bq == (dy * 1_000_000) * (dy * 1_000_000),
            big == (dx * dx + dy * dy) * 1_000_000,
    ;
    assert(1_000_000 * (e * e) <= bp * bp + bq * bq) by (nonlinear_arith)
        requires
            e * e <= big,
            bp * bp + bq * bq == big * 1_000_000,
    ;
    assert(bp * bp + bq * bq <= 1004004 * (e * e)) by (nonlinear_arith)
        requires
            big < (e + 1) * (e + 1),
            bp * bp + bq * bq == big * 1_000_000,
            e >= 1000,
    ;
    lemma_norm_sandwich(abs(nx), abs(ny), bp, bq, e, 1_000_000, 1004004);
    lemma_rounded_norm_lower(abs(nx), abs(ny), 1_000_000, 996004, 1412);
    lemma_abs_sq(nx);
    lemma_abs_sq(ny);
}

/// Turning a near-unit vector by a near-unit rotation, then rounding, keeps
/// its length within ten thousandths of `SCALE`.
proof fn lemma_rotated_norm(x: int, y: int, c: int, s: int)
    requires
        996004 <= x * x + y * y <= 1004004,
        998000 <= c * c + s * s <= 1002000,
    ensures
        990 * 990 <= tdiv(x * c - y * s, 1000) * tdiv(x * c - y * s, 1000) + tdiv(x * s + y * c, 1000) * tdiv(x * s + y * c, 1000)
            <= 1010 * 1010,
{
    let a = x * c - y * s;
    let b = x * s + y * c;
    lemma_rotation_keeps_length(x, y, c, s);
    assert(996004 * 998000 <= (x * x + y * y) * (c * c + s * s) <= 1004004 * 1002000) by (nonlinear_arith)
        requires
            996004 <= x * x + y * y <= 1004004,
            998000 <= c * c + s * s <= 1002000,
    ;
    let wx = tdiv(a, 1000);
    let wy = tdiv(b, 1000);
    lemma_tdiv_sandwich(a, 1000);
    lemma_tdiv_sandwich(b, 1000);
    lemma_abs_sq(a);
    lemma_abs_sq(b);
    lemma_norm_sandwich(abs(wx), abs(wy), abs(a), abs(b), 1000, 994011, 1006013);
    lemma_rounded_norm_lower(abs(wx), abs(wy), 994011, 980100, 1401);
    lemma_abs_sq(wx);
    lemma_abs_sq(wy);
}

/// Overlap test between two circles.
pub fn detect_circle_circle(pos_a: (i64, i64), radius_a: i64, pos_b: (i64, i64), radius_b: i64) -> (r: Option<CollisionInfo>)
    requires
        in_limit(pos_a.0),
        in_limit(pos_a.1),
        in_limit(pos_b.0),
        in_limit(pos_b.1),
        0 <= radius_a <= 2 * LIMIT,
        0 <= radius_b <= 2 * LIMIT,
    ensures
        r == circle_circle(pos_a.0 as int, pos_a.1 as int, radius_a as int, pos_b.0 as int, pos_b.1 as int, radius_b as int),
        r matches Some(info) ==> info.wf(),
        r matches Some(info) ==> (SCALE - 2) * (SCALE - 2) <= norm_sq(info.normal) <= (SCALE + 2) * (SCALE + 2),
{
    let dx: i128 = pos_b.0 as i128 - pos_a.0 as i128;
    let dy: i128 = pos_b.1 as i128 - pos_a.1 as i128;
    proof {
        lemma_mul_bound(dx as int, dx as int, 2 * LIMIT, 2 * LIMIT);
        lemma_mul_bound(dy as int, dy as int, 2 * LIMIT, 2 * LIMIT);
        assert((2 * LIMIT) * (2 * LIMIT) == 4_000_000_000_000_000_000_000_000int) by (nonlinear_arith)
            requires LIMIT == 1_000_000_000_000int;
    }
    let n: i128 = dx * dx + dy * dy;
    let reach: i128 = radius_a as i128 + radius_b as i128;
    proof {
        lemma_mul_bound(reach as int, reach as int, 4 * LIMIT, 4 * LIMIT);
    }
    if n < reach * reach && n > 0 {
        assert(dx * dx >= 0 && dy * dy >= 0) by (nonlinear_arith);
        let d: i128 = isqrt(n as u128) as i128;
        let e: i128 = isqrt((n * SCALE_SQ as i128) as u128) as i128;
        proof {
            lemma_root_positive(n as int, d as int);
            lemma_unit_dir(dx as int, dy as int, e as int);
            assert(d < reach) by (nonlinear_arith)
                requires
                    d >= 0,
                    reach >= 0,
                    d * d <= n,
                    n < reach * reach,
            ;
        }
        let nx: i128 = div_trunc(dx * SCALE_SQ as i128, e);
        let ny: i128 = div_trunc(dy * SCALE_SQ as i128, e);
        Some(CollisionInfo { normal: (nx as i64, ny as i64), penetration: (reach - d) as i64 })
    } else {
        None
    }
}

/// Clamps `v` into `[-h, h]`.
fn clamp_sym(v: i128, h: i128) -> (r: i128)
    requires
        h >= 0,
    ensures
        r == clamp_to(v as int, h as int),
{
    if v > h {
        h
    } else if v < -h {
        -h
    } else {
        v
    }
}

/// Overlap test between a circle and a rectangle of full extents `rect_width`
/// by `rect_height`, turned by `rotation` about its center.
pub fn detect_circle_rect(
    circle_pos: (i64, i64),
    radius: i64,
    rect_pos: (i64, i64),
    rect_width: i64,
    rect_height: i64,
    rotation: Rotation,
) -> (r: Option<CollisionInfo>)
    requires
        in_limit(circle_pos.0),
        in_limit(circle_pos.1),
        in_limit(rect_pos.0),
        in_limit(rect_pos.1),
        0 <= radius <= 2 * LIMIT,
        extent_ok(rect_width),
        extent_ok(rect_height),
        rotation.wf(),
    ensures
        r == circle_rect(
            circle_pos.0 as int,
            circle_pos.1 as int,
            radius as int,
            rect_pos.0 as int,
            rect_pos.1 as int,
            rect_width as int,
            rect_height as int,
            rotation,
        ),
        r matches Some(info) ==> info.wf(),
        r matches Some(info) ==> (SCALE - 10) * (SCALE - 10) <= norm_sq(info.normal) <= (SCALE + 10) * (SCALE + 10),
{
    let c: i128 = rotation.cos as i128;
    let s: i128 = rotation.sin as i128;
    let sc: i128 = SCALE as i128;
    let dx: i128 = circle_pos.0 as i128 - rect_pos.0 as i128;
    let dy: i128 = circle_pos.1 as i128 - rect_pos.1 as i128;
    proof {
        lemma_mul_bound(dx as int, c as int, 2 * LIMIT, SCALE as int);
        lemma_mul_bound(dy as int, s as int, 2 * LIMIT, SCALE as int);
        lemma_mul_bound(dx as int, s as int, 2 * LIMIT, SCALE as int);
        lemma_mul_bound(dy as int, c as int, 2 * LIMIT, SCALE as int);
        lemma_tdiv_bound(dx * c + dy * s, SCALE as int, 4 * LIMIT);
        lemma_tdiv_bound(dy * c - dx * s, SCALE as int, 4 * LIMIT);
    }
    let lx: i128 = div_trunc(dx * c + dy * s, sc);
    let ly: i128 = div_trunc(dy * c - dx * s, sc);
    let ox: i128 = lx - clamp_sym(lx, rect_width as i128 / 2);
    let oy: i128 = ly - clamp_sym(ly, rect_height as i128 / 2);
    proof {
        lemma_mul_bound(ox as int, ox as int, 4 * LIMIT, 4 * LIMIT);
        lemma_mul_bound(oy as int, oy as int, 4 * LIMIT, 4 * LIMIT);
        lemma_mul_bound(radius as int, radius as int, 2 * LIMIT, 2 * LIMIT);
        assert((2 * LIMIT) * (2 * LIMIT) == 4_000_000_000_000_000_000_000_000int
            && (4 * LIMIT) * (4 * LIMIT) == 16_000_000_000_000_000_000_000_000int) by (nonlinear_arith)
            requires LIMIT == 1_000_000_000_000int;
    }
    let n: i128 = ox * ox + oy * oy;
    if n < radius as i128 * radius as i128 && n > 0 {
        assert(ox * ox >= 0 && oy * oy >= 0) by (nonlinear_arith);
        let d: i128 = isqrt(n as u128) as i128;
        let e: i128 = isqrt((n * SCALE_SQ as i128) as u128) as i128;
        proof {
            assert(n == (-ox) * (-ox) + (-oy) * (-oy)) by (nonlinear_arith)
                requires
                    n == ox * ox + oy * oy,
            ;
            lemma_root_positive(n as int, d as int);
            lemma_unit_dir(-ox as int, -oy as int, e as int);
            assert(d < radius) by (nonlinear_arith)
                requires
                    d >= 0,
                    radius >= 0,
                    d * d <= n,
                    n < radius * radius,
            ;
        }
        let nlx: i128 = div_trunc(-ox * SCALE_SQ as i128, e);
        let nly: i128 = div_trunc(-oy * SCALE_SQ as i128, e);
        proof {
            lemma_rotated_norm(nlx as int, nly as int, c as int, s as int);
            lemma_mul_bound(nlx as int, c as int, SCALE as int, SCALE as int);
            lemma_mul_bound(nly as int, s as int, SCALE as int, SCALE as int);
            lemma_mul_bound(nlx as int, s as int, SCALE as int, SCALE as int);
            lemma_mul_bound(nly as int, c as int, SCALE as int, SCALE as int);
            lemma_tdiv_bound(nlx * c - nly * s, SCALE as int, 2 * SCALE);
            lemma_tdiv_bound(nlx * s + nly * c, SCALE as int, 2 * SCALE);
        }
        let wx: i128 = div_trunc(nlx * c - nly * s, sc);
        let wy: i128 = div_trunc(nlx * s + nly * c, sc);
        Some(CollisionInfo { normal: (wx as i64, wy as i64), penetration: (radius as i128 - d) as i64 })
    } else {
        None
    }
}

} // verus!

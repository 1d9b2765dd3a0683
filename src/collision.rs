//! The collision space: the registry of bodies and the physics step.
use vstd::prelude::*;
use crate::Id;
use crate::fixed::{clamp_limit, clamp_to_limit, div_trunc, lemma_mul_bound, lemma_tdiv_bound, tdiv, LIMIT, SCALE};
use crate::geometry::{circle_circle, circle_rect, detect_circle_circle, detect_circle_rect, CollisionInfo};
use crate::things::{CollisionType, Dynamics, Shape, Transform};

verus! {

/// Velocity gained by a dynamic body in one frame (1.96 pixels per frame).
pub const GRAVITY: i64 = 1960;

/// Number of detect, resolve and integrate passes in one frame.
pub const PHYSICS_SUBSTEPS: usize = 4;

/// Restitution against a non-dynamic body is the dynamic body's own,
/// damped by this factor (scaled by `SCALE`).
pub const SURFACE_DAMPING: i64 = 800;

/// One detected overlap between the shapes at positions `first < second` of
/// the registry.
#[derive(Debug, Clone, Copy)]
pub struct Contact {
    pub first: usize,
    pub second: usize,
    pub info: CollisionInfo,
}

/// The registry of bodies: `ids[k]` identifies `shapes[k]`.
pub struct CollisionSpace {
    pub ids: Vec<Id>,
    pub shapes: Vec<Shape>,
}

// ---------------------------------------------------------------------------
// Model of one frame
// ---------------------------------------------------------------------------

/// Radius of a circle of the given width, in thousandths of a pixel.
pub open spec fn radius_of(width: i32) -> int {
    width * SCALE / 2
}

/// An extent in pixels, in thousandths of a pixel.
pub open spec fn extent_of(v: i32) -> int {
    v * SCALE
}

pub open spec fn flipped(o: Option<CollisionInfo>) -> Option<CollisionInfo> {
    match o {
        Some(i) => Some(CollisionInfo { normal: ((-i.normal.0) as i64, (-i.normal.1) as i64), penetration: i.penetration }),
        None => None,
    }
}

/// The overlap of two shapes, with its normal pointing from `a` toward `b`.
/// A pair with no dynamic member is never tested, and two rectangles are
/// never reported as overlapping.
pub open spec fn pair_collision(a: Shape, b: Shape) -> Option<CollisionInfo> {
    let ta = a.transform;
    let tb = b.transform;
    if !(a.is_dynamic() || b.is_dynamic()) {
        None
    } else {
        match (a.collision_type, b.collision_type) {
            (CollisionType::Circle, CollisionType::Circle) => circle_circle(
                ta.x_pos as int, ta.y_pos as int, radius_of(ta.width),
                tb.x_pos as int, tb.y_pos as int, radius_of(tb.width),
            ),
            (CollisionType::Circle, CollisionType::Rectangle) => circle_rect(
                ta.x_pos as int, ta.y_pos as int, radius_of(ta.width),
                tb.x_pos as int, tb.y_pos as int, extent_of(tb.width), extent_of(tb.height), tb.rotation,
            ),
            (CollisionType::Rectangle, CollisionType::Circle) => flipped(circle_rect(
                tb.x_pos as int, tb.y_pos as int, radius_of(tb.width),
                ta.x_pos as int, ta.y_pos as int, extent_of(ta.width), extent_of(ta.height), ta.rotation,
            )),
            (CollisionType::Rectangle, CollisionType::Rectangle) => None,
        }
    }
}

/// Overlaps of shape `i` with the shapes at `i + 1 .. j`, in that order.
pub open spec fn row(s: Seq<Shape>, i: int, j: int) -> Seq<Contact>
    decreases j - i,
{
    if j <= i + 1 {
        Seq::empty()
    } else {
        let prev = row(s, i, j - 1);
        match pair_collision(s[i], s[j - 1]) {
            Some(c) => prev.push(Contact { first: i as usize, second: (j - 1) as usize, info: c }),
            None => prev,
        }
    }
}

/// Overlaps of every pair whose first member is before `i`, pair by pair.
pub open spec fn detect_upto(s: Seq<Shape>, i: int) -> Seq<Contact>
    decreases i,
{
    if i <= 0 {
        Seq::empty()
    } else {
        detect_upto(s, i - 1) + row(s, i - 1, s.len() as int)
    }
}

/// All overlaps of one sub-step, over every unordered pair.
pub open spec fn detect_all(s: Seq<Shape>) -> Seq<Contact> {
    detect_upto(s, s.len() as int)
}

pub open spec fn involves(c: Contact, k: int) -> bool {
    c.first == k || c.second == k
}

pub open spec fn touched(cs: Seq<Contact>, k: int) -> bool {
    exists|m: int| 0 <= m < cs.len() && #[trigger] involves(cs[m], k)
}

pub open spec fn cleared(s: Seq<Shape>) -> Seq<Shape> {
    Seq::new(s.len(), |k: int| Shape { colliding: false, ..s[k] })
}

pub open spec fn flagged(s: Seq<Shape>, cs: Seq<Contact>) -> Seq<Shape> {
    Seq::new(s.len(), |k: int| Shape { colliding: s[k].colliding || touched(cs, k), ..s[k] })
}

pub open spec fn contacts_ok(cs: Seq<Contact>, n: int) -> bool {
    forall|m: int| 0 <= m < cs.len() ==> {
        &&& #[trigger] cs[m].first < cs[m].second
        &&& cs[m].second < n
        &&& cs[m].info.wf()
    }
}

pub open spec fn all_wf(s: Seq<Shape>) -> bool {
    forall|k: int| 0 <= k < s.len() ==> #[trigger] s[k].wf()
}


// ---------------------------------------------------------------------------
// Model of collision response
// ---------------------------------------------------------------------------

/// `v` moved forward along a normal component `n` by `amount`, saturated.
pub open spec fn pushed(v: i64, n: i64, amount: int) -> i64 {
    clamp_limit(v + tdiv(n * amount, SCALE as int)) as i64
}

/// `v` moved backward along a normal component `n` by `amount`, saturated.
pub open spec fn pulled(v: i64, n: i64, amount: int) -> i64 {
    clamp_limit(v - tdiv(n * amount, SCALE as int)) as i64
}

pub open spec fn with_pos(s: Shape, x: i64, y: i64) -> Shape {
    Shape { transform: Transform { x_pos: x, y_pos: y, ..s.transform }, ..s }
}

pub open spec fn with_vel(s: Shape, vx: i64, vy: i64) -> Shape {
    Shape { transform: Transform { vel_x: vx, vel_y: vy, ..s.transform }, ..s }
}

/// Speed of `b` relative to `a` along `n` (negative when they approach).
pub open spec fn closing_speed(a: Shape, b: Shape, n: (i64, i64)) -> int {
    tdiv(
        (b.transform.vel_x - a.transform.vel_x) * n.0 + (b.transform.vel_y - a.transform.vel_y) * n.1,
        SCALE as int,
    )
}

/// Combined restitution of two dynamic bodies.
pub open spec fn combined_restitution(a: Shape, b: Shape) -> int {
    a.restitution * b.restitution / SCALE as int
}

/// Impulse magnitude shared by two dynamic bodies of equal mass.
pub open spec fn pair_impulse(a: Shape, b: Shape, n: (i64, i64)) -> int {
    tdiv(-(SCALE + combined_restitution(a, b)) * closing_speed(a, b, n), 2 * SCALE as int)
}

/// Velocities of two dynamic bodies after their impulse; bodies that
/// already separate along `n` keep theirs.
pub open spec fn bounced(a: Shape, b: Shape, n: (i64, i64)) -> (Shape, Shape) {
    if closing_speed(a, b, n) > 0 {
        (a, b)
    } else {
        let j = pair_impulse(a, b, n);
        let ta = a.transform;
        let tb = b.transform;
        (
            with_vel(a, pulled(ta.vel_x, n.0, j), pulled(ta.vel_y, n.1, j)),
            with_vel(b, pushed(tb.vel_x, n.0, j), pushed(tb.vel_y, n.1, j)),
        )
    }
}

/// Two dynamic bodies, each moved by half the penetration away from the other.
pub open spec fn dd_separated(s: Seq<Shape>, i: int, k: int, info: CollisionInfo) -> Seq<Shape> {
    let corr = info.penetration / 2;
    let n = info.normal;
    let ta = s[i].transform;
    let tb = s[k].transform;
    s.update(i, with_pos(s[i], pulled(ta.x_pos, n.0, corr), pulled(ta.y_pos, n.1, corr)))
        .update(k, with_pos(s[k], pushed(tb.x_pos, n.0, corr), pushed(tb.y_pos, n.1, corr)))
}

pub open spec fn dd_bounced(s: Seq<Shape>, i: int, k: int, n: (i64, i64)) -> Seq<Shape> {
    let r = bounced(s[i], s[k], n);
    s.update(i, r.0).update(k, r.1)
}

pub open spec fn resolve_dd(s: Seq<Shape>, i: int, k: int, info: CollisionInfo) -> Seq<Shape> {
    dd_bounced(dd_separated(s, i, k, info), i, k, info.normal)
}

/// A dynamic body moved by the full penetration away from a body that does
/// not move; `first` tells whether it is the pair's first member.
pub open spec fn surface_separated(d: Shape, info: CollisionInfo, first: bool) -> Shape {
    let n = info.normal;
    let p = info.penetration as int;
    let t = d.transform;
    if first {
        with_pos(d, pulled(t.x_pos, n.0, p), pulled(t.y_pos, n.1, p))
    } else {
        with_pos(d, pushed(t.x_pos, n.0, p), pushed(t.y_pos, n.1, p))
    }
}

/// Impulse of a dynamic body against a body that does not move.
pub open spec fn surface_impulse(d: Shape, n: (i64, i64)) -> int {
    let t = d.transform;
    let along = tdiv(t.vel_x * n.0 + t.vel_y * n.1, SCALE as int);
    let e = d.restitution * SURFACE_DAMPING / SCALE as int;
    tdiv(-(SCALE + e) * along, SCALE as int)
}

pub open spec fn surface_bounced(d: Shape, n: (i64, i64)) -> Shape {
    let j = surface_impulse(d, n);
    let t = d.transform;
    with_vel(d, pushed(t.vel_x, n.0, j), pushed(t.vel_y, n.1, j))
}

pub open spec fn resolve_surface(s: Seq<Shape>, d: int, info: CollisionInfo, first: bool) -> Seq<Shape> {
    s.update(d, surface_bounced(surface_separated(s[d], info, first), info.normal))
}

/// The effect of one contact, by the dynamics of its two members.
pub open spec fn resolve_contact(s: Seq<Shape>, c: Contact) -> Seq<Shape> {
    let i = c.first as int;
    let k = c.second as int;
    if i < s.len() && k < s.len() && i != k {
        match (s[i].dynamics, s[k].dynamics) {
            (Dynamics::Dynamic, Dynamics::Dynamic) => resolve_dd(s, i, k, c.info),
            (Dynamics::Dynamic, _) => resolve_surface(s, i, c.info, true),
            (_, Dynamics::Dynamic) => resolve_surface(s, k, c.info, false),
            _ => s,
        }
    } else {
        s
    }
}

/// The first `m` contacts resolved in order, each seeing the effect of
/// those before it.
pub open spec fn resolve_upto(s: Seq<Shape>, cs: Seq<Contact>, m: int) -> Seq<Shape>
    decreases m,
{
    if m <= 0 {
        s
    } else {
        resolve_contact(resolve_upto(s, cs, m - 1), cs[m - 1])
    }
}

pub open spec fn resolve_all(s: Seq<Shape>, cs: Seq<Contact>) -> Seq<Shape> {
    resolve_upto(s, cs, cs.len() as int)
}

/// A quarter of the velocity added to the position.
pub open spec fn integrated(sh: Shape) -> Shape {
    let t = sh.transform;
    with_pos(
        sh,
        clamp_limit(t.x_pos + tdiv(t.vel_x as int, PHYSICS_SUBSTEPS as int)) as i64,
        clamp_limit(t.y_pos + tdiv(t.vel_y as int, PHYSICS_SUBSTEPS as int)) as i64,
    )
}

pub open spec fn integrate_all(s: Seq<Shape>) -> Seq<Shape> {
    Seq::new(s.len(), |k: int| integrated(s[k]))
}

/// Gravity on a dynamic body; other bodies are left alone.
pub open spec fn with_gravity(sh: Shape) -> Shape {
    if sh.is_dynamic() {
        Shape {
            transform: Transform {
                accel_y: GRAVITY,
                vel_y: clamp_limit(sh.transform.vel_y + GRAVITY) as i64,
                ..sh.transform
            },
            ..sh
        }
    } else {
        sh
    }
}

pub open spec fn gravity_all(s: Seq<Shape>) -> Seq<Shape> {
    Seq::new(s.len(), |k: int| with_gravity(s[k]))
}

/// One sub-step: detect, flag, resolve, integrate.
pub open spec fn substep(s: Seq<Shape>) -> Seq<Shape> {
    let cs = detect_all(s);
    integrate_all(resolve_all(flagged(cleared(s), cs), cs))
}

pub open spec fn substeps(s: Seq<Shape>, t: nat) -> Seq<Shape>
    decreases t,
{
    if t == 0 {
        s
    } else {
        substep(substeps(s, (t - 1) as nat))
    }
}

/// One frame: gravity once, then the sub-steps.
pub open spec fn step_model(s: Seq<Shape>) -> Seq<Shape> {
    substeps(gravity_all(s), PHYSICS_SUBSTEPS as nat)
}

// ---------------------------------------------------------------------------
// Collision response
// ---------------------------------------------------------------------------

/// `a * b / d`, rounded toward zero.
fn mul_div(a: i128, b: i128, d: i128) -> (r: i128)
    requires
        0 < d,
        -0x4000_0000_0000_0000 <= a <= 0x4000_0000_0000_0000,
        -0x4000_0000_0000_0000 <= b <= 0x4000_0000_0000_0000,
    ensures
        r == tdiv(a * b, d as int),
        -0x1000_0000_0000_0000_0000_0000_0000_0000 <= r <= 0x1000_0000_0000_0000_0000_0000_0000_0000,
{
    proof {
        lemma_mul_bound(a as int, b as int, 0x4000_0000_0000_0000, 0x4000_0000_0000_0000);
        let big: int = 0x1000_0000_0000_0000_0000_0000_0000_0000;
        assert(0x4000_0000_0000_0000int * 0x4000_0000_0000_0000int == big);
        assert(big <= d * big) by (nonlinear_arith)
            requires
                d >= 1,
                big >= 0,
        ;
        lemma_tdiv_bound(a * b, d as int, big);
    }
    div_trunc(a * b, d)
}

/// `v` moved along the normal component `n` by `amount`, forward or backward.
fn shifted(v: i64, n: i64, amount: i128, forward: bool) -> (r: i64)
    requires
        -LIMIT <= v <= LIMIT,
        -2 * SCALE <= n <= 2 * SCALE,
        -0x1000_0000_0000_0000 <= amount <= 0x1000_0000_0000_0000,
    ensures
        r == (if forward { pushed(v, n, amount as int) } else { pulled(v, n, amount as int) }),
        -LIMIT <= r <= LIMIT,
{
    let m = mul_div(n as i128, amount, SCALE as i128);
    if forward {
        clamp_to_limit(v as i128 + m)
    } else {
        clamp_to_limit(v as i128 - m)
    }
}

/// Velocities of two dynamic bodies after they meet along `n`.
fn bounce_pair(a: Shape, b: Shape, n: (i64, i64)) -> (r: (Shape, Shape))
    requires
        a.wf(),
        b.wf(),
        -2 * SCALE <= n.0 <= 2 * SCALE,
        -2 * SCALE <= n.1 <= 2 * SCALE,
    ensures
        r == bounced(a, b, n),
        r.0.wf(),
        r.1.wf(),
{
    let ta = a.transform;
    let tb = b.transform;
    let rx: i128 = tb.vel_x as i128 - ta.vel_x as i128;
    let ry: i128 = tb.vel_y as i128 - ta.vel_y as i128;
    proof {
        lemma_mul_bound(rx as int, n.0 as int, 2_000_000_000_000, 2000);
        lemma_mul_bound(ry as int, n.1 as int, 2_000_000_000_000, 2000);
        lemma_tdiv_bound(rx * n.0 + ry * n.1, 1000, 8_000_000_000_000);
    }
    let along = div_trunc(rx * n.0 as i128 + ry * n.1 as i128, SCALE as i128);
    if along > 0 {
        return (a, b);
    }
    proof {
        lemma_mul_bound(a.restitution as int, b.restitution as int, 1000, 1000);
        vstd::arithmetic::div_mod::lemma_div_is_ordered(a.restitution * b.restitution, 1_000_000, 1000);
        vstd::arithmetic::div_mod::lemma_div_pos_is_pos(a.restitution * b.restitution, 1000);
    }
    let e: i128 = (a.restitution as i128 * b.restitution as i128) / SCALE as i128;
    let j = mul_div(-(SCALE as i128 + e), along, 2 * SCALE as i128);
    proof {
        lemma_mul_bound(-(SCALE + e), along as int, 2000, 8_000_000_000_000);
        lemma_tdiv_bound(-(SCALE + e) * along, 2000, 8_000_000_000_000);
    }
    let mut a2 = a;
    let mut b2 = b;
    a2.transform.vel_x = shifted(ta.vel_x, n.0, j, false);
    a2.transform.vel_y = shifted(ta.vel_y, n.1, j, false);
    b2.transform.vel_x = shifted(tb.vel_x, n.0, j, true);
    b2.transform.vel_y = shifted(tb.vel_y, n.1, j, true);
    (a2, b2)
}

/// A dynamic body moved out of a body that does not move.
fn separate_from_surface(d: Shape, info: &CollisionInfo, first: bool) -> (r: Shape)
    requires
        d.wf(),
        info.wf(),
    ensures
        r == surface_separated(d, *info, first),
        r.wf(),
{
    let mut r = d;
    let p = info.penetration as i128;
    r.transform.x_pos = shifted(d.transform.x_pos, info.normal.0, p, !first);
    r.transform.y_pos = shifted(d.transform.y_pos, info.normal.1, p, !first);
    r
}

/// Velocity of a dynamic body after it meets a body that does not move.
fn bounce_off_surface(d: Shape, n: (i64, i64)) -> (r: Shape)
    requires
        d.wf(),
        -2 * SCALE <= n.0 <= 2 * SCALE,
        -2 * SCALE <= n.1 <= 2 * SCALE,
    ensures
        r == surface_bounced(d, n),
        r.wf(),
{
    let t = d.transform;
    proof {
        lemma_mul_bound(t.vel_x as int, n.0 as int, 1_000_000_000_000, 2000);
        lemma_mul_bound(t.vel_y as int, n.1 as int, 1_000_000_000_000, 2000);
        lemma_tdiv_bound(t.vel_x * n.0 + t.vel_y * n.1, 1000, 4_000_000_000_000);
    }
    let along = div_trunc(t.vel_x as i128 * n.0 as i128 + t.vel_y as i128 * n.1 as i128, SCALE as i128);
    proof {
        vstd::arithmetic::div_mod::lemma_div_is_ordered(d.restitution * SURFACE_DAMPING, 800_000, 1000);
        vstd::arithmetic::div_mod::lemma_div_pos_is_pos(d.restitution * SURFACE_DAMPING, 1000);
    }
    let e: i128 = (d.restitution as i128 * SURFACE_DAMPING as i128) / SCALE as i128;
    let j = mul_div(-(SCALE as i128 + e), along, SCALE as i128);
    proof {
        lemma_mul_bound(-(SCALE + e), along as int, 2000, 4_000_000_000_000);
        lemma_tdiv_bound(-(SCALE + e) * along, 1000, 8_000_000_000_000);
    }
    let mut r = d;
    r.transform.vel_x = shifted(t.vel_x, n.0, j, true);
    r.transform.vel_y = shifted(t.vel_y, n.1, j, true);
    r
}

/// A coordinate that left the screen on one side re-enters on the other:
/// past `screen + extent` it goes to `-extent`, before `-extent` to
/// `screen + extent` (all in pixels, saturated).
pub open spec fn wrapped_coord(v: i64, screen: i32, extent: i32) -> i64 {
    let hi = (screen + extent) * SCALE;
    let lo = -extent * SCALE;
    if v > hi {
        clamp_limit(lo) as i64
    } else if v < lo {
        clamp_limit(hi) as i64
    } else {
        v
    }
}

pub open spec fn wrapped(sh: Shape, screen_width: i32, screen_height: i32) -> Shape {
    let t = sh.transform;
    with_pos(sh, wrapped_coord(t.x_pos, screen_width, t.width), wrapped_coord(t.y_pos, screen_height, t.height))
}

impl CollisionSpace {
    pub open spec fn wf(&self) -> bool {
        &&& self.ids@.len() == self.shapes@.len()
        &&& all_wf(self.shapes@)
        &&& forall|p: int, q: int|
            0 <= p < q < self.ids@.len() ==> #[trigger] self.ids@[p] != #[trigger] self.ids@[q]
    }
}

fn wrap_coord(v: i64, screen: i32, extent: i32) -> (r: i64)
    ensures
        r == wrapped_coord(v, screen, extent),
{
    proof {
        lemma_mul_bound(screen + extent, SCALE as int, 0x1_0000_0000, 1000);
        lemma_mul_bound(-extent, SCALE as int, 0x1_0000_0000, 1000);
    }
    let hi: i128 = (screen as i128 + extent as i128) * SCALE as i128;
    let lo: i128 = -(extent as i128) * SCALE as i128;
    if v as i128 > hi {
        clamp_to_limit(lo)
    } else if (v as i128) < lo {
        clamp_to_limit(hi)
    } else {
        v
    }
}

// ---------------------------------------------------------------------------
// Detection
// ---------------------------------------------------------------------------

fn radius(width: i32) -> (r: i64)
    requires
        width >= 0,
    ensures
        r == radius_of(width),
        0 <= r <= 2 * LIMIT,
{
    width as i64 * SCALE / 2
}

fn extent(v: i32) -> (r: i64)
    requires
        v >= 0,
    ensures
        r == extent_of(v),
        0 <= r <= 4 * LIMIT,
{
    v as i64 * SCALE
}

/// Tests one pair of shapes, dispatching on their collision types.
pub fn check_pair(a: &Shape, b: &Shape) -> (r: Option<CollisionInfo>)
    requires
        a.wf(),
        b.wf(),
    ensures
        r == pair_collision(*a, *b),
        r matches Some(info) ==> info.wf(),
{
    let ta = &a.transform;
    let tb = &b.transform;
    if !(matches!(a.dynamics, Dynamics::Dynamic) || matches!(b.dynamics, Dynamics::Dynamic)) {
        return None;
    }
    match (a.collision_type, b.collision_type) {
        (CollisionType::Circle, CollisionType::Circle) => detect_circle_circle(
            (ta.x_pos, ta.y_pos), radius(ta.width),
            (tb.x_pos, tb.y_pos), radius(tb.width),
        ),
        (CollisionType::Circle, CollisionType::Rectangle) => detect_circle_rect(
            (ta.x_pos, ta.y_pos), radius(ta.width),
            (tb.x_pos, tb.y_pos), extent(tb.width), extent(tb.height), tb.rotation,
        ),
        (CollisionType::Rectangle, CollisionType::Circle) => {
            // The test sees the circle first; turn its normal round so that
            // it points from `a` toward `b` like every other pair.
            let found = detect_circle_rect(
                (tb.x_pos, tb.y_pos), radius(tb.width),
                (ta.x_pos, ta.y_pos), extent(ta.width), extent(ta.height), ta.rotation,
            );
            match found {
                Some(info) => Some(CollisionInfo {
                    normal: (-info.normal.0, -info.normal.1),
                    penetration: info.penetration,
                }),
                None => None,
            }
        },
        (CollisionType::Rectangle, CollisionType::Rectangle) => None,
    }
}

impl CollisionSpace {
    /// Clears every shape's `colliding` flag.
    pub fn reset_colliding_debug(&mut self)
        requires
            old(self).wf(),
        ensures
            final(self).wf(),
            final(self).ids == old(self).ids,
            final(self).shapes@ == cleared(old(self).shapes@),
    {
        let n = self.shapes.len();
        let mut k: usize = 0;
        while k < n
            invariant
                k <= n,
                n == self.shapes@.len(),
                self.ids == old(self).ids,
                self.shapes@.len() == old(self).shapes@.len(),
                forall|q: int| 0 <= q < k ==> self.shapes@[q] == (Shape { colliding: false, ..old(self).shapes@[q] }),
                forall|q: int| k <= q < n ==> self.shapes@[q] == old(self).shapes@[q],
            decreases n - k,
        {
            let mut sh = self.shapes[k];
            sh.set_colliding(false);
            self.shapes.set(k, sh);
            k += 1;
        }
        assert(self.shapes@ =~= cleared(old(self).shapes@));
        assert forall|q: int| 0 <= q < n implies #[trigger] self.shapes@[q].wf() by {
            assert(old(self).shapes@[q].wf());
        }
    }

    /// Raises the `colliding` flag of every shape that takes part in a contact.
    pub fn set_colliding_debug(&mut self, collisions: &Vec<Contact>)
        requires
            old(self).wf(),
            contacts_ok(collisions@, old(self).shapes@.len() as int),
        ensures
            final(self).wf(),
            final(self).ids == old(self).ids,
            final(self).shapes@ == flagged(old(self).shapes@, collisions@),
    {
        let ghost s = self.shapes@;
        let ghost cs = collisions@;
        let n = collisions.len();
        let mut m: usize = 0;
        while m < n
            invariant
                m <= n,
                n == cs.len(),
                cs == collisions@,
                contacts_ok(cs, s.len() as int),
                self.ids == old(self).ids,
                s == old(self).shapes@,
                self.shapes@.len() == s.len(),
                forall|q: int| 0 <= q < s.len() ==> #[trigger] self.shapes@[q] == (Shape {
                    colliding: s[q].colliding || exists|mm: int| 0 <= mm < m && #[trigger] involves(cs[mm], q),
                    ..s[q]
                }),
            decreases n - m,
        {
            let c = collisions[m];
            let mut sa = self.shapes[c.first];
            sa.set_colliding(true);
            self.shapes.set(c.first, sa);
            let mut sb = self.shapes[c.second];
            sb.set_colliding(true);
            self.shapes.set(c.second, sb);
            assert forall|q: int| 0 <= q < s.len() implies #[trigger] self.shapes@[q] == (Shape {
                colliding: s[q].colliding || exists|mm: int| 0 <= mm < m + 1 && #[trigger] involves(cs[mm], q),
                ..s[q]
            }) by {
                if involves(cs[m as int], q) {
                    assert(involves(cs[m as int], q));
                } else {
                    if exists|mm: int| 0 <= mm < m + 1 && #[trigger] involves(cs[mm], q) {
                        let mm = choose|mm: int| 0 <= mm < m + 1 && #[trigger] involves(cs[mm], q);
                        assert(mm < m);
                    }
                }
            }
            m += 1;
        }
        assert(self.shapes@ =~= flagged(s, cs));
    }

    /// Adds a quarter of each body's velocity to its position.
    pub fn integrate_motion_substep(&mut self)
        requires
            old(self).wf(),
        ensures
            final(self).wf(),
            final(self).ids == old(self).ids,
            final(self).shapes@ == integrate_all(old(self).shapes@),
    {
        let n = self.shapes.len();
        let mut k: usize = 0;
        while k < n
            invariant
                k <= n,
                n == self.shapes@.len(),
                self.ids == old(self).ids,
                self.shapes@.len() == old(self).shapes@.len(),
                all_wf(old(self).shapes@),
                forall|q: int| 0 <= q < k ==> self.shapes@[q] == integrated(old(self).shapes@[q]),
                forall|q: int| k <= q < n ==> self.shapes@[q] == old(self).shapes@[q],
            decreases n - k,
        {
            let mut sh = self.shapes[k];
            assert(old(self).shapes@[k as int].wf());
            let dx = div_trunc(sh.transform.vel_x as i128, PHYSICS_SUBSTEPS as i128);
            let dy = div_trunc(sh.transform.vel_y as i128, PHYSICS_SUBSTEPS as i128);
            proof {
                lemma_tdiv_bound(sh.transform.vel_x as int, 4, LIMIT as int);
                lemma_tdiv_bound(sh.transform.vel_y as int, 4, LIMIT as int);
            }
            sh.transform.x_pos = clamp_to_limit(sh.transform.x_pos as i128 + dx);
            sh.transform.y_pos = clamp_to_limit(sh.transform.y_pos as i128 + dy);
            self.shapes.set(k, sh);
            k += 1;
        }
        assert(self.shapes@ =~= integrate_all(old(self).shapes@));
        assert forall|q: int| 0 <= q < n implies #[trigger] self.shapes@[q].wf() by {
            assert(old(self).shapes@[q].wf());
        }
    }

    /// Gives every dynamic body one frame's worth of gravity.
    pub fn handle_gravity(&mut self)
        requires
            old(self).wf(),
        ensures
            final(self).wf(),
            final(self).ids == old(self).ids,
            final(self).shapes@ == gravity_all(old(self).shapes@),
    {
        let n = self.shapes.len();
        let mut k: usize = 0;
        while k < n
            invariant
                k <= n,
                n == self.shapes@.len(),
                self.ids == old(self).ids,
                self.shapes@.len() == old(self).shapes@.len(),
                all_wf(old(self).shapes@),
                forall|q: int| 0 <= q < k ==> self.shapes@[q] == with_gravity(old(self).shapes@[q]),
                forall|q: int| k <= q < n ==> self.shapes@[q] == old(self).shapes@[q],
            decreases n - k,
        {
            let mut sh = self.shapes[k];
            if matches!(sh.dynamics, Dynamics::Dynamic) {
                sh.transform.accel_y = GRAVITY;
                sh.transform.vel_y = clamp_to_limit(sh.transform.vel_y as i128 + sh.transform.accel_y as i128);
                self.shapes.set(k, sh);
            }
            k += 1;
        }
        assert(self.shapes@ =~= gravity_all(old(self).shapes@));
        assert forall|q: int| 0 <= q < n implies #[trigger] self.shapes@[q].wf() by {
            assert(old(self).shapes@[q].wf());
        }
    }

    /// Impulse between the dynamic bodies at `i` and `k`.
    pub fn apply_bounce(&mut self, i: usize, k: usize, normal: (i64, i64))
        requires
            old(self).wf(),
            i < old(self).shapes@.len(),
            k < old(self).shapes@.len(),
            i != k,
            -2 * SCALE <= normal.0 <= 2 * SCALE,
            -2 * SCALE <= normal.1 <= 2 * SCALE,
        ensures
            final(self).wf(),
            final(self).ids == old(self).ids,
            final(self).shapes@ == dd_bounced(old(self).shapes@, i as int, k as int, normal),
    {
        assert(self.shapes@[i as int].wf() && self.shapes@[k as int].wf());
        let r = bounce_pair(self.shapes[i], self.shapes[k], normal);
        self.shapes.set(i, r.0);
        self.shapes.set(k, r.1);
        proof {
            let s = self.shapes@;
            assert forall|q: int| 0 <= q < s.len() implies #[trigger] s[q].wf() by {
                assert(old(self).shapes@[q].wf());
            }
        }
    }

    /// Two dynamic bodies pushed apart equally, then bounced.
    pub fn resolve_dynamic_dynamic(&mut self, i: usize, k: usize, info: &CollisionInfo)
        requires
            old(self).wf(),
            i < old(self).shapes@.len(),
            k < old(self).shapes@.len(),
            i != k,
            info.wf(),
        ensures
            final(self).wf(),
            final(self).ids == old(self).ids,
            final(self).shapes@ == resolve_dd(old(self).shapes@, i as int, k as int, *info),
    {
        assert(self.shapes@[i as int].wf() && self.shapes@[k as int].wf());
        let corr = info.penetration as i128 / 2;
        let mut a = self.shapes[i];
        a.transform.x_pos = shifted(a.transform.x_pos, info.normal.0, corr, false);
        a.transform.y_pos = shifted(a.transform.y_pos, info.normal.1, corr, false);
        let mut b = self.shapes[k];
        b.transform.x_pos = shifted(b.transform.x_pos, info.normal.0, corr, true);
        b.transform.y_pos = shifted(b.transform.y_pos, info.normal.1, corr, true);
        self.shapes.set(i, a);
        self.shapes.set(k, b);
        proof {
            let s = self.shapes@;
            assert(s == dd_separated(old(self).shapes@, i as int, k as int, *info));
            assert forall|q: int| 0 <= q < s.len() implies #[trigger] s[q].wf() by {
                assert(old(self).shapes@[q].wf());
            }
        }
        self.apply_bounce(i, k, info.normal);
    }

    /// Impulse of the dynamic body at `d` against a body that does not move.
    pub fn apply_bounce_static(&mut self, d: usize, normal: (i64, i64))
        requires
            old(self).wf(),
            d < old(self).shapes@.len(),
            -2 * SCALE <= normal.0 <= 2 * SCALE,
            -2 * SCALE <= normal.1 <= 2 * SCALE,
        ensures
            final(self).wf(),
            final(self).ids == old(self).ids,
            final(self).shapes@ == old(self).shapes@.update(d as int, surface_bounced(old(self).shapes@[d as int], normal)),
    {
        assert(self.shapes@[d as int].wf());
        let r = bounce_off_surface(self.shapes[d], normal);
        self.shapes.set(d, r);
        proof {
            let s = self.shapes@;
            assert forall|q: int| 0 <= q < s.len() implies #[trigger] s[q].wf() by {
                assert(old(self).shapes@[q].wf());
            }
        }
    }

    /// The dynamic body at `d` pushed out of a body that does not move, by
    /// the full penetration, then bounced; `first` tells whether it is the
    /// first member of the contact.
    pub fn resolve_dynamic_static(&mut self, d: usize, info: &CollisionInfo, first: bool)
        requires
            old(self).wf(),
            d < old(self).shapes@.len(),
            info.wf(),
        ensures
            final(self).wf(),
            final(self).ids == old(self).ids,
            final(self).shapes@ == resolve_surface(old(self).shapes@, d as int, *info, first),
    {
        assert(self.shapes@[d as int].wf());
        let r = separate_from_surface(self.shapes[d], info, first);
        self.shapes.set(d, r);
        proof {
            let s = self.shapes@;
            assert forall|q: int| 0 <= q < s.len() implies #[trigger] s[q].wf() by {
                assert(old(self).shapes@[q].wf());
            }
        }
        self.apply_bounce_static(d, info.normal);
    }

    /// Resolves the contacts in order, each by the dynamics of its members.
    pub fn resolve_collisions(&mut self, collisions: Vec<Contact>)
        requires
            old(self).wf(),
            contacts_ok(collisions@, old(self).shapes@.len() as int),
        ensures
            final(self).wf(),
            final(self).ids == old(self).ids,
            final(self).shapes@ == resolve_all(old(self).shapes@, collisions@),
    {
        let ghost s0 = self.shapes@;
        let n = collisions.len();
        let mut m: usize = 0;
        while m < n
            invariant
                m <= n,
                n == collisions@.len(),
                self.wf(),
                self.ids == old(self).ids,
                s0 == old(self).shapes@,
                contacts_ok(collisions@, s0.len() as int),
                self.shapes@ == resolve_upto(s0, collisions@, m as int),
                self.shapes@.len() == s0.len(),
            decreases n - m,
        {
            let c = collisions[m];
            assert(c.first < c.second && c.second < s0.len() && c.info.wf()) by {
                assert(collisions@[m as int] == c);
                assert(collisions@[m as int].first < collisions@[m as int].second);
            }
            let da = self.shapes[c.first].dynamics;
            let db = self.shapes[c.second].dynamics;
            match (da, db) {
                (Dynamics::Dynamic, Dynamics::Dynamic) => {
                    self.resolve_dynamic_dynamic(c.first, c.second, &c.info);
                },
                (Dynamics::Dynamic, _) => {
                    self.resolve_dynamic_static(c.first, &c.info, true);
                },
                (_, Dynamics::Dynamic) => {
                    self.resolve_dynamic_static(c.second, &c.info, false);
                },
                _ => {},
            }
            m += 1;
        }
    }

    /// Advances the scene by one frame: gravity on every dynamic body, then
    /// `PHYSICS_SUBSTEPS` passes that each detect overlaps, flag the bodies
    /// involved, resolve the overlaps in order and integrate a quarter of
    /// each body's velocity.
    pub fn update(&mut self)
        requires
            old(self).wf(),
        ensures
            final(self).wf(),
            final(self).ids == old(self).ids,
            final(self).shapes@ == step_model(old(self).shapes@),
    {
        self.handle_gravity();
        let ghost g = self.shapes@;
        let mut t: usize = 0;
        while t < PHYSICS_SUBSTEPS
            invariant
                t <= PHYSICS_SUBSTEPS,
                self.wf(),
                self.ids == old(self).ids,
                g == gravity_all(old(self).shapes@),
                self.shapes@ == substeps(g, t as nat),
            decreases PHYSICS_SUBSTEPS - t,
        {
            let ghost before = self.shapes@;
            let collisions = self.detect_collisions();
            self.reset_colliding_debug();
            self.set_colliding_debug(&collisions);
            self.resolve_collisions(collisions);
            self.integrate_motion_substep();
            assert(self.shapes@ == substep(before));
            t += 1;
        }
    }

    /// Brings every body that left the screen back in on the opposite side.
    pub fn wrap_around(&mut self, screen_width: i32, screen_height: i32)
        requires
            old(self).wf(),
            screen_width >= 0,
            screen_height >= 0,
        ensures
            final(self).wf(),
            final(self).ids == old(self).ids,
            final(self).shapes@ == Seq::new(
                old(self).shapes@.len(),
                |k: int| wrapped(old(self).shapes@[k], screen_width, screen_height),
            ),
    {
        let n = self.shapes.len();
        let mut k: usize = 0;
        while k < n
            invariant
                k <= n,
                n == self.shapes@.len(),
                screen_width >= 0,
                screen_height >= 0,
                self.ids == old(self).ids,
                self.shapes@.len() == old(self).shapes@.len(),
                all_wf(old(self).shapes@),
                forall|q: int| 0 <= q < k ==> self.shapes@[q] == wrapped(old(self).shapes@[q], screen_width, screen_height),
                forall|q: int| k <= q < n ==> self.shapes@[q] == old(self).shapes@[q],
            decreases n - k,
        {
            let mut sh = self.shapes[k];
            assert(old(self).shapes@[k as int].wf());
            sh.transform.x_pos = wrap_coord(sh.transform.x_pos, screen_width, sh.transform.width);
            sh.transform.y_pos = wrap_coord(sh.transform.y_pos, screen_height, sh.transform.height);
            self.shapes.set(k, sh);
            k += 1;
        }
        assert(self.shapes@ =~= Seq::new(
            old(self).shapes@.len(),
            |k: int| wrapped(old(self).shapes@[k], screen_width, screen_height),
        ));
        assert forall|q: int| 0 <= q < n implies #[trigger] self.shapes@[q].wf() by {
            assert(old(self).shapes@[q].wf());
        }
    }

    /// Every overlapping pair of shapes with at least one dynamic member.
    pub fn detect_collisions(&self) -> (r: Vec<Contact>)
        requires
            self.wf(),
        ensures
            r@ == detect_all(self.shapes@),
            contacts_ok(r@, self.shapes@.len() as int),
    {
        let n = self.shapes.len();
        let ghost s = self.shapes@;
        let mut out: Vec<Contact> = Vec::new();
        let mut i: usize = 0;
        while i < n
            invariant
                i <= n,
                n == s.len(),
                s == self.shapes@,
                self.wf(),
                out@ == detect_upto(s, i as int),
                contacts_ok(out@, n as int),
            decreases n - i,
        {
            let mut j: usize = i + 1;
            assert(out@ == detect_upto(s, i as int) + row(s, i as int, j as int));
            while j < n
                invariant
                    i < n,
                    i + 1 <= j <= n,
                    n == s.len(),
                    s == self.shapes@,
                    self.wf(),
                    out@ == detect_upto(s, i as int) + row(s, i as int, j as int),
                    contacts_ok(out@, n as int),
                decreases n - j,
            {
                let found = check_pair(&self.shapes[i], &self.shapes[j]);
                match found {
                    Some(info) => {
                        let ghost prev = out@;
                        out.push(Contact { first: i, second: j, info });
                        proof {
                            assert forall|m: int| 0 <= m < out@.len() implies {
                                &&& #[trigger] out@[m].first < out@[m].second
                                &&& out@[m].second < n
                                &&& out@[m].info.wf()
                            } by {
                                if m < prev.len() {
                                    assert(out@[m] == prev[m]);
                                    assert(prev[m].first < prev[m].second);
                                }
                            }
                        }
                    },
                    None => {},
                }
                assert(out@ =~= detect_upto(s, i as int) + row(s, i as int, j + 1));
                j += 1;
            }
            assert(detect_upto(s, i + 1) == detect_upto(s, i as int) + row(s, i as int, n as int));
            i += 1;
        }
        out
    }
}

/// Raised when an identifier names no body of the collision space.
#[derive(Debug, Clone, Copy, PartialEq, Eq, Structural)]
pub enum SpaceError {
    UnknownId(Id),
}

impl CollisionSpace {
    /// An empty space.
    pub fn new() -> (r: CollisionSpace)
        ensures
            r.wf(),
            r.ids@.len() == 0,
            r.shapes@.len() == 0,
    {
        CollisionSpace { ids: Vec::new(), shapes: Vec::new() }
    }

    /// Number of bodies.
    pub fn len(&self) -> (r: usize)
        ensures
            r == self.shapes@.len(),
    {
        self.shapes.len()
    }

    /// Where the body `id` stands in the registry, if it is there.
    pub fn index_of(&self, id: Id) -> (r: Option<usize>)
        requires
            self.wf(),
        ensures
            match r {
                Some(k) => k < self.ids@.len() && self.ids@[k as int] == id,
                None => !self.ids@.contains(id),
            },
    {
        let mut k: usize = 0;
        while k < self.ids.len()
            invariant
                k <= self.ids@.len(),
                forall|q: int| 0 <= q < k ==> self.ids@[q] != id,
            decreases self.ids@.len() - k,
        {
            if self.ids[k] == id {
                return Some(k);
            }
            k += 1;
        }
        None
    }

    /// Adds a body under an identifier that the space does not hold yet.
    pub fn register(
        &mut self,
        id: Id,
        transform: Transform,
        collision_type: CollisionType,
        restitution: i64,
        dynamics: Dynamics,
    )
        requires
            old(self).wf(),
            !old(self).ids@.contains(id),
            transform.wf(),
            0 <= restitution <= SCALE,
        ensures
            final(self).wf(),
            final(self).ids@ == old(self).ids@.push(id),
            final(self).shapes@ == old(self).shapes@.push(
                Shape { transform, collision_type, dynamics, restitution, colliding: false },
            ),
    {
        let new_shape = Shape { transform, collision_type, dynamics, restitution, colliding: false };
        self.ids.push(id);
        self.shapes.push(new_shape);
        proof {
            let ids = self.ids@;
            assert forall|p: int, q: int| 0 <= p < q < ids.len() implies #[trigger] ids[p] != #[trigger] ids[q] by {
                if q == ids.len() - 1 {
                    assert(old(self).ids@[p] == ids[p]);
                }
                else {
                    assert(old(self).ids@[p] != old(self).ids@[q]);
                }
            }
            assert forall|q: int| 0 <= q < self.shapes@.len() implies #[trigger] self.shapes@[q].wf() by {
                if q < old(self).shapes@.len() {
                    assert(old(self).shapes@[q].wf());
                }
            }
        }
    }

    /// The body `id`.
    pub fn get(&self, id: Id) -> (r: Result<&Shape, SpaceError>)
        requires
            self.wf(),
        ensures
            match r {
                Ok(sh) => exists|k: int| 0 <= k < self.ids@.len() && self.ids@[k] == id && self.shapes@[k] == *sh,
                Err(e) => e == SpaceError::UnknownId(id) && !self.ids@.contains(id),
            },
    {
        match self.index_of(id) {
            Some(k) => Ok(&self.shapes[k]),
            None => Err(SpaceError::UnknownId(id)),
        }
    }

    /// Turns the body `id` to a new orientation, as a controller steers a
    /// kinematic platform.
    pub fn set_rotation(&mut self, id: Id, rotation: crate::things::Rotation) -> (r: Result<(), SpaceError>)
        requires
            old(self).wf(),
            rotation.wf(),
        ensures
            final(self).wf(),
            final(self).ids == old(self).ids,
            match r {
                Ok(()) => exists|k: int| 0 <= k < old(self).ids@.len() && old(self).ids@[k] == id
                    && final(self).shapes@ == old(self).shapes@.update(k, Shape {
                        transform: Transform { rotation, ..old(self).shapes@[k].transform },
                        ..old(self).shapes@[k]
                    }),
                Err(e) => e == SpaceError::UnknownId(id) && !old(self).ids@.contains(id)
                    && final(self).shapes@ == old(self).shapes@,
            },
    {
        match self.index_of(id) {
            Some(k) => {
                let mut sh = self.shapes[k];
                sh.set_rotation(rotation);
                self.shapes.set(k, sh);
                proof {
                    assert forall|q: int| 0 <= q < self.shapes@.len() implies #[trigger] self.shapes@[q].wf() by {
                        assert(old(self).shapes@[q].wf());
                    }
                }
                Ok(())
            },
            None => Err(SpaceError::UnknownId(id)),
        }
    }

    /// Moves the body `id` to a new position, keeping its velocity.
    pub fn set_position(&mut self, id: Id, x_pos: i64, y_pos: i64) -> (r: Result<(), SpaceError>)
        requires
            old(self).wf(),
            -LIMIT <= x_pos <= LIMIT,
            -LIMIT <= y_pos <= LIMIT,
        ensures
            final(self).wf(),
            final(self).ids == old(self).ids,
            match r {
                Ok(()) => exists|k: int| 0 <= k < old(self).ids@.len() && old(self).ids@[k] == id
                    && final(self).shapes@ == old(self).shapes@.update(k, with_pos(old(self).shapes@[k], x_pos, y_pos)),
                Err(e) => e == SpaceError::UnknownId(id) && !old(self).ids@.contains(id)
                    && final(self).shapes@ == old(self).shapes@,
            },
    {
        match self.index_of(id) {
            Some(k) => {
                let mut sh = self.shapes[k];
                sh.transform.x_pos = x_pos;
                sh.transform.y_pos = y_pos;
                self.shapes.set(k, sh);
                proof {
                    assert forall|q: int| 0 <= q < self.shapes@.len() implies #[trigger] self.shapes@[q].wf() by {
                        assert(old(self).shapes@[q].wf());
                    }
                }
                Ok(())
            },
            None => Err(SpaceError::UnknownId(id)),
        }
    }
}

} // verus!

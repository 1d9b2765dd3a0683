//! Laws of the physics step, proved over the model in `collision`.
use vstd::prelude::*;
use crate::collision::{
    resolve_surface, resolve_dd, dd_separated, closing_speed, pair_impulse, combined_restitution, with_gravity,
    cleared, detect_all, detect_upto, flagged, gravity_all, integrate_all, involves, pair_collision,
    resolve_all, resolve_contact, resolve_upto, row, step_model, substep, substeps, touched, all_wf,
    Contact, GRAVITY,
};
use crate::fixed::{clamp_limit, lemma_tdiv_exact, tdiv, SCALE};
use crate::geometry::CollisionInfo;
use crate::things::Shape;

verus! {

/// No shape of `s` is dynamic.
pub open spec fn none_dynamic(s: Seq<Shape>) -> bool {
    forall|k: int| 0 <= k < s.len() ==> !(#[trigger] s[k]).is_dynamic()
}

proof fn lemma_row_empty(s: Seq<Shape>, i: int, j: int)
    requires
        none_dynamic(s),
        0 <= i < s.len(),
        j <= s.len(),
    ensures
        row(s, i, j) == Seq::<Contact>::empty(),
    decreases j - i,
{
    if j > i + 1 {
        lemma_row_empty(s, i, j - 1);
        assert(!s[i].is_dynamic() && !s[j - 1].is_dynamic());
        assert(pair_collision(s[i], s[j - 1]) is None);
    }
}

proof fn lemma_detect_upto_empty(s: Seq<Shape>, i: int)
    requires
        none_dynamic(s),
        i <= s.len(),
    ensures
        detect_upto(s, i) == Seq::<Contact>::empty(),
    decreases i,
{
    if i > 0 {
        lemma_detect_upto_empty(s, i - 1);
        lemma_row_empty(s, i - 1, s.len() as int);
        assert(detect_upto(s, i) =~= Seq::<Contact>::empty());
    }
}

/// A scene of static and kinematic shapes only has no pair to test: a
/// sub-step detects no overlap, and so resolves none.
pub proof fn lemma_no_dynamic_no_contacts(s: Seq<Shape>)
    requires
        none_dynamic(s),
    ensures
        detect_all(s) == Seq::<Contact>::empty(),
        forall|t: Seq<Shape>| resolve_all(t, detect_all(s)) == t,
{
    lemma_detect_upto_empty(s, s.len() as int);
}

/// Resolution leaves alone a shape that no contact so far involves, and a
/// shape that is not dynamic whatever the contacts.
pub proof fn lemma_resolve_keeps(s: Seq<Shape>, cs: Seq<Contact>, m: int, k: int)
    requires
        0 <= k < s.len(),
        0 <= m <= cs.len(),
        !s[k].is_dynamic() || forall|q: int| 0 <= q < m ==> !(#[trigger] involves(cs[q], k)),
    ensures
        resolve_upto(s, cs, m).len() == s.len(),
        resolve_upto(s, cs, m)[k] == s[k],
    decreases m,
{
    if m > 0 {
        if s[k].is_dynamic() {
            assert forall|q: int| 0 <= q < m - 1 implies !(#[trigger] involves(cs[q], k)) by {
                assert(!involves(cs[q], k));
            }
            assert(!involves(cs[m - 1], k));
        }
        lemma_resolve_keeps(s, cs, m - 1, k);
    }
}

/// Resolution never moves, turns or pushes a static or kinematic shape,
/// whatever the overlaps and impulses around it.
pub proof fn lemma_resolution_spares_non_dynamic(s: Seq<Shape>, cs: Seq<Contact>, k: int)
    requires
        0 <= k < s.len(),
        !s[k].is_dynamic(),
    ensures
        resolve_all(s, cs).len() == s.len(),
        resolve_all(s, cs)[k] == s[k],
{
    lemma_resolve_keeps(s, cs, cs.len() as int, k);
}

/// A head-on meeting of two perfectly elastic dynamic bodies, with equal
/// and opposite velocities along the normal, reverses both velocities.
pub proof fn lemma_elastic_head_on(s: Seq<Shape>, c: Contact, v: i64)
    requires
        all_wf(s),
        c.first < s.len(),
        c.second < s.len(),
        c.first != c.second,
        c.info.normal == (SCALE, 0i64),
        s[c.first as int].is_dynamic(),
        s[c.second as int].is_dynamic(),
        s[c.first as int].restitution == SCALE,
        s[c.second as int].restitution == SCALE,
        s[c.first as int].transform.vel_x == v,
        s[c.first as int].transform.vel_y == 0,
        s[c.second as int].transform.vel_x == -v,
        s[c.second as int].transform.vel_y == 0,
        v >= 0,
    ensures
        resolve_contact(s, c)[c.first as int].transform.vel_x == -v,
        resolve_contact(s, c)[c.first as int].transform.vel_y == 0,
        resolve_contact(s, c)[c.second as int].transform.vel_x == v,
        resolve_contact(s, c)[c.second as int].transform.vel_y == 0,
{
    lemma_elastic_pair_reverses(s, c.first as int, c.second as int, c.info, v);
}


/// Resolving a dynamic body against a static or kinematic one changes the
/// dynamic body's slot only: its partner, and every other shape, stay as
/// they were, whatever the penetration and the impulse.
pub proof fn lemma_surface_spares_others(s: Seq<Shape>, d: int, info: CollisionInfo, first: bool, q: int)
    requires
        0 <= d < s.len(),
        0 <= q < s.len(),
        q != d,
    ensures
        resolve_surface(s, d, info, first).len() == s.len(),
        resolve_surface(s, d, info, first)[q] == s[q],
{
}

/// Gravity adds one increment to the vertical velocity of each dynamic
/// shape, and sets its vertical acceleration to it; every other shape and
/// every other field is left alone.
pub proof fn lemma_gravity_increment(s: Seq<Shape>, k: int)
    requires
        0 <= k < s.len(),
        s[k].wf(),
    ensures
        gravity_all(s).len() == s.len(),
        s[k].is_dynamic() ==> gravity_all(s)[k].transform.vel_y == s[k].transform.vel_y + GRAVITY
            || s[k].transform.vel_y + GRAVITY > crate::fixed::LIMIT,
        s[k].is_dynamic() ==> gravity_all(s)[k].transform.accel_y == GRAVITY,
        s[k].is_dynamic() ==> (Shape {
            transform: crate::things::Transform {
                vel_y: s[k].transform.vel_y,
                accel_y: s[k].transform.accel_y,
                ..gravity_all(s)[k].transform
            },
            ..gravity_all(s)[k]
        }) == s[k],
        !s[k].is_dynamic() ==> gravity_all(s)[k] == s[k],
{
    assert(gravity_all(s)[k] == with_gravity(s[k]));
}

/// Two perfectly elastic dynamic bodies meeting head-on with equal and
/// opposite velocities along the normal swap directions: each leaves with
/// the other's velocity, so both speeds, and the kinetic energy, are kept.
pub proof fn lemma_elastic_pair_reverses(s: Seq<Shape>, i: int, k: int, info: CollisionInfo, v: i64)
    requires
        all_wf(s),
        0 <= i < s.len(),
        0 <= k < s.len(),
        i != k,
        info.normal == (SCALE, 0i64),
        s[i].restitution == SCALE,
        s[k].restitution == SCALE,
        s[i].transform.vel_x == v,
        s[i].transform.vel_y == 0,
        s[k].transform.vel_x == -v,
        s[k].transform.vel_y == 0,
        v >= 0,
    ensures
        resolve_dd(s, i, k, info)[i].transform.vel_x == -v,
        resolve_dd(s, i, k, info)[i].transform.vel_y == 0,
        resolve_dd(s, i, k, info)[k].transform.vel_x == v,
        resolve_dd(s, i, k, info)[k].transform.vel_y == 0,
{
    assert(s[i].wf() && s[k].wf());
    lemma_tdiv_exact(-2 * v, 1000);
    lemma_tdiv_exact(2 * v, 1000);
    lemma_tdiv_exact(2 * v, 2000);
    lemma_tdiv_exact(0, 1000);
    assert((-v - v) * 1000 + (0 - 0) * 0 == (-2 * v) * 1000);
    assert(-(1000 + 1000) * (-2 * v) == (2 * v) * 2000) by (nonlinear_arith);
    assert(1000 * (2 * v) == (2 * v) * 1000);
    assert(0 * (2 * v) == 0 * 1000);
    let s1 = dd_separated(s, i, k, info);
    assert(s1[i].transform.vel_x == v && s1[i].transform.vel_y == 0 && s1[i].restitution == SCALE);
    assert(s1[k].transform.vel_x == -v && s1[k].transform.vel_y == 0 && s1[k].restitution == SCALE);
    assert(closing_speed(s1[i], s1[k], info.normal) == -2 * v);
    vstd::arithmetic::div_mod::lemma_div_by_multiple(1000, 1000);
    assert(combined_restitution(s1[i], s1[k]) == 1000);
    assert(pair_impulse(s1[i], s1[k], info.normal) == 2 * v);
}

/// Flagging and clearing touch nothing but the `colliding` flag.
proof fn lemma_flags_keep_transform(s: Seq<Shape>, cs: Seq<Contact>, k: int)
    requires
        0 <= k < s.len(),
    ensures
        flagged(cleared(s), cs).len() == s.len(),
        flagged(cleared(s), cs)[k] == (Shape { colliding: touched(cs, k), ..s[k] }),
{
}

/// Over a whole frame, a dynamic shape that no sub-step finds overlapping
/// gains exactly one gravity increment of vertical velocity and keeps its
/// horizontal velocity; from rest, it ends the frame at `GRAVITY`.
pub proof fn lemma_free_fall(s: Seq<Shape>, k: int)
    requires
        all_wf(s),
        0 <= k < s.len(),
        s[k].is_dynamic(),
        forall|t: nat| t < 4 ==> !touched(detect_all(#[trigger] substeps(gravity_all(s), t)), k),
    ensures
        step_model(s).len() == s.len(),
        step_model(s)[k].transform.vel_x == s[k].transform.vel_x,
        step_model(s)[k].transform.vel_y == clamp_limit(s[k].transform.vel_y + GRAVITY),
        s[k].transform.vel_y == 0 ==> step_model(s)[k].transform.vel_y == GRAVITY,
{
    let g = gravity_all(s);
    lemma_substeps_keep_velocity(g, k, 4);
}

proof fn lemma_substeps_keep_velocity(g: Seq<Shape>, k: int, t: nat)
    requires
        0 <= k < g.len(),
        t <= 4,
        !g[k].is_dynamic() || forall|u: nat| u < 4 ==> !touched(detect_all(#[trigger] substeps(g, u)), k),
    ensures
        substeps(g, t).len() == g.len(),
        substeps(g, t)[k].transform.vel_x == g[k].transform.vel_x,
        substeps(g, t)[k].transform.vel_y == g[k].transform.vel_y,
        substeps(g, t)[k].transform.rotation == g[k].transform.rotation,
        substeps(g, t)[k].dynamics == g[k].dynamics,
    decreases t,
{
    if t > 0 {
        lemma_substeps_keep_velocity(g, k, (t - 1) as nat);
        let p = substeps(g, (t - 1) as nat);
        let cs = detect_all(p);
        lemma_flags_keep_transform(p, cs, k);
        let f = flagged(cleared(p), cs);
        if g[k].is_dynamic() {
            assert(!touched(cs, k));
            assert forall|q: int| 0 <= q < cs.len() implies !(#[trigger] involves(cs[q], k)) by {
                if involves(cs[q], k) {
                    assert(touched(cs, k));
                }
            }
        }
        lemma_resolve_keeps(f, cs, cs.len() as int, k);
    }
}

/// Over a whole frame, a static or kinematic shape keeps its velocity and
/// orientation: no gravity and no collision reaches it, and it moves only
/// by its own velocity.
pub proof fn lemma_frame_spares_non_dynamic(s: Seq<Shape>, k: int)
    requires
        0 <= k < s.len(),
        !s[k].is_dynamic(),
    ensures
        step_model(s).len() == s.len(),
        step_model(s)[k].transform.vel_x == s[k].transform.vel_x,
        step_model(s)[k].transform.vel_y == s[k].transform.vel_y,
        step_model(s)[k].transform.rotation == s[k].transform.rotation,
        step_model(s)[k].dynamics == s[k].dynamics,
{
    lemma_substeps_keep_velocity(gravity_all(s), k, 4);
}

/// The shapes of `s` are at rest, and none of them is dynamic.
pub open spec fn idle(s: Seq<Shape>) -> bool {
    &&& none_dynamic(s)
    &&& forall|k: int| 0 <= k < s.len() ==> (#[trigger] s[k]).transform.vel_x == 0 && s[k].transform.vel_y == 0
}

proof fn lemma_idle_substep(s: Seq<Shape>)
    requires
        all_wf(s),
        idle(s),
    ensures
        substep(s) == cleared(s),
{
    lemma_no_dynamic_no_contacts(s);
    let cs = detect_all(s);
    let f = flagged(cleared(s), cs);
    assert(resolve_all(f, cs) == f);
    assert forall|k: int| 0 <= k < s.len() implies #[trigger] integrate_all(f)[k] == cleared(s)[k] by {
        assert(s[k].wf());
        assert(!touched(cs, k));
        assert(tdiv(0, 4) == 0);
    }
    assert(substep(s) =~= cleared(s));
}

proof fn lemma_idle_substeps(g: Seq<Shape>, t: nat)
    requires
        all_wf(g),
        idle(g),
        t >= 1,
    ensures
        substeps(g, t) == cleared(g),
    decreases t,
{
    assert(substeps(g, t) == substep(substeps(g, (t - 1) as nat)));
    if t == 1 {
        assert(substeps(g, 0) == g);
        lemma_idle_substep(g);
    } else {
        lemma_idle_substeps(g, (t - 1) as nat);
        let c = cleared(g);
        assert forall|k: int| 0 <= k < c.len() implies #[trigger] c[k].wf() by {
            assert(g[k].wf());
        }
        lemma_idle_substep(c);
        assert(cleared(c) =~= c);
    }
}

/// A frame over a scene at rest with no dynamic shape changes no transform:
/// positions, velocities and orientations stay, and only the `colliding`
/// flags are cleared.
pub proof fn lemma_idle_frame(s: Seq<Shape>)
    requires
        all_wf(s),
        idle(s),
    ensures
        step_model(s) == cleared(s),
        forall|k: int| 0 <= k < s.len() ==> (#[trigger] step_model(s)[k]).transform == s[k].transform,
{
    assert(gravity_all(s) =~= s);
    lemma_idle_substeps(s, 4);
}

} // verus!

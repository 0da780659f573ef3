//! The simulation engine: semi-implicit Euler integration, per-pair
//! positional correction and the sequential-impulse velocity solver with a
//! Coulomb friction pass.
//!
//! All-pairs resolution runs strictly sequentially within a tick: a body can
//! take part in several pairs, and each pair mutates both members in place,
//! so pairs are processed one at a time and never concurrently. Processing
//! order matters when three or more bodies overlap at once; that
//! nondeterminism of outcome across orderings is inherent to the method and
//! left as is.

use vstd::prelude::*;
use crate::math::{
    Vec2, SCALE, WORLD, TAU_FX, div_tz, clamp_int, in_bound, dot_int, cross_int, clamp_i, div_q,
    mul_div, min_i, lemma_div_tz_bounds, lemma_mul_abs_le, lemma_mul_nonneg, lemma_square_nonneg,
};
use crate::body::{Shape, ROT_MAX};
use crate::collisions::{collision_int, rotated_verts, normalize_vec, normalize_axis};

verus! {

/// Divisor turning an impulse times an inverse mass into a velocity delta.
pub const VEL_DIV: i64 = 1000000000;

/// Cap on each angular term of the effective-mass denominator.
pub const DENOM_CAP: i64 = 1000000000000000;

/// Cap on the magnitude of a single impulse.
pub const J_CAP: i64 = 0x80_0000_0000_0000;

/// A scalar advanced by a fixed-point ratio and clamped: the base plus
/// `num / den`, kept inside `[-lim, lim]`.
pub open spec fn adv(base: int, num: int, den: int, lim: int) -> int {
    clamp_int(base + div_tz(num, den), -lim, lim)
}

/// Advance `base` by `a * b / den`, clamped into `[-lim, lim]`; the product
/// is carried in 128 bits.
fn adv_fx(base: i64, a: i64, b: i64, den: i64, lim: i64) -> (r: i64)
    requires
        den >= 1,
        0 <= lim,
    ensures
        r == adv(base as int, a as int * b as int, den as int, lim as int),
        -lim <= r <= lim,
{
    proof {
        lemma_mul_abs_le(a as int, b as int, 0x8000_0000_0000_0000, 0x8000_0000_0000_0000);
    }
    let p: i128 = (a as i128) * (b as i128);
    proof {
        lemma_div_tz_bounds(p as int, den as int);
    }
    let q: i128 = if p >= 0 {
        p / (den as i128)
    } else {
        -((-p) / (den as i128))
    };
    clamp_i((base as i128) + q, -lim, lim)
}

/// The relation one integration tick establishes between a body's old and
/// new state: a dynamic body grows its pending rotation by the angular
/// velocity, its acceleration accumulator by force over mass, its velocity
/// by the acceleration and its position by the velocity, then resets the
/// force; a static body keeps all its kinematic state. Either way the
/// pending rotation is applied to the vertex list and consumed, and no
/// other field moves.
pub open spec fn integrated(pre: Shape, post: Shape, dt: int) -> bool {
    &&& (pre.is_static ==> post.pos == pre.pos && post.vel == pre.vel && post.ac == pre.ac
        && post.force == pre.force && post.vertices@ == rotated_verts(
        pre.vertices@,
        pre.rot as int,
    ))
    &&& (!pre.is_static ==> ({
        let rot1 = adv(pre.rot as int, pre.rot_vel as int * dt, SCALE as int, TAU_FX as int);
        let acx = adv(pre.ac.x as int, pre.force.x as int * dt, pre.mass as int, WORLD as int);
        let acy = adv(pre.ac.y as int, pre.force.y as int * dt, pre.mass as int, WORLD as int);
        let velx = adv(pre.vel.x as int, acx * dt, SCALE as int, WORLD as int);
        let vely = adv(pre.vel.y as int, acy * dt, SCALE as int, WORLD as int);
        let posx = adv(pre.pos.x as int, velx * dt, SCALE as int, WORLD as int);
        let posy = adv(pre.pos.y as int, vely * dt, SCALE as int, WORLD as int);
        &&& post.ac == (Vec2 { x: acx as i64, y: acy as i64 })
        &&& post.vel == (Vec2 { x: velx as i64, y: vely as i64 })
        &&& post.pos == (Vec2 { x: posx as i64, y: posy as i64 })
        &&& post.force == (Vec2 { x: 0i64, y: 0i64 })
        &&& post.vertices@ == rotated_verts(pre.vertices@, rot1)
    }))
    &&& post.rot == 0
    &&& post.kind == pre.kind
    &&& post.is_static == pre.is_static
    &&& post.movil == pre.movil
    &&& post.mass == pre.mass
    &&& post.restitution == pre.restitution
    &&& post.area == pre.area
    &&& post.inv_mass == pre.inv_mass
    &&& post.inertia == pre.inertia
    &&& post.inv_inertia == pre.inv_inertia
    &&& post.rot_vel == pre.rot_vel
    &&& post.static_friction == pre.static_friction
    &&& post.dinaminc_friction == pre.dinaminc_friction
    &&& post.aabb == pre.aabb
    &&& post.w == pre.w
    &&& post.h == pre.h
}

impl Shape {
    /// One semi-implicit Euler step for this body, exactly the `integrated`
    /// relation between the old and the new state.
    pub fn integrate(&mut self, dt: i64)
        requires
            old(self).wf(),
            1 <= dt <= SCALE,
        ensures
            final(self).wf(),
            integrated(*old(self), *final(self), dt as int),
    {
        if !self.is_static {
            let rot1 = adv_fx(self.rot, self.rot_vel, dt, SCALE, TAU_FX);
            self.rot = rot1;
            let acx = adv_fx(self.ac.x, self.force.x, dt, self.mass, WORLD);
            let acy = adv_fx(self.ac.y, self.force.y, dt, self.mass, WORLD);
            self.ac = Vec2 { x: acx, y: acy };
            let velx = adv_fx(self.vel.x, acx, dt, SCALE, WORLD);
            let vely = adv_fx(self.vel.y, acy, dt, SCALE, WORLD);
            self.vel = Vec2 { x: velx, y: vely };
            let posx = adv_fx(self.pos.x, velx, dt, SCALE, WORLD);
            let posy = adv_fx(self.pos.y, vely, dt, SCALE, WORLD);
            self.pos = Vec2 { x: posx, y: posy };
            self.force = Vec2 { x: 0, y: 0 };
        }
        let rot = self.rot;
        self.rotate(rot);
        self.rot = 0;
    }
}

/// The left perpendicular of a vector, over the integers.
pub open spec fn perp_int(v: Vec2) -> Vec2 {
    Vec2 { x: (-v.y) as i64, y: v.x as i64 }
}

/// The lever arm from a body position to a contact point.
pub open spec fn lever(point: Vec2, pos: Vec2) -> Vec2 {
    Vec2 { x: (point.x - pos.x) as i64, y: (point.y - pos.y) as i64 }
}

/// The relative velocity of the two bodies at a contact point, including
/// each body's rotational contribution along its lever's perpendicular.
pub open spec fn rel_vel_at(a: Shape, b: Shape, point: Vec2) -> Vec2 {
    let rap = perp_int(lever(point, a.pos));
    let rbp = perp_int(lever(point, b.pos));
    Vec2 {
        x: ((b.vel.x + div_tz(rbp.x * b.rot_vel, SCALE as int)) - (a.vel.x + div_tz(
            rap.x * a.rot_vel,
            SCALE as int,
        ))) as i64,
        y: ((b.vel.y + div_tz(rbp.y * b.rot_vel, SCALE as int)) - (a.vel.y + div_tz(
            rap.y * a.rot_vel,
            SCALE as int,
        ))) as i64,
    }
}

/// One angular term of the effective-mass denominator: the squared
/// projection of a lever perpendicular onto the axis, scaled through the
/// inverse inertia and capped.
pub open spec fn denom_term(rdot: int, inv_inertia: int) -> int {
    clamp_int(
        div_tz(div_tz(rdot * rdot, 1000000) * inv_inertia, 1000000),
        0,
        DENOM_CAP as int,
    )
}

/// The effective-mass denominator of a contact along an axis.
pub open spec fn denom_int(a: Shape, b: Shape, radot: int, rbdot: int) -> int {
    a.inv_mass + b.inv_mass + denom_term(radot, a.inv_inertia as int) + denom_term(rbdot, b.inv_inertia as int)
}

/// The impulse magnitude solving the contact along the normal: minus one
/// plus restitution times the normal velocity over the denominator, capped,
/// split over the contact count. Zero when the denominator vanishes.
pub open spec fn impulse_mag(e: int, vn: int, denom: int, cc: int) -> int {
    if denom <= 0 {
        0
    } else {
        let num = -((SCALE + e) * vn * VEL_DIV);
        let j0 = clamp_int(div_tz(num, SCALE * denom), -J_CAP as int, J_CAP as int);
        div_tz(j0, cc)
    }
}

/// The velocity of body `b` relative to body `a` at `point`, each body's
/// spin contributing along its lever perpendicular.
pub fn rel_velocity(a: &Shape, b: &Shape, point: Vec2) -> (r: Vec2)
    requires
        a.wf(),
        b.wf(),
        in_bound(point, 0x20000000),
    ensures
        r == rel_vel_at(*a, *b, point),
        in_bound(r, 0x7000000000),
{
    let rap = lever_of(point, a.pos).perp();
    let rbp = lever_of(point, b.pos).perp();
    proof {
        lemma_mul_abs_le(rap.x as int, a.rot_vel as int, 0x30000000, ROT_MAX as int);
        lemma_mul_abs_le(rap.y as int, a.rot_vel as int, 0x30000000, ROT_MAX as int);
        lemma_mul_abs_le(rbp.x as int, b.rot_vel as int, 0x30000000, ROT_MAX as int);
        lemma_mul_abs_le(rbp.y as int, b.rot_vel as int, 0x30000000, ROT_MAX as int);
        lemma_div_tz_bounds(rap.x * a.rot_vel, SCALE as int);
        lemma_div_tz_bounds(rap.y * a.rot_vel, SCALE as int);
        lemma_div_tz_bounds(rbp.x * b.rot_vel, SCALE as int);
        lemma_div_tz_bounds(rbp.y * b.rot_vel, SCALE as int);
    }
    let ax = a.vel.x + mul_div(rap.x, a.rot_vel, SCALE);
    let ay = a.vel.y + mul_div(rap.y, a.rot_vel, SCALE);
    let bx = b.vel.x + mul_div(rbp.x, b.rot_vel, SCALE);
    let by = b.vel.y + mul_div(rbp.y, b.rot_vel, SCALE);
    Vec2 { x: bx - ax, y: by - ay }
}

/// The lever arm from a body position to a contact point.
pub fn lever_of(point: Vec2, pos: Vec2) -> (r: Vec2)
    requires
        in_bound(point, 0x20000000),
        in_bound(pos, WORLD as int),
    ensures
        r == lever(point, pos),
        in_bound(r, 0x30000000),
{
    Vec2 { x: point.x - pos.x, y: point.y - pos.y }
}

/// One angular denominator term (executable form).
fn denom_term_fx(rdot: i64, inv_inertia: i64) -> (r: i64)
    requires
        0 <= inv_inertia <= 1000000000000000000,
        -0x2_0000_0000 <= rdot <= 0x2_0000_0000,
    ensures
        r == denom_term(rdot as int, inv_inertia as int),
        0 <= r <= DENOM_CAP,
{
    proof {
        lemma_mul_abs_le(rdot as int, rdot as int, 0x2_0000_0000, 0x2_0000_0000);
        lemma_square_nonneg(rdot as int);
    }
    let p: i128 = (rdot as i128) * (rdot as i128);
    proof {
        lemma_div_tz_bounds(p as int, 1000000);
    }
    let q: i128 = p / 1000000;
    proof {
        lemma_mul_nonneg(q as int, inv_inertia as int);
        lemma_mul_abs_le(q as int, inv_inertia as int, 0x4_0000_0000_0000, 1000000000000000000);
    }
    let t: i128 = q * (inv_inertia as i128);
    proof {
        lemma_div_tz_bounds(t as int, 1000000);
    }
    let u: i128 = t / 1000000;
    clamp_i(u, 0, DENOM_CAP)
}

/// The impulse magnitude (executable form).
fn impulse_fx(e: i64, vn: i64, denom: i64, cc: i64) -> (r: i64)
    requires
        0 <= e <= SCALE,
        -0x1000_0000_0000 <= vn <= 0x1000_0000_0000,
        0 <= denom <= 0x4000_0000_0000_0000,
        1 <= cc <= 2,
    ensures
        r == impulse_mag(e as int, vn as int, denom as int, cc as int),
        -J_CAP <= r <= J_CAP,
{
    if denom <= 0 {
        return 0;
    }
    proof {
        lemma_mul_abs_le((SCALE + e) as int, vn as int, 2000, 0x1000_0000_0000);
        lemma_mul_abs_le(
            (SCALE + e) as int * (vn as int),
            VEL_DIV as int,
            0x7D0_0000_0000_0000,
            VEL_DIV as int,
        );
        lemma_mul_abs_le(SCALE as int, denom as int, SCALE as int, 0x4000_0000_0000_0000);
        lemma_mul_nonneg(SCALE as int, denom as int);
    }
    let num: i128 = -(((SCALE + e) as i128) * (vn as i128) * (VEL_DIV as i128));
    let den: i128 = (SCALE as i128) * (denom as i128);
    proof {
        assert(den >= 1) by (nonlinear_arith)
            requires
                den == (SCALE as int) * (denom as int),
                denom >= 1,
        ;
        lemma_div_tz_bounds(num as int, den as int);
    }
    let j0: i128 = if num >= 0 {
        num / den
    } else {
        -((-num) / den)
    };
    let j1: i64 = clamp_i(j0, -J_CAP, J_CAP);
    proof {
        lemma_div_tz_bounds(j1 as int, cc as int);
    }
    div_q(j1, cc)
}

/// The staged lever-cross-impulse factor that feeds an angular update:
/// the cross product shrunk by one million and kept within the range the
/// following multiplication can carry.
pub open spec fn cross_stage(cross: int) -> int {
    clamp_int(div_tz(cross, 1000000), -0x4000_0000_0000_0000, 0x4000_0000_0000_0000)
}

/// The staged cross factor (executable form).
fn cross_staged(r: Vec2, impulse: Vec2) -> (q: i64)
    requires
        in_bound(r, 0x30000000),
        in_bound(impulse, 0x100_0000_0000_0000),
    ensures
        q == cross_stage(cross_int(r, impulse)),
        -0x4000_0000_0000_0000 <= q <= 0x4000_0000_0000_0000,
{
    proof {
        lemma_mul_abs_le(r.x as int, impulse.y as int, 0x30000000, 0x100_0000_0000_0000);
        lemma_mul_abs_le(r.y as int, impulse.x as int, 0x30000000, 0x100_0000_0000_0000);
    }
    let c: i128 = (r.x as i128) * (impulse.y as i128) - (r.y as i128) * (impulse.x as i128);
    proof {
        lemma_div_tz_bounds(c as int, 1000000);
    }
    let d: i128 = if c >= 0 {
        c / 1000000
    } else {
        -((-c) / 1000000)
    };
    clamp_i(d, -0x4000_0000_0000_0000, 0x4000_0000_0000_0000)
}

/// Apply an equal-and-opposite impulse at levers `ra`, `rb`: the first body
/// loses the impulse scaled by its inverse mass, the second gains it, and
/// each body's angular velocity changes by its lever cross the impulse
/// scaled by its inverse inertia. Velocities are clamped into the world
/// bound and spins into the spin bound; a static body, whose inverse terms
/// are zero, is untouched.
pub fn apply_impulse(a: &mut Shape, b: &mut Shape, ra: Vec2, rb: Vec2, impulse: Vec2)
    requires
        old(a).wf(),
        old(b).wf(),
        in_bound(ra, 0x30000000),
        in_bound(rb, 0x30000000),
        in_bound(impulse, 0x100_0000_0000_0000),
    ensures
        final(a).wf(),
        final(b).wf(),
        final(a).vel.x == adv(
            old(a).vel.x as int,
            -impulse.x * old(a).inv_mass,
            VEL_DIV as int,
            WORLD as int,
        ),
        final(a).vel.y == adv(
            old(a).vel.y as int,
            -impulse.y * old(a).inv_mass,
            VEL_DIV as int,
            WORLD as int,
        ),
        final(b).vel.x == adv(
            old(b).vel.x as int,
            impulse.x * old(b).inv_mass,
            VEL_DIV as int,
            WORLD as int,
        ),
        final(b).vel.y == adv(
            old(b).vel.y as int,
            impulse.y * old(b).inv_mass,
            VEL_DIV as int,
            WORLD as int,
        ),
        final(a).rot_vel == adv(
            old(a).rot_vel as int,
            -cross_stage(cross_int(ra, impulse)) * old(a).inv_inertia,
            1000000000000,
            ROT_MAX as int,
        ),
        final(b).rot_vel == adv(
            old(b).rot_vel as int,
            cross_stage(cross_int(rb, impulse)) * old(b).inv_inertia,
            1000000000000,
            ROT_MAX as int,
        ),
        *final(a) == (Shape {
            vel: final(a).vel,
            rot_vel: final(a).rot_vel,
            ..*old(a)
        }),
        *final(b) == (Shape {
            vel: final(b).vel,
            rot_vel: final(b).rot_vel,
            ..*old(b)
        }),
{
    let cqa = cross_staged(ra, impulse);
    let cqb = cross_staged(rb, impulse);
    let ax = adv_fx(a.vel.x, -impulse.x, a.inv_mass, VEL_DIV, WORLD);
    let ay = adv_fx(a.vel.y, -impulse.y, a.inv_mass, VEL_DIV, WORLD);
    let bx = adv_fx(b.vel.x, impulse.x, b.inv_mass, VEL_DIV, WORLD);
    let by = adv_fx(b.vel.y, impulse.y, b.inv_mass, VEL_DIV, WORLD);
    let wa = adv_fx(a.rot_vel, -cqa, a.inv_inertia, 1000000000000, ROT_MAX);
    let wb = adv_fx(b.rot_vel, cqb, b.inv_inertia, 1000000000000, ROT_MAX);
    a.vel = Vec2 { x: ax, y: ay };
    a.rot_vel = wa;
    b.vel = Vec2 { x: bx, y: by };
    b.rot_vel = wb;
}

/// The sliding direction at a contact: the relative velocity with its
/// normal component removed, coarsely clamped so it can be normalized.
pub open spec fn tangent_at(a: Shape, b: Shape, point: Vec2, normal: Vec2) -> Vec2 {
    let rel = rel_vel_at(a, b, point);
    let vn2 = div_tz(dot_int(rel, normal), SCALE as int);
    Vec2 {
        x: clamp_int(
            rel.x - div_tz(normal.x * vn2, SCALE as int),
            -0x40000000,
            0x40000000,
        ) as i64,
        y: clamp_int(
            rel.y - div_tz(normal.y * vn2, SCALE as int),
            -0x40000000,
            0x40000000,
        ) as i64,
    }
}

/// The sliding direction at a contact (executable form).
fn tangent_fx(a: &Shape, b: &Shape, point: Vec2, normal: Vec2) -> (r: Vec2)
    requires
        a.wf(),
        b.wf(),
        in_bound(point, 0x20000000),
        in_bound(normal, SCALE as int),
    ensures
        r == tangent_at(*a, *b, point, normal),
        in_bound(r, 0x40000000),
{
    let rel = rel_velocity(a, b, point);
    proof {
        lemma_mul_abs_le(rel.x as int, normal.x as int, 0x7000000000, SCALE as int);
        lemma_mul_abs_le(rel.y as int, normal.y as int, 0x7000000000, SCALE as int);
        lemma_div_tz_bounds(dot_int(rel, normal), SCALE as int);
    }
    let vn2 = div_q(rel.dotp(normal), SCALE);
    proof {
        lemma_mul_abs_le(normal.x as int, vn2 as int, SCALE as int, 0xE000000000);
        lemma_mul_abs_le(normal.y as int, vn2 as int, SCALE as int, 0xE000000000);
        lemma_div_tz_bounds(normal.x * vn2, SCALE as int);
        lemma_div_tz_bounds(normal.y * vn2, SCALE as int);
    }
    let px = mul_div(normal.x, vn2, SCALE);
    let py = mul_div(normal.y, vn2, SCALE);
    let tx = clamp_i((rel.x as i128) - (px as i128), -0x40000000, 0x40000000);
    let ty = clamp_i((rel.y as i128) - (py as i128), -0x40000000, 0x40000000);
    Vec2 { x: tx, y: ty }
}

/// The friction impulse of one contact: the tangential counter-impulse,
/// kept when within the static-friction cone scaled by the normal impulse
/// `j`, otherwise replaced by the dynamic-friction slide impulse.
pub open spec fn friction_imp(
    a: Shape,
    b: Shape,
    point: Vec2,
    normal: Vec2,
    j: int,
    cc: int,
    sf: int,
    df: int,
) -> Vec2 {
    let t0 = tangent_at(a, b, point, normal);
    if t0.x == 0 && t0.y == 0 {
        Vec2 { x: 0, y: 0 }
    } else {
        let t = normalize_axis(t0);
        let rel = rel_vel_at(a, b, point);
        let vt = div_tz(dot_int(rel, t), SCALE as int);
        let radot = div_tz(dot_int(perp_int(lever(point, a.pos)), t), SCALE as int);
        let rbdot = div_tz(dot_int(perp_int(lever(point, b.pos)), t), SCALE as int);
        let denom = denom_int(a, b, radot, rbdot);
        let jt = impulse_mag(0, vt, denom, cc);
        let jsf = div_tz(j * sf, SCALE as int);
        let mag = if jt >= 0 {
            jt
        } else {
            -jt
        };
        if mag <= jsf {
            Vec2 {
                x: div_tz(jt * t.x, SCALE as int) as i64,
                y: div_tz(jt * t.y, SCALE as int) as i64,
            }
        } else {
            let jd = div_tz(j * df, SCALE as int);
            Vec2 {
                x: (-div_tz(jd * t.x, SCALE as int)) as i64,
                y: (-div_tz(jd * t.y, SCALE as int)) as i64,
            }
        }
    }
}

/// The friction impulse of one contact (executable form).
fn friction_fx(a: &Shape, b: &Shape, point: Vec2, normal: Vec2, j: i64, cc: i64, sf: i64, df: i64) -> (r: Vec2)
    requires
        a.wf(),
        b.wf(),
        in_bound(point, 0x20000000),
        in_bound(normal, SCALE as int),
        -J_CAP <= j <= J_CAP,
        1 <= cc <= 2,
        0 <= sf <= SCALE,
        0 <= df <= SCALE,
    ensures
        r == friction_imp(*a, *b, point, normal, j as int, cc as int, sf as int, df as int),
        in_bound(r, 0x100_0000_0000_0000),
{
    let t0 = tangent_fx(a, b, point, normal);
    if t0.x == 0 && t0.y == 0 {
        return Vec2 { x: 0, y: 0 };
    }
    let t = normalize_vec(t0);
    let rel = rel_velocity(a, b, point);
    proof {
        lemma_mul_abs_le(rel.x as int, t.x as int, 0x7000000000, SCALE as int);
        lemma_mul_abs_le(rel.y as int, t.y as int, 0x7000000000, SCALE as int);
        lemma_div_tz_bounds(dot_int(rel, t), SCALE as int);
    }
    let vt = div_q(rel.dotp(t), SCALE);
    let rap = lever_of(point, a.pos).perp();
    let rbp = lever_of(point, b.pos).perp();
    proof {
        lemma_mul_abs_le(rap.x as int, t.x as int, 0x30000000, SCALE as int);
        lemma_mul_abs_le(rap.y as int, t.y as int, 0x30000000, SCALE as int);
        lemma_mul_abs_le(rbp.x as int, t.x as int, 0x30000000, SCALE as int);
        lemma_mul_abs_le(rbp.y as int, t.y as int, 0x30000000, SCALE as int);
        lemma_div_tz_bounds(dot_int(rap, t), SCALE as int);
        lemma_div_tz_bounds(dot_int(rbp, t), SCALE as int);
    }
    let radot = div_q(rap.dotp(t), SCALE);
    let rbdot = div_q(rbp.dotp(t), SCALE);
    let ta = denom_term_fx(radot, a.inv_inertia);
    let tb = denom_term_fx(rbdot, b.inv_inertia);
    let denom = a.inv_mass + b.inv_mass + ta + tb;
    let jt = impulse_fx(0, vt, denom, cc);
    proof {
        lemma_mul_abs_le(j as int, sf as int, J_CAP as int, SCALE as int);
        lemma_div_tz_bounds(j * sf, SCALE as int);
    }
    let jsf = mul_div(j, sf, SCALE);
    let mag = if jt >= 0 {
        jt
    } else {
        -jt
    };
    if mag <= jsf {
        proof {
            lemma_mul_abs_le(jt as int, t.x as int, J_CAP as int, SCALE as int);
            lemma_mul_abs_le(jt as int, t.y as int, J_CAP as int, SCALE as int);
            lemma_div_tz_bounds(jt * t.x, SCALE as int);
            lemma_div_tz_bounds(jt * t.y, SCALE as int);
        }
        Vec2 { x: mul_div(jt, t.x, SCALE), y: mul_div(jt, t.y, SCALE) }
    } else {
        proof {
            lemma_mul_abs_le(j as int, df as int, J_CAP as int, SCALE as int);
            lemma_div_tz_bounds(j * df, SCALE as int);
        }
        let jd = mul_div(j, df, SCALE);
        proof {
            lemma_mul_abs_le(jd as int, t.x as int, J_CAP as int, SCALE as int);
            lemma_mul_abs_le(jd as int, t.y as int, J_CAP as int, SCALE as int);
            lemma_div_tz_bounds(jd * t.x, SCALE as int);
            lemma_div_tz_bounds(jd * t.y, SCALE as int);
        }
        Vec2 { x: -mul_div(jd, t.x, SCALE), y: -mul_div(jd, t.y, SCALE) }
    }
}

/// The recomputed bounding boxes are separated on some axis, so the
/// broad phase rejects the pair.
pub open spec fn aabb_reject_int(a: Shape, b: Shape) -> bool {
    let ba = a.aabb_int();
    let bb = b.aabb_int();
    ba.max.x <= bb.min.x || bb.max.x <= ba.min.x || ba.max.y <= bb.min.y || bb.max.y <= ba.min.y
}

/// One contact's normal impulse: `None` when the bodies already separate
/// along the normal there, otherwise the levers and the impulse vector with
/// its magnitude.
pub open spec fn contact_imp(a: Shape, b: Shape, point: Vec2, normal: Vec2, e: int, cc: int) -> Option<
    (Vec2, Vec2, Vec2, i64),
> {
    let ra = lever(point, a.pos);
    let rb = lever(point, b.pos);
    let rel = rel_vel_at(a, b, point);
    let cv = div_tz(dot_int(rel, normal), SCALE as int);
    if cv > 0 {
        None
    } else {
        let radot = div_tz(dot_int(perp_int(ra), normal), SCALE as int);
        let rbdot = div_tz(dot_int(perp_int(rb), normal), SCALE as int);
        let denom = denom_int(a, b, radot, rbdot);
        let j = impulse_mag(e, cv, denom, cc);
        let imp = Vec2 {
            x: div_tz(j * normal.x, SCALE as int) as i64,
            y: div_tz(j * normal.y, SCALE as int) as i64,
        };
        Some((ra, rb, imp, j as i64))
    }
}

/// One contact's normal impulse (executable form).
fn contact_impulse(a: &Shape, b: &Shape, point: Vec2, normal: Vec2, e: i64, cc: i64) -> (r: Option<
    (Vec2, Vec2, Vec2, i64),
>)
    requires
        a.wf(),
        b.wf(),
        in_bound(point, 0x20000000),
        in_bound(normal, SCALE as int),
        0 <= e <= SCALE,
        1 <= cc <= 2,
    ensures
        r == contact_imp(*a, *b, point, normal, e as int, cc as int),
        r is Some ==> ({
            let (ra, rb, imp, j) = r.unwrap();
            &&& in_bound(ra, 0x30000000)
            &&& in_bound(rb, 0x30000000)
            &&& in_bound(imp, 0x100_0000_0000_0000)
            &&& -J_CAP <= j <= J_CAP
        }),
{
    let ra = lever_of(point, a.pos);
    let rb = lever_of(point, b.pos);
    let rel = rel_velocity(a, b, point);
    proof {
        lemma_mul_abs_le(rel.x as int, normal.x as int, 0x7000000000, SCALE as int);
        lemma_mul_abs_le(rel.y as int, normal.y as int, 0x7000000000, SCALE as int);
        lemma_div_tz_bounds(dot_int(rel, normal), SCALE as int);
    }
    let cv = div_q(rel.dotp(normal), SCALE);
    if cv > 0 {
        return None;
    }
    let rap = ra.perp();
    let rbp = rb.perp();
    proof {
        lemma_mul_abs_le(rap.x as int, normal.x as int, 0x30000000, SCALE as int);
        lemma_mul_abs_le(rap.y as int, normal.y as int, 0x30000000, SCALE as int);
        lemma_mul_abs_le(rbp.x as int, normal.x as int, 0x30000000, SCALE as int);
        lemma_mul_abs_le(rbp.y as int, normal.y as int, 0x30000000, SCALE as int);
        lemma_div_tz_bounds(dot_int(rap, normal), SCALE as int);
        lemma_div_tz_bounds(dot_int(rbp, normal), SCALE as int);
    }
    let radot = div_q(rap.dotp(normal), SCALE);
    let rbdot = div_q(rbp.dotp(normal), SCALE);
    let ta = denom_term_fx(radot, a.inv_inertia);
    let tb = denom_term_fx(rbdot, b.inv_inertia);
    let denom = a.inv_mass + b.inv_mass + ta + tb;
    let j = impulse_fx(e, cv, denom, cc);
    proof {
        lemma_mul_abs_le(j as int, normal.x as int, J_CAP as int, SCALE as int);
        lemma_mul_abs_le(j as int, normal.y as int, J_CAP as int, SCALE as int);
        lemma_div_tz_bounds(j * normal.x, SCALE as int);
        lemma_div_tz_bounds(j * normal.y, SCALE as int);
    }
    let imp = Vec2 { x: mul_div(j, normal.x, SCALE), y: mul_div(j, normal.y, SCALE) };
    Some((ra, rb, imp, j))
}

/// The pair as one equal-and-opposite impulse application leaves it: the
/// first body loses the impulse and the second gains it, each scaled by its
/// inverse mass, with the matching angular changes through the staged lever
/// cross products, everything clamped; no other field moves.
pub open spec fn applied_imp(a: Shape, b: Shape, ra: Vec2, rb: Vec2, imp: Vec2) -> (Shape, Shape) {
    let a2 = Shape {
        vel: Vec2 {
            x: adv(a.vel.x as int, -imp.x * a.inv_mass, VEL_DIV as int, WORLD as int) as i64,
            y: adv(a.vel.y as int, -imp.y * a.inv_mass, VEL_DIV as int, WORLD as int) as i64,
        },
        rot_vel: adv(
            a.rot_vel as int,
            -cross_stage(cross_int(ra, imp)) * a.inv_inertia,
            1000000000000,
            ROT_MAX as int,
        ) as i64,
        ..a
    };
    let b2 = Shape {
        vel: Vec2 {
            x: adv(b.vel.x as int, imp.x * b.inv_mass, VEL_DIV as int, WORLD as int) as i64,
            y: adv(b.vel.y as int, imp.y * b.inv_mass, VEL_DIV as int, WORLD as int) as i64,
        },
        rot_vel: adv(
            b.rot_vel as int,
            cross_stage(cross_int(rb, imp)) * b.inv_inertia,
            1000000000000,
            ROT_MAX as int,
        ) as i64,
        ..b
    };
    (a2, b2)
}

/// Apply one contact's normal impulse, or nothing when the contact was
/// skipped as already separating.
pub open spec fn apply_opt(a: Shape, b: Shape, s: Option<(Vec2, Vec2, Vec2, i64)>) -> (
    Shape,
    Shape,
) {
    match s {
        Option::None => (a, b),
        Option::Some((ra, rb, imp, j)) => applied_imp(a, b, ra, rb, imp),
    }
}

/// Apply one contact's Coulomb friction impulse, computed from the current
/// velocities, at the levers its normal impulse used; nothing for a
/// skipped contact.
pub open spec fn fric_opt(
    a: Shape,
    b: Shape,
    point: Vec2,
    normal: Vec2,
    s: Option<(Vec2, Vec2, Vec2, i64)>,
    cc: int,
    sf: int,
    df: int,
) -> (Shape, Shape) {
    match s {
        Option::None => (a, b),
        Option::Some((ra, rb, imp, j)) => applied_imp(
            a,
            b,
            ra,
            rb,
            friction_imp(a, b, point, normal, j as int, cc, sf, df),
        ),
    }
}

/// The sequential-impulse velocity solve over the contact manifold: both
/// contacts' normal impulses are computed from the pre-solve velocities and
/// applied in order, then each contact's friction impulse is computed from
/// the velocities current at its turn and applied.
pub open spec fn resolve_velocities(
    a: Shape,
    b: Shape,
    normal: Vec2,
    c1: Vec2,
    c2: Vec2,
    cc: int,
) -> (Shape, Shape) {
    let e = if a.restitution <= b.restitution {
        a.restitution as int
    } else {
        b.restitution as int
    };
    let s1 = contact_imp(a, b, c1, normal, e, cc);
    let s2 = if cc == 2 {
        contact_imp(a, b, c2, normal, e, cc)
    } else {
        Option::None
    };
    let p1 = apply_opt(a, b, s1);
    let p2 = apply_opt(p1.0, p1.1, s2);
    let sf = div_tz(p2.0.static_friction + p2.1.static_friction, 2);
    let df = div_tz(p2.0.dinaminc_friction + p2.1.dinaminc_friction, 2);
    let p3 = fric_opt(p2.0, p2.1, c1, normal, s1, cc, sf, df);
    fric_opt(p3.0, p3.1, c2, normal, s2, cc, sf, df)
}

/// The whole per-pair pipeline: a fully static or broad-phase-rejected pair
/// is untouched; otherwise the bounding boxes are refreshed, the narrow
/// phase runs, the positional correction moves the dynamic member (or half
/// each), and, unless the pair's plain relative velocity is exactly
/// perpendicular to the normal or the manifold is empty, the velocity
/// solver and friction pass run over the contacts.
#[verifier::opaque]
pub open spec fn resolve_int(a: Shape, b: Shape) -> (Shape, Shape) {
    if a.is_static && b.is_static {
        (a, b)
    } else if aabb_reject_int(a, b) {
        (a, b)
    } else {
        let n = collision_int(
            Shape { aabb: a.aabb_int(), ..a },
            b.pos,
            Shape { aabb: b.aabb_int(), ..b },
        ).0;
        let p = corrected_pair(a, b);
        let a1 = p.0;
        let b1 = p.1;
        let ct = crate::collisions::contact_int(a1, b1);
        let rn0 = dot_int(
            Vec2 { x: (a1.vel.x - b1.vel.x) as i64, y: (a1.vel.y - b1.vel.y) as i64 },
            n,
        );
        if rn0 == 0 {
            (a1, b1)
        } else if ct.2 <= 0 {
            (a1, b1)
        } else {
            let cc = if ct.2 == 2 {
                2int
            } else {
                1int
            };
            resolve_velocities(a1, b1, n, ct.0, ct.1, cc)
        }
    }
}

/// A fully static or broad-phase-rejected pair resolves to itself.
proof fn lemma_resolve_trivial(a: Shape, b: Shape)
    requires
        (a.is_static && b.is_static) || aabb_reject_int(a, b),
    ensures
        resolve_int(a, b) == (a, b),
{
    reveal(resolve_int);
}

/// The positional half of the pipeline: the corrected pair, as
/// `resolve_int` builds it before the velocity solve.
pub open spec fn corrected_pair(a: Shape, b: Shape) -> (Shape, Shape) {
    let a0 = Shape { aabb: a.aabb_int(), ..a };
    let b0 = Shape { aabb: b.aabb_int(), ..b };
    let nd = collision_int(a0, b0.pos, b0);
    let n = nd.0;
    let d = nd.1;
    let a1 = if a0.is_static {
        a0
    } else if b0.is_static {
        Shape {
            pos: Vec2 {
                x: adv(a0.pos.x as int, -n.x * d, SCALE as int, WORLD as int) as i64,
                y: adv(a0.pos.y as int, -n.y * d, SCALE as int, WORLD as int) as i64,
            },
            ..a0
        }
    } else {
        Shape {
            pos: Vec2 {
                x: adv(a0.pos.x as int, -n.x * d, 2 * SCALE as int, WORLD as int) as i64,
                y: adv(a0.pos.y as int, -n.y * d, 2 * SCALE as int, WORLD as int) as i64,
            },
            ..a0
        }
    };
    let b1 = if a0.is_static {
        Shape {
            pos: Vec2 {
                x: adv(b0.pos.x as int, n.x * d, SCALE as int, WORLD as int) as i64,
                y: adv(b0.pos.y as int, n.y * d, SCALE as int, WORLD as int) as i64,
            },
            ..b0
        }
    } else if b0.is_static {
        b0
    } else {
        Shape {
            pos: Vec2 {
                x: adv(b0.pos.x as int, n.x * d, 2 * SCALE as int, WORLD as int) as i64,
                y: adv(b0.pos.y as int, n.y * d, 2 * SCALE as int, WORLD as int) as i64,
            },
            ..b0
        }
    };
    (a1, b1)
}

/// A corrected pair whose plain relative velocity is perpendicular to the
/// normal, or whose manifold is empty, resolves to the corrected pair.
proof fn lemma_resolve_skip(a: Shape, b: Shape, a1: Shape, b1: Shape)
    requires
        !(a.is_static && b.is_static),
        !aabb_reject_int(a, b),
        (a1, b1) == corrected_pair(a, b),
        ({
            let n = collision_int(
                Shape { aabb: a.aabb_int(), ..a },
                b.pos,
                Shape { aabb: b.aabb_int(), ..b },
            ).0;
            let ct = crate::collisions::contact_int(a1, b1);
            dot_int(
                Vec2 { x: (a1.vel.x - b1.vel.x) as i64, y: (a1.vel.y - b1.vel.y) as i64 },
                n,
            ) == 0 || ct.2 <= 0
        }),
    ensures
        resolve_int(a, b) == (a1, b1),
{
    reveal(resolve_int);
}

/// A corrected pair with an active manifold resolves through the velocity
/// solver.
proof fn lemma_resolve_solve(a: Shape, b: Shape, a1: Shape, b1: Shape, q: (Shape, Shape))
    requires
        !(a.is_static && b.is_static),
        !aabb_reject_int(a, b),
        (a1, b1) == corrected_pair(a, b),
        ({
            let n = collision_int(
                Shape { aabb: a.aabb_int(), ..a },
                b.pos,
                Shape { aabb: b.aabb_int(), ..b },
            ).0;
            let ct = crate::collisions::contact_int(a1, b1);
            let cc = if ct.2 == 2 {
                2int
            } else {
                1int
            };
            dot_int(
                Vec2 { x: (a1.vel.x - b1.vel.x) as i64, y: (a1.vel.y - b1.vel.y) as i64 },
                n,
            ) != 0 && ct.2 > 0 && q == resolve_velocities(a1, b1, n, ct.0, ct.1, cc)
        }),
    ensures
        resolve_int(a, b) == q,
{
    reveal(resolve_int);
}

/// Resolve one pair of bodies for a tick: exactly the `resolve_int`
/// pipeline — recompute bounding boxes, reject a separated or fully static
/// pair untouched, apply the positional correction along the collision
/// normal (a static body absorbs none of it, a lone dynamic body all of
/// it, two dynamic bodies half each), then run the sequential-impulse
/// solver with the Coulomb friction pass over the contact manifold. A
/// static body's position, velocity, spin and vertices never change.
#[verifier::rlimit(100)]
#[verifier::spinoff_prover]
pub fn resolve_pair(a: &mut Shape, b: &mut Shape)
    requires
        old(a).wf(),
        old(b).wf(),
    ensures
        final(a).wf(),
        final(b).wf(),
        (*final(a), *final(b)) == resolve_int(*old(a), *old(b)),
        old(a).is_static && old(b).is_static ==> *final(a) == *old(a) && *final(b) == *old(b),
        aabb_reject_int(*old(a), *old(b)) ==> *final(a) == *old(a) && *final(b) == *old(b),
        old(a).is_static ==> final(a).pos == old(a).pos && final(a).vel == old(a).vel
            && final(a).rot_vel == old(a).rot_vel,
        old(b).is_static ==> final(b).pos == old(b).pos && final(b).vel == old(b).vel
            && final(b).rot_vel == old(b).rot_vel,
        final(a).vertices == old(a).vertices,
        final(b).vertices == old(b).vertices,
        final(a).kind == old(a).kind && final(a).is_static == old(a).is_static
            && final(a).movil == old(a).movil && final(a).mass == old(a).mass
            && final(a).inv_mass == old(a).inv_mass && final(a).inertia == old(a).inertia
            && final(a).inv_inertia == old(a).inv_inertia
            && final(a).restitution == old(a).restitution && final(a).area == old(a).area
            && final(a).ac == old(a).ac && final(a).force == old(a).force
            && final(a).rot == old(a).rot && final(a).static_friction == old(a).static_friction
            && final(a).dinaminc_friction == old(a).dinaminc_friction && final(a).w == old(a).w
            && final(a).h == old(a).h,
        final(b).kind == old(b).kind && final(b).is_static == old(b).is_static
            && final(b).movil == old(b).movil && final(b).mass == old(b).mass
            && final(b).inv_mass == old(b).inv_mass && final(b).inertia == old(b).inertia
            && final(b).inv_inertia == old(b).inv_inertia
            && final(b).restitution == old(b).restitution && final(b).area == old(b).area
            && final(b).ac == old(b).ac && final(b).force == old(b).force
            && final(b).rot == old(b).rot && final(b).static_friction == old(b).static_friction
            && final(b).dinaminc_friction == old(b).dinaminc_friction && final(b).w == old(b).w
            && final(b).h == old(b).h,
        !(old(a).is_static && old(b).is_static) && !aabb_reject_int(*old(a), *old(b)) ==> ({
            let nd = collision_int(*old(a), old(b).pos, *old(b));
            let n = nd.0;
            let d = nd.1;
            &&& (old(a).is_static ==> final(b).pos == (Vec2 {
                x: adv(old(b).pos.x as int, n.x as int * d as int, SCALE as int, WORLD as int) as i64,
                y: adv(old(b).pos.y as int, n.y as int * d as int, SCALE as int, WORLD as int) as i64,
            }))
            &&& (!old(a).is_static && old(b).is_static ==> final(a).pos == (Vec2 {
                x: adv(old(a).pos.x as int, -n.x as int * d as int, SCALE as int, WORLD as int) as i64,
                y: adv(old(a).pos.y as int, -n.y as int * d as int, SCALE as int, WORLD as int) as i64,
            }))
            &&& (!old(a).is_static && !old(b).is_static ==> final(a).pos == (Vec2 {
                x: adv(old(a).pos.x as int, -n.x as int * d as int, 2 * SCALE as int, WORLD as int) as i64,
                y: adv(old(a).pos.y as int, -n.y as int * d as int, 2 * SCALE as int, WORLD as int) as i64,
            }) && final(b).pos == (Vec2 {
                x: adv(old(b).pos.x as int, n.x as int * d as int, 2 * SCALE as int, WORLD as int) as i64,
                y: adv(old(b).pos.y as int, n.y as int * d as int, 2 * SCALE as int, WORLD as int) as i64,
            }))
        }),
{
    let ghost oa = *old(a);
    let ghost ob = *old(b);
    if a.is_static && b.is_static {
        proof {
            lemma_resolve_trivial(oa, ob);
        }
        return ;
    }
    let aabb_a = a.get_aabb();
    let aabb_b = b.get_aabb();
    if aabb_a.max.x <= aabb_b.min.x || aabb_b.max.x <= aabb_a.min.x || aabb_a.max.y
        <= aabb_b.min.y || aabb_b.max.y <= aabb_a.min.y {
        proof {
            assert(aabb_reject_int(oa, ob));
            lemma_resolve_trivial(oa, ob);
        }
        return ;
    }
    a.aabb = aabb_a;
    b.aabb = aabb_b;
    let ghost a0g = Shape { aabb: oa.aabb_int(), ..oa };
    let ghost b0g = Shape { aabb: ob.aabb_int(), ..ob };
    proof {
        assert(*a == a0g);
        assert(*b == b0g);
    }
    let (normal, distance) = a.collision(b.pos, b);
    proof {
        assert((normal, distance) == collision_int(a0g, b0g.pos, b0g));
        assert(collision_int(*a, b.pos, *b) == collision_int(*old(a), old(b).pos, *old(b)));
    }
    if a.is_static {
        b.pos = Vec2 {
            x: adv_fx(b.pos.x, normal.x, distance, SCALE, WORLD),
            y: adv_fx(b.pos.y, normal.y, distance, SCALE, WORLD),
        };
    } else if b.is_static {
        a.pos = Vec2 {
            x: adv_fx(a.pos.x, -normal.x, distance, SCALE, WORLD),
            y: adv_fx(a.pos.y, -normal.y, distance, SCALE, WORLD),
        };
    } else {
        a.pos = Vec2 {
            x: adv_fx(a.pos.x, -normal.x, distance, 2 * SCALE, WORLD),
            y: adv_fx(a.pos.y, -normal.y, distance, 2 * SCALE, WORLD),
        };
        b.pos = Vec2 {
            x: adv_fx(b.pos.x, normal.x, distance, 2 * SCALE, WORLD),
            y: adv_fx(b.pos.y, normal.y, distance, 2 * SCALE, WORLD),
        };
    }
    let ghost a1g = *a;
    let ghost b1g = *b;
    let (c1, c2, ccn) = a.contactpoint(b);
    proof {
        assert((c1, c2, ccn) == crate::collisions::contact_int(a1g, b1g));
        lemma_mul_abs_le((a.vel.x - b.vel.x) as int, normal.x as int, 0x20000000, SCALE as int);
        lemma_mul_abs_le((a.vel.y - b.vel.y) as int, normal.y as int, 0x20000000, SCALE as int);
    }
    let relv0 = a.vel.minus(b.vel);
    let rn0 = relv0.dotp(normal);
    // A pair whose plain relative velocity is exactly perpendicular to the
    // normal skips the whole solver, friction included. In fixed point this
    // exact zero is common for resting pairs; they are held apart by the
    // positional correction alone, which keeps rest contacts free of the
    // jitter repeated zero-velocity impulses would inject.
    if rn0 == 0 {
        proof {
            assert((a1g, b1g) == corrected_pair(oa, ob));
            lemma_resolve_skip(oa, ob, a1g, b1g);
        }
        return ;
    }
    if ccn <= 0 {
        proof {
            assert((a1g, b1g) == corrected_pair(oa, ob));
            lemma_resolve_skip(oa, ob, a1g, b1g);
        }
        return ;
    }
    let e = min_i(a.restitution, b.restitution);
    let cc: i64 = if ccn == 2 {
        2
    } else {
        1
    };
    let s1 = contact_impulse(a, b, c1, normal, e, cc);
    let s2: Option<(Vec2, Vec2, Vec2, i64)> = if cc == 2 {
        contact_impulse(a, b, c2, normal, e, cc)
    } else {
        None
    };
    let ghost q1 = apply_opt(a1g, b1g, s1);
    match s1 {
        Some((ra, rb, imp, _j)) => {
            apply_impulse(a, b, ra, rb, imp);
        },
        None => {},
    }
    proof {
        assert((*a, *b) == q1);
    }
    let ghost q2 = apply_opt(q1.0, q1.1, s2);
    match s2 {
        Some((ra, rb, imp, _j)) => {
            apply_impulse(a, b, ra, rb, imp);
        },
        None => {},
    }
    proof {
        assert((*a, *b) == q2);
    }
    let sfa = div_q(a.static_friction + b.static_friction, 2);
    let dfa = div_q(a.dinaminc_friction + b.dinaminc_friction, 2);
    let ghost q3 = fric_opt(q2.0, q2.1, c1, normal, s1, cc as int, sfa as int, dfa as int);
    match s1 {
        Some((ra, rb, _imp, j)) => {
            let f = friction_fx(a, b, c1, normal, j, cc, sfa, dfa);
            apply_impulse(a, b, ra, rb, f);
        },
        None => {},
    }
    proof {
        assert((*a, *b) == q3);
    }
    let ghost q4 = fric_opt(q3.0, q3.1, c2, normal, s2, cc as int, sfa as int, dfa as int);
    match s2 {
        Some((ra, rb, _imp, j)) => {
            let f = friction_fx(a, b, c2, normal, j, cc, sfa, dfa);
            apply_impulse(a, b, ra, rb, f);
        },
        None => {},
    }
    proof {
        assert((*a, *b) == q4);
        assert((a1g, b1g) == corrected_pair(oa, ob));
        assert(resolve_velocities(a1g, b1g, normal, c1, c2, cc as int) == q4);
        lemma_resolve_solve(oa, ob, a1g, b1g, q4);
    }
}

/// Total linear momentum is conserved by an equal-and-opposite impulse up
/// to fixed-point rounding: along one axis, for two dynamic bodies whose
/// velocity updates stay inside the clamp, the total momentum change is
/// bounded by the mass sum plus the impulse times the mass sum shrunk by
/// the inverse-mass numerator — rounding crumbs, vanishing next to the
/// momentum the impulse itself carries. With both restitutions one the
/// solver's impulse is the elastic one, and this is conservation of
/// momentum for the elastic collision. The hypotheses on the new
/// velocities are exactly the updates `apply_impulse` reports whenever the
/// world-bound clamps stay inert.
pub proof fn lemma_momentum_conserved(
    ma: int,
    mb: int,
    va: int,
    vb: int,
    va2: int,
    vb2: int,
    imp: int,
    inva: int,
    invb: int,
)
    requires
        1 <= ma <= 100000000000,
        1 <= mb <= 100000000000,
        inva == div_tz(1000000000000, ma),
        invb == div_tz(1000000000000, mb),
        va2 == va + div_tz(-imp * inva, VEL_DIV as int),
        vb2 == vb + div_tz(imp * invb, VEL_DIV as int),
        -0x100_0000_0000_0000 <= imp <= 0x100_0000_0000_0000,
    ensures
        ({
            let slack = ma + mb + div_tz(
                (if imp >= 0 {
                    imp
                } else {
                    -imp
                }) * (ma + mb),
                VEL_DIV as int,
            ) + 1;
            -slack <= ma * (va2 - va) + mb * (vb2 - vb) <= slack
        }),
{
    let big = 1000000000000int;
    let vd = VEL_DIV as int;
    let am = if imp >= 0 {
        imp
    } else {
        -imp
    };
    lemma_div_tz_bounds(big, ma);
    lemma_div_tz_bounds(big, mb);
    lemma_div_tz_bounds(-imp * inva, vd);
    lemma_div_tz_bounds(imp * invb, vd);
    let da = div_tz(-imp * inva, vd);
    let dbv = div_tz(imp * invb, vd);
    assert(-(imp * big) - am * ma - ma * vd <= vd * (ma * da) <= -(imp * big) + am * ma + ma
        * vd) by (nonlinear_arith)
        requires
            1 <= ma,
            am == (if imp >= 0 {
                imp
            } else {
                -imp
            }),
            big - ma + 1 <= ma * inva <= big + ma - 1,
            vd * da <= -imp * inva + vd - 1,
            -imp * inva - vd + 1 <= vd * da,
            vd == 1000000000,
            big == 1000000000000,
    ;
    assert((imp * big) - am * mb - mb * vd <= vd * (mb * dbv) <= (imp * big) + am * mb + mb
        * vd) by (nonlinear_arith)
        requires
            1 <= mb,
            am == (if imp >= 0 {
                imp
            } else {
                -imp
            }),
            big - mb + 1 <= mb * invb <= big + mb - 1,
            vd * dbv <= imp * invb + vd - 1,
            imp * invb - vd + 1 <= vd * dbv,
            vd == 1000000000,
            big == 1000000000000,
    ;
    let t = ma * da + mb * dbv;
    assert(vd * (ma * da) + vd * (mb * dbv) == vd * t) by (nonlinear_arith)
        requires
            t == ma * da + mb * dbv,
    ;
    assert(am * ma + am * mb == am * (ma + mb)) by (nonlinear_arith);
    assert(ma * vd + mb * vd == (ma + mb) * vd) by (nonlinear_arith);
    assert(-(am * (ma + mb)) - (ma + mb) * vd <= vd * t <= am * (ma + mb) + (ma + mb)
        * vd) by (nonlinear_arith)
        requires
            vd * (ma * da) + vd * (mb * dbv) == vd * t,
            -(imp * big) - am * ma - ma * vd <= vd * (ma * da) <= -(imp * big) + am * ma + ma * vd,
            (imp * big) - am * mb - mb * vd <= vd * (mb * dbv) <= (imp * big) + am * mb + mb * vd,
            am * ma + am * mb == am * (ma + mb),
            ma * vd + mb * vd == (ma + mb) * vd,
    ;
    lemma_div_tz_bounds(am * (ma + mb), vd);
    let q = div_tz(am * (ma + mb), vd);
    assert(-(q + ma + mb + 1) <= t <= q + ma + mb + 1) by (nonlinear_arith)
        requires
            -(am * (ma + mb)) - (ma + mb) * vd <= vd * t <= am * (ma + mb) + (ma + mb) * vd,
            vd * q <= am * (ma + mb) + vd - 1,
            am * (ma + mb) - vd + 1 <= vd * q,
            vd == 1000000000,
            1 <= ma,
            1 <= mb,
    ;
    assert(ma * (va2 - va) == ma * da && mb * (vb2 - vb) == mb * dbv) by (nonlinear_arith)
        requires
            va2 - va == da,
            vb2 - vb == dbv,
    ;
}

/// One pair of the collection resolved in place: the bodies at `i` and `j`
/// replaced by what `resolve_int` makes of them.
pub open spec fn resolve_pair_at(s: Seq<Shape>, i: int, j: int) -> Seq<Shape> {
    let r = resolve_int(s[i], s[j]);
    s.update(i, r.0).update(j, r.1)
}

/// Row `i` of the all-pairs sweep from column `j` on: the pairs `(i, j)`,
/// `(i, j+1)`, ... `(i, n-1)` resolved in order.
pub open spec fn sweep_row(s: Seq<Shape>, i: int, j: int, n: int) -> Seq<Shape>
    decreases n - j,
    when j <= n
{
    if j >= n {
        s
    } else {
        sweep_row(resolve_pair_at(s, i, j), i, j + 1, n)
    }
}

/// The all-pairs sweep from row `i` on: each row resolved left to right,
/// rows in order, exactly the sequential pair processing of a tick.
pub open spec fn sweep_rows(s: Seq<Shape>, i: int, n: int) -> Seq<Shape>
    decreases n - i,
    when i <= n
{
    if i >= n {
        s
    } else {
        sweep_rows(sweep_row(s, i, i + 1, n), i + 1, n)
    }
}

/// The engine: the body collection and the fixed-tick pipeline over it.
pub struct PhsyicsEngine {
    pub bodies: Vec<Shape>,
}

impl PhsyicsEngine {
    /// Every body in the collection is well-formed.
    pub open spec fn wf(self) -> bool {
        forall|i: int| 0 <= i < self.bodies@.len() ==> (#[trigger] self.bodies@[i]).wf()
    }

    /// An empty engine.
    pub fn build() -> (r: PhsyicsEngine)
        ensures
            r.bodies@.len() == 0,
            r.wf(),
    {
        PhsyicsEngine { bodies: Vec::new() }
    }

    /// Add a body to the simulation.
    pub fn add_body(&mut self, s: Shape)
        requires
            old(self).wf(),
            s.wf(),
        ensures
            final(self).wf(),
            final(self).bodies@ == old(self).bodies@.push(s),
    {
        self.bodies.push(s);
    }

    /// Remove and return the body at an index.
    pub fn remove_body(&mut self, i: usize) -> (r: Shape)
        requires
            old(self).wf(),
            i < old(self).bodies@.len(),
        ensures
            final(self).wf(),
            final(self).bodies@ == old(self).bodies@.remove(i as int),
            r == old(self).bodies@[i as int],
    {
        let r = self.bodies.remove(i);
        proof {
            assert forall|k: int| 0 <= k < self.bodies@.len() implies (
            #[trigger] self.bodies@[k]).wf() by {
                assert(self.bodies@ == old(self).bodies@.remove(i as int));
                if k < i {
                    assert(self.bodies@[k] == old(self).bodies@[k]);
                } else {
                    assert(self.bodies@[k] == old(self).bodies@[k + 1]);
                }
            }
        }
        r
    }

    /// One fixed tick: integrate every body, then resolve every unordered
    /// pair, strictly one pair at a time (a body may appear in several
    /// pairs, so the pairs share mutable state and are never processed
    /// concurrently). The whole tick is pinned down: there is an
    /// intermediate collection in which every body stands in the
    /// `integrated` relation to its old self, and the final collection is
    /// exactly the sequential all-pairs `resolve_int` sweep over it. A
    /// static body's position, velocity and spin survive the whole tick
    /// unchanged.
    #[verifier::rlimit(100)]
    pub fn step(&mut self, dt: i64)
        requires
            old(self).wf(),
            1 <= dt <= SCALE,
        ensures
            final(self).wf(),
            final(self).bodies@.len() == old(self).bodies@.len(),
            exists|mid0: Seq<Shape>|
                {
                    &&& mid0.len() == old(self).bodies@.len()
                    &&& (forall|k: int|
                        0 <= k < mid0.len() ==> integrated(
                            old(self).bodies@[k],
                            #[trigger] mid0[k],
                            dt as int,
                        ))
                    &&& final(self).bodies@ == #[trigger] sweep_rows(mid0, 0, mid0.len() as int)
                },
            forall|k: int|
                0 <= k < old(self).bodies@.len() && (#[trigger] old(self).bodies@[k]).is_static
                    ==> final(self).bodies@[k].pos == old(self).bodies@[k].pos
                    && final(self).bodies@[k].vel == old(self).bodies@[k].vel
                    && final(self).bodies@[k].rot_vel == old(self).bodies@[k].rot_vel,
            forall|k: int|
                0 <= k < old(self).bodies@.len() ==> final(self).bodies@[k].is_static == (
                #[trigger] old(self).bodies@[k]).is_static,
    {
        let n = self.bodies.len();
        let mut i: usize = 0;
        while i < n
            invariant
                n == self.bodies@.len(),
                n == old(self).bodies@.len(),
                0 <= i <= n,
                1 <= dt <= SCALE,
                forall|k: int| 0 <= k < n ==> (#[trigger] self.bodies@[k]).wf(),
                forall|k: int|
                    0 <= k < i ==> integrated(
                        old(self).bodies@[k],
                        #[trigger] self.bodies@[k],
                        dt as int,
                    ),
                forall|k: int| i <= k < n ==> #[trigger] self.bodies@[k] == old(self).bodies@[k],
                forall|k: int|
                    0 <= k < n ==> (#[trigger] self.bodies@[k]).is_static == old(
                        self,
                    ).bodies@[k].is_static,
                forall|k: int|
                    0 <= k < n && (#[trigger] old(self).bodies@[k]).is_static ==> self.bodies@[
                        k
                    ].pos == old(self).bodies@[k].pos && self.bodies@[k].vel == old(
                        self,
                    ).bodies@[k].vel && self.bodies@[k].rot_vel == old(self).bodies@[k].rot_vel,
            decreases n - i,
        {
            let mut body = self.bodies.remove(i);
            let ghost before = self.bodies@;
            body.integrate(dt);
            self.bodies.insert(i, body);
            proof {
                assert(self.bodies@ == before.insert(i as int, body));
                assert forall|k: int| 0 <= k < n implies (#[trigger] self.bodies@[k]).wf() by {
                    assert(self.bodies@ == before.insert(i as int, body));
                }
            }
            i = i + 1;
        }
        let ghost mid = self.bodies@;
        proof {
            assert(forall|k: int|
                0 <= k < n ==> integrated(old(self).bodies@[k], #[trigger] mid[k], dt as int));
        }
        let mut i: usize = 0;
        while i < n
            invariant
                n == self.bodies@.len(),
                n == mid.len(),
                n == old(self).bodies@.len(),
                0 <= i <= n,
                sweep_rows(self.bodies@, i as int, n as int) == sweep_rows(mid, 0, n as int),
                forall|k: int| 0 <= k < n ==> (#[trigger] self.bodies@[k]).wf(),
                forall|k: int|
                    0 <= k < n ==> (#[trigger] self.bodies@[k]).is_static == mid[k].is_static,
                forall|k: int|
                    0 <= k < n ==> mid[k].is_static == (#[trigger] old(
                        self,
                    ).bodies@[k]).is_static,
                forall|k: int|
                    0 <= k < n && (#[trigger] mid[k]).is_static ==> self.bodies@[k].pos == mid[
                        k
                    ].pos && self.bodies@[k].vel == mid[k].vel && self.bodies@[k].rot_vel == mid[
                        k
                    ].rot_vel,
                forall|k: int|
                    0 <= k < n && (#[trigger] old(self).bodies@[k]).is_static ==> mid[k].pos
                        == old(self).bodies@[k].pos && mid[k].vel == old(self).bodies@[k].vel
                        && mid[k].rot_vel == old(self).bodies@[k].rot_vel,
            decreases n - i,
        {
            let mut j: usize = i + 1;
            proof {
                assert(sweep_rows(self.bodies@, i as int, n as int) == sweep_rows(
                    sweep_row(self.bodies@, i as int, i + 1, n as int),
                    i + 1,
                    n as int,
                ));
            }
            while j < n
                invariant
                    n == self.bodies@.len(),
                    n == mid.len(),
                    n == old(self).bodies@.len(),
                    0 <= i < n,
                    i < j <= n,
                    sweep_rows(
                        sweep_row(self.bodies@, i as int, j as int, n as int),
                        i + 1,
                        n as int,
                    ) == sweep_rows(mid, 0, n as int),
                    forall|k: int| 0 <= k < n ==> (#[trigger] self.bodies@[k]).wf(),
                    forall|k: int|
                        0 <= k < n ==> (#[trigger] self.bodies@[k]).is_static == mid[k].is_static,
                    forall|k: int|
                        0 <= k < n ==> mid[k].is_static == (#[trigger] old(
                            self,
                        ).bodies@[k]).is_static,
                    forall|k: int|
                        0 <= k < n && (#[trigger] mid[k]).is_static ==> self.bodies@[k].pos == mid[
                            k
                        ].pos && self.bodies@[k].vel == mid[k].vel && self.bodies@[k].rot_vel
                            == mid[k].rot_vel,
                    forall|k: int|
                        0 <= k < n && (#[trigger] old(self).bodies@[k]).is_static ==> mid[k].pos
                            == old(self).bodies@[k].pos && mid[k].vel == old(self).bodies@[k].vel
                            && mid[k].rot_vel == old(self).bodies@[k].rot_vel,
                decreases n - j,
            {
                let ghost s0 = self.bodies@;
                let mut bb = self.bodies.remove(j);
                let mut aa = self.bodies.remove(i);
                resolve_pair(&mut aa, &mut bb);
                self.bodies.insert(i, aa);
                self.bodies.insert(j, bb);
                proof {
                    assert(self.bodies@ =~= s0.update(i as int, aa).update(j as int, bb));
                    assert(aa.is_static == s0[i as int].is_static);
                    assert(bb.is_static == s0[j as int].is_static);
                    assert(self.bodies@ == resolve_pair_at(s0, i as int, j as int));
                    assert(sweep_row(s0, i as int, j as int, n as int) == sweep_row(
                        self.bodies@,
                        i as int,
                        j + 1,
                        n as int,
                    ));
                }
                j = j + 1;
            }
            proof {
                assert(sweep_row(self.bodies@, i as int, n as int, n as int) == self.bodies@);
            }
            i = i + 1;
        }
        proof {
            assert(sweep_rows(self.bodies@, n as int, n as int) == self.bodies@);
            assert(self.bodies@ == sweep_rows(mid, 0, mid.len() as int));
        }
    }
}

} // verus!

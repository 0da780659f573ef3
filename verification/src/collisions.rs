//! Collision detection: broad-phase bounding-box rejection, narrow-phase
//! separating-axis tests producing a unit normal and a penetration depth,
//! and contact-point (manifold) generation.
//!
//! A detected collision is `(normal, depth)`: the normal is a fixed-point
//! unit vector pointing from the first body toward the second, the depth is
//! the overlap in milliunits. `(zero, 0)` is the sentinel for "no collision",
//! also returned for degenerate geometry (concentric circles, zero-length
//! edges) rather than failing.

use vstd::prelude::*;
use crate::math::{
    Vec2, SCALE, WORLD, div_tz, clamp_int, rot_vec_int, in_bound, dot_int, isqrt_int,
    rotate_vec, mul_div, min_i, max_i, isqrt, sin_fx, cos_fx, lemma_div_tz_bounds,
    lemma_isqrt_int, lemma_mul_abs_le, lemma_mul_nonneg, lemma_square_nonneg,
};
use crate::body::{Shape, Bodys, AABB, DIM_MAX, verts_in_world, cos_at, sin_at};

verus! {

/// Upper bound reported for a normalized penetration depth (milliunits).
pub const DEPTH_MAX: i64 = 0x20000000;

/// Squared-distance tolerance within which two contact candidates count as
/// equally close, yielding a two-point manifold.
pub const CONTACT_TOL: i64 = 1000;

/// The projection of the world point `v + pos` onto `axis` (unnormalized).
pub open spec fn proj_of(v: Vec2, pos: Vec2, axis: Vec2) -> int {
    (v.x + pos.x) * axis.x + (v.y + pos.y) * axis.y
}

/// The largest projection of a non-empty vertex list onto `axis`.
pub open spec fn proj_max(s: Seq<Vec2>, pos: Vec2, axis: Vec2) -> int
    decreases s.len(),
{
    if s.len() <= 1 {
        proj_of(s[0], pos, axis)
    } else {
        let rest = proj_max(s.drop_last(), pos, axis);
        if proj_of(s.last(), pos, axis) > rest {
            proj_of(s.last(), pos, axis)
        } else {
            rest
        }
    }
}

/// The smallest projection of a non-empty vertex list onto `axis`.
pub open spec fn proj_min(s: Seq<Vec2>, pos: Vec2, axis: Vec2) -> int
    decreases s.len(),
{
    if s.len() <= 1 {
        proj_of(s[0], pos, axis)
    } else {
        let rest = proj_min(s.drop_last(), pos, axis);
        if proj_of(s.last(), pos, axis) < rest {
            proj_of(s.last(), pos, axis)
        } else {
            rest
        }
    }
}

/// The squared distance from the world point `v + pos` to the point `c`.
pub open spec fn dist_sq(v: Vec2, pos: Vec2, c: Vec2) -> int {
    let dx = v.x + pos.x - c.x;
    let dy = v.y + pos.y - c.y;
    dx * dx + dy * dy
}

/// The index of the vertex nearest `c` (the first one, on ties).
pub open spec fn close_idx(s: Seq<Vec2>, pos: Vec2, c: Vec2) -> int
    decreases s.len(),
{
    if s.len() <= 1 {
        0
    } else {
        let p = close_idx(s.drop_last(), pos, c);
        if dist_sq(s.last(), pos, c) < dist_sq(s[p], pos, c) {
            s.len() - 1
        } else {
            p
        }
    }
}

/// The squared distance between two points.
pub open spec fn dist2p(p: Vec2, q: Vec2) -> int {
    (p.x - q.x) * (p.x - q.x) + (p.y - q.y) * (p.y - q.y)
}

/// The point of the segment `[a, b]` closest to `p`: the clamped projection
/// of `p` onto the segment's carrier line, an endpoint when the projection
/// parameter leaves `[0, 1]` or the segment is a single point.
pub open spec fn seg_closest(p: Vec2, a: Vec2, b: Vec2) -> Vec2 {
    let abx = b.x - a.x;
    let aby = b.y - a.y;
    let apx = p.x - a.x;
    let apy = p.y - a.y;
    let proj = apx * abx + apy * aby;
    let ablensq = abx * abx + aby * aby;
    if ablensq <= 0 {
        a
    } else if proj <= 0 {
        a
    } else if proj >= ablensq {
        b
    } else {
        Vec2 {
            x: clamp_int(
                a.x + div_tz(abx * proj, ablensq),
                -0x20000000,
                0x20000000,
            ) as i64,
            y: clamp_int(
                a.y + div_tz(aby * proj, ablensq),
                -0x20000000,
                0x20000000,
            ) as i64,
        }
    }
}

impl Shape {
    /// Broad-phase test on the stored bounding boxes: true when the boxes
    /// are separated on the `x` or the `y` axis, so the pair is rejected.
    pub fn checkaabb(&self, shape: &Shape) -> (r: bool)
        ensures
            r == (self.aabb.max.x <= shape.aabb.min.x || shape.aabb.max.x <= self.aabb.min.x
                || self.aabb.max.y <= shape.aabb.min.y || shape.aabb.max.y <= self.aabb.min.y),
    {
        let (maxa, mina) = (self.aabb.max, self.aabb.min);
        let (maxb, minb) = (shape.aabb.max, shape.aabb.min);
        maxa.x <= minb.x || maxb.x <= mina.x || maxa.y <= minb.y || maxb.y <= mina.y
    }

    /// The projection interval `(max, min)` of a translated vertex list on
    /// an (unnormalized) axis.
    pub fn proyect_vecs(vertices: &Vec<Vec2>, axis: Vec2, pos: Vec2) -> (r: (i64, i64))
        requires
            vertices@.len() >= 1,
            verts_in_world(vertices@),
            in_bound(pos, WORLD as int),
            in_bound(axis, 0x40000000),
        ensures
            r.0 == proj_max(vertices@, pos, axis),
            r.1 == proj_min(vertices@, pos, axis),
            -0x1000_0000_0000_0000 <= r.1 <= r.0 <= 0x1000_0000_0000_0000,
    {
        let w0 = vertices[0].plus(pos);
        proof {
            lemma_mul_abs_le(w0.x as int, axis.x as int, 0x20000000, 0x40000000);
            lemma_mul_abs_le(w0.y as int, axis.y as int, 0x20000000, 0x40000000);
        }
        let mut max: i64 = w0.dotp(axis);
        let mut min: i64 = max;
        let mut i: usize = 1;
        while i < vertices.len()
            invariant
                1 <= i <= vertices@.len(),
                verts_in_world(vertices@),
                in_bound(pos, WORLD as int),
                in_bound(axis, 0x40000000),
                max == proj_max(vertices@.take(i as int), pos, axis),
                min == proj_min(vertices@.take(i as int), pos, axis),
                -0x1000_0000_0000_0000 <= min <= max <= 0x1000_0000_0000_0000,
            decreases vertices@.len() - i,
        {
            let w = vertices[i].plus(pos);
            proof {
                lemma_mul_abs_le(w.x as int, axis.x as int, 0x20000000, 0x40000000);
                lemma_mul_abs_le(w.y as int, axis.y as int, 0x20000000, 0x40000000);
                assert(vertices@.take(i + 1).drop_last() =~= vertices@.take(i as int));
                assert(vertices@.take(i + 1).last() == vertices@[i as int]);
            }
            let proj = w.dotp(axis);
            max = max_i(max, proj);
            min = min_i(min, proj);
            i = i + 1;
        }
        proof {
            assert(vertices@.take(vertices@.len() as int) =~= vertices@);
        }
        (max, min)
    }

    /// The projection interval `(max, min)` of a circle on an axis whose
    /// length is `l`: the center's projection widened by radius times `l`.
    pub fn proyect_cir(center: Vec2, radius: i64, axis: Vec2, l: i64) -> (r: (i64, i64))
        requires
            in_bound(center, WORLD as int),
            in_bound(axis, 0x40000000),
            1 <= radius <= DIM_MAX,
            0 <= l <= 0x60000000,
            l * l <= dot_int(axis, axis),
        ensures
            r.0 == dot_int(center, axis) + radius * l,
            r.1 == dot_int(center, axis) - radius * l,
            r.1 <= r.0,
            -0x2000_0000_0000_0000 <= r.1 <= r.0 <= 0x2000_0000_0000_0000,
    {
        proof {
            lemma_mul_abs_le(center.x as int, axis.x as int, WORLD as int, 0x40000000);
            lemma_mul_abs_le(center.y as int, axis.y as int, WORLD as int, 0x40000000);
            lemma_mul_abs_le(radius as int, l as int, DIM_MAX as int, 0x60000000);
            lemma_mul_nonneg(radius as int, l as int);
        }
        let c = center.dotp(axis);
        let rl = radius * l;
        (c + rl, c - rl)
    }

    /// The index of the vertex (translated by `pos`) nearest `center`; the
    /// first such vertex when several tie.
    pub fn close_point(center: Vec2, vertices: &Vec<Vec2>, pos: Vec2) -> (r: usize)
        requires
            vertices@.len() >= 1,
            verts_in_world(vertices@),
            in_bound(pos, WORLD as int),
            in_bound(center, WORLD as int),
        ensures
            r < vertices@.len(),
            r == close_idx(vertices@, pos, center),
    {
        let mut result: usize = 0;
        let mut min_d: i64 = dist2(vertices[0], pos, center);
        let mut i: usize = 1;
        while i < vertices.len()
            invariant
                1 <= i <= vertices@.len(),
                result < i,
                verts_in_world(vertices@),
                in_bound(pos, WORLD as int),
                in_bound(center, WORLD as int),
                result == close_idx(vertices@.take(i as int), pos, center),
                min_d == dist_sq(vertices@[result as int], pos, center),
            decreases vertices@.len() - i,
        {
            proof {
                assert(vertices@.take(i + 1).drop_last() =~= vertices@.take(i as int));
                assert(vertices@.take(i + 1).last() == vertices@[i as int]);
                assert(vertices@.take(i + 1)[result as int] == vertices@[result as int]);
            }
            let d = dist2(vertices[i], pos, center);
            if d < min_d {
                min_d = d;
                result = i;
            }
            i = i + 1;
        }
        proof {
            assert(vertices@.take(vertices@.len() as int) =~= vertices@);
        }
        result
    }

    /// The squared distance from `p` to the segment `[a, b]`, and the point
    /// of the segment where it is attained.
    pub fn point_segment(p: Vec2, a: Vec2, b: Vec2) -> (r: (i64, Vec2))
        requires
            in_bound(p, 0x20000000),
            in_bound(a, 0x20000000),
            in_bound(b, 0x20000000),
        ensures
            r.1 == seg_closest(p, a, b),
            r.0 == dist2p(p, r.1),
            in_bound(r.1, 0x20000000),
            0 <= r.0 <= 0x2000_0000_0000_0000,
    {
        let ab = b.minus(a);
        let ap = p.minus(a);
        proof {
            lemma_mul_abs_le(ap.x as int, ab.x as int, 0x40000000, 0x40000000);
            lemma_mul_abs_le(ap.y as int, ab.y as int, 0x40000000, 0x40000000);
            lemma_mul_abs_le(ab.x as int, ab.x as int, 0x40000000, 0x40000000);
            lemma_mul_abs_le(ab.y as int, ab.y as int, 0x40000000, 0x40000000);
            lemma_square_nonneg(ab.x as int);
            lemma_square_nonneg(ab.y as int);
        }
        let proj = ap.dotp(ab);
        let ablensq = ab.dotp(ab);
        let contact: Vec2 = if ablensq <= 0 {
            a
        } else if proj <= 0 {
            a
        } else if proj >= ablensq {
            b
        } else {
            proof {
                lemma_div_tz_bounds(ab.x * proj, ablensq as int);
                lemma_div_tz_bounds(ab.y * proj, ablensq as int);
                lemma_mul_abs_le(ab.x as int, proj as int, 0x40000000, ablensq as int);
                lemma_mul_abs_le(ab.y as int, proj as int, 0x40000000, ablensq as int);
                assert(-0x40000000 <= div_tz(ab.x * proj, ablensq as int) <= 0x40000000
                    && -0x40000000 <= div_tz(ab.y * proj, ablensq as int)
                    <= 0x40000000) by (nonlinear_arith)
                    requires
                        ablensq >= 1,
                        -0x40000000 * (ablensq as int) <= ab.x * proj <= 0x40000000 * (
                        ablensq as int),
                        -0x40000000 * (ablensq as int) <= ab.y * proj <= 0x40000000 * (
                        ablensq as int),
                        (ablensq as int) * div_tz(ab.x * proj, ablensq as int) <= ab.x * proj
                            + ablensq - 1,
                        ab.x * proj - ablensq + 1 <= (ablensq as int) * div_tz(
                            ab.x * proj,
                            ablensq as int,
                        ),
                        (ablensq as int) * div_tz(ab.y * proj, ablensq as int) <= ab.y * proj
                            + ablensq - 1,
                        ab.y * proj - ablensq + 1 <= (ablensq as int) * div_tz(
                            ab.y * proj,
                            ablensq as int,
                        ),
                ;
            }
            let dx = mul_div(ab.x, proj, ablensq);
            let dy = mul_div(ab.y, proj, ablensq);
            let cx = clamp_val(a.x + dx);
            let cy = clamp_val(a.y + dy);
            Vec2 { x: cx, y: cy }
        };
        let ex = p.x - contact.x;
        let ey = p.y - contact.y;
        proof {
            lemma_mul_abs_le(ex as int, ex as int, 0x40000000, 0x40000000);
            lemma_mul_abs_le(ey as int, ey as int, 0x40000000, 0x40000000);
            lemma_square_nonneg(ex as int);
            lemma_square_nonneg(ey as int);
        }
        let d = ex * ex + ey * ey;
        (d, contact)
    }
}

/// Clamp a scalar into the doubled world bound.
fn clamp_val(v: i64) -> (r: i64)
    ensures
        r == clamp_int(v as int, -0x20000000, 0x20000000),
{
    if v < -0x20000000 {
        -0x20000000
    } else if v > 0x20000000 {
        0x20000000
    } else {
        v
    }
}

/// The perpendicular axis of edge `i`: the edge runs from vertex `i` to the
/// next vertex (wrapping), and the axis is its left perpendicular.
pub open spec fn edge_axis(s: Seq<Vec2>, i: int) -> Vec2 {
    let a = s[i];
    let b = s[(i + 1) % (s.len() as int)];
    Vec2 { x: (-(b.y - a.y)) as i64, y: (b.x - a.x) as i64 }
}

/// One separating-axis test of two polygons on an arbitrary axis: `None`
/// when the projection intervals are separated, otherwise the running best
/// axis, replaced when this axis's normalized depth is strictly smaller.
pub open spec fn sat_step_axis(
    va: Seq<Vec2>,
    pa: Vec2,
    vb: Seq<Vec2>,
    pb: Vec2,
    axis: Vec2,
    best: (Vec2, i64),
) -> Option<(Vec2, i64)> {
    let maxa = proj_max(va, pa, axis);
    let mina = proj_min(va, pa, axis);
    let maxb = proj_max(vb, pb, axis);
    let minb = proj_min(vb, pb, axis);
    if mina >= maxb || minb >= maxa {
        None
    } else {
        let l = isqrt_int(dot_int(axis, axis));
        let raw = if maxb - mina <= maxa - minb {
            maxb - mina
        } else {
            maxa - minb
        };
        let nd = clamp_int(div_tz(raw, l), 0, DEPTH_MAX as int) as i64;
        if nd < best.1 {
            Some((axis, nd))
        } else {
            Some(best)
        }
    }
}

/// The separating-axis scan over the first `k` edge axes of `va`.
pub open spec fn sat_scan(
    va: Seq<Vec2>,
    pa: Vec2,
    vb: Seq<Vec2>,
    pb: Vec2,
    k: nat,
    best0: (Vec2, i64),
) -> Option<(Vec2, i64)>
    decreases k,
{
    if k == 0 {
        Some(best0)
    } else {
        match sat_scan(va, pa, vb, pb, (k - 1) as nat, best0) {
            Option::None => Option::None,
            Option::Some(b) => sat_step_axis(va, pa, vb, pb, edge_axis(va, (k - 1) as int), b),
        }
    }
}

/// One separating-axis test of a polygon against a circle on an arbitrary
/// axis: the circle projects to its center's projection widened by radius
/// times the axis length.
pub open spec fn sat_step_cir_axis(
    va: Seq<Vec2>,
    pa: Vec2,
    c: Vec2,
    radius: int,
    axis: Vec2,
    best: (Vec2, i64),
) -> Option<(Vec2, i64)> {
    let l = isqrt_int(dot_int(axis, axis));
    let maxa = proj_max(va, pa, axis);
    let mina = proj_min(va, pa, axis);
    let maxb = dot_int(c, axis) + radius * l;
    let minb = dot_int(c, axis) - radius * l;
    if mina >= maxb || minb >= maxa {
        None
    } else {
        let raw = if maxb - mina <= maxa - minb {
            maxb - mina
        } else {
            maxa - minb
        };
        let nd = clamp_int(div_tz(raw, l), 0, DEPTH_MAX as int) as i64;
        if nd < best.1 {
            Some((axis, nd))
        } else {
            Some(best)
        }
    }
}

/// The separating-axis scan of a polygon against a circle over the first
/// `k` edge axes.
pub open spec fn sat_scan_cir(
    va: Seq<Vec2>,
    pa: Vec2,
    c: Vec2,
    radius: int,
    k: nat,
    best0: (Vec2, i64),
) -> Option<(Vec2, i64)>
    decreases k,
{
    if k == 0 {
        Some(best0)
    } else {
        match sat_scan_cir(va, pa, c, radius, (k - 1) as nat, best0) {
            Option::None => Option::None,
            Option::Some(b) => sat_step_cir_axis(
                va,
                pa,
                c,
                radius,
                edge_axis(va, (k - 1) as int),
                b,
            ),
        }
    }
}

/// Flip `axis` when it points against `dir` (strictly negative dot).
pub open spec fn orient_toward(axis: Vec2, dir: Vec2) -> Vec2 {
    if dot_int(dir, axis) < 0 {
        Vec2 { x: (-axis.x) as i64, y: (-axis.y) as i64 }
    } else {
        axis
    }
}

/// Flip `axis` when it points against or across `dir` (dot at most zero).
pub open spec fn orient_away(axis: Vec2, dir: Vec2) -> Vec2 {
    if dot_int(dir, axis) <= 0 {
        Vec2 { x: (-axis.x) as i64, y: (-axis.y) as i64 }
    } else {
        axis
    }
}

/// Scale `axis` to (fixed-point) unit length by its integer length.
pub open spec fn normalize_axis(axis: Vec2) -> Vec2 {
    let l = isqrt_int(dot_int(axis, axis));
    if l == 0 {
        Vec2 { x: 0, y: 0 }
    } else {
        Vec2 {
            x: div_tz(axis.x * SCALE as int, l) as i64,
            y: div_tz(axis.y * SCALE as int, l) as i64,
        }
    }
}

/// The circle-circle collision result: the normal points from the first
/// center toward the second, the depth is the sum of radii minus the center
/// distance; no collision once the distance reaches the radius sum, and the
/// degenerate concentric pair also resolves to the no-collision sentinel.
pub open spec fn cir_collision(pa: Vec2, ra: int, rb: int, pb: Vec2) -> (Vec2, i64) {
    let dx = pb.x - pa.x;
    let dy = pb.y - pa.y;
    let dist = isqrt_int(dx * dx + dy * dy);
    let rad = ra + rb;
    if dist >= rad {
        (Vec2 { x: 0, y: 0 }, 0)
    } else if dx == 0 && dy == 0 {
        (Vec2 { x: 0, y: 0 }, 0)
    } else {
        let n = Vec2 {
            x: div_tz(dx * SCALE as int, dist) as i64,
            y: div_tz(dy * SCALE as int, dist) as i64,
        };
        (n, (rad - dist) as i64)
    }
}

/// The polygon-polygon collision result: the scan runs over the first
/// body's edges and then the second body's, first strictly-smaller depth
/// winning, and the final axis is oriented from the first body's center
/// toward the second's and normalized. An overlap whose least depth rounds
/// to zero milliunits resolves to the full no-collision sentinel rather
/// than an ambiguous zero depth with a nonzero normal.
pub open spec fn rec_collision(va: Seq<Vec2>, pa: Vec2, vb: Seq<Vec2>, pb: Vec2) -> (Vec2, i64) {
    let init = (Vec2 { x: 0, y: 0 }, i64::MAX);
    match sat_scan(va, pa, vb, pb, va.len(), init) {
        Option::None => (Vec2 { x: 0, y: 0 }, 0),
        Option::Some(b1) => match sat_scan(vb, pb, va, pa, vb.len(), b1) {
            Option::None => (Vec2 { x: 0, y: 0 }, 0),
            Option::Some(best) => {
                if best.1 == i64::MAX || best.1 == 0 {
                    (Vec2 { x: 0, y: 0 }, 0)
                } else {
                    let dir = Vec2 { x: (pb.x - pa.x) as i64, y: (pb.y - pa.y) as i64 };
                    (normalize_axis(orient_toward(best.0, dir)), best.1)
                }
            },
        },
    }
}

/// The world position of the polygon vertex nearest the circle center, and
/// the extra separating axis from it to the center.
pub open spec fn vertex_axis(va: Seq<Vec2>, pa: Vec2, c: Vec2) -> Vec2 {
    let cp = close_idx(va, pa, c);
    Vec2 { x: (c.x - (va[cp].x + pa.x)) as i64, y: (c.y - (va[cp].y + pa.y)) as i64 }
}

/// The polygon-circle collision result: the edge-axis scan plus the extra
/// vertex-to-center axis, the final axis oriented from the polygon's center
/// toward it (and away from the circle), normalized. The normal points from
/// the circle toward the polygon.
pub open spec fn rec_cir_collision(va: Seq<Vec2>, pa: Vec2, c: Vec2, radius: int) -> (Vec2, i64) {
    let init = (Vec2 { x: 0, y: 0 }, i64::MAX);
    match sat_scan_cir(va, pa, c, radius, va.len(), init) {
        Option::None => (Vec2 { x: 0, y: 0 }, 0),
        Option::Some(b1) => match sat_step_cir_axis(va, pa, c, radius, vertex_axis(va, pa, c), b1) {
            Option::None => (Vec2 { x: 0, y: 0 }, 0),
            Option::Some(best) => {
                if best.1 == i64::MAX || best.1 == 0 {
                    (Vec2 { x: 0, y: 0 }, 0)
                } else {
                    let dir = Vec2 { x: (pa.x - c.x) as i64, y: (pa.y - c.y) as i64 };
                    (normalize_axis(orient_away(best.0, dir)), best.1)
                }
            },
        },
    }
}

/// The broad-phase filter rejects a pair exactly when the boxes' coordinate
/// intervals fail to overlap on the `x` axis or on the `y` axis: the
/// rejection test and the geometric interval-overlap test decide every pair
/// the same way.
pub proof fn lemma_aabb_filter_iff(a: AABB, b: AABB)
    ensures
        (a.max.x <= b.min.x || b.max.x <= a.min.x || a.max.y <= b.min.y || b.max.y <= a.min.y)
            <==> !((a.min.x < b.max.x && b.min.x < a.max.x) && (a.min.y < b.max.y && b.min.y
            < a.max.y)),
{
}

/// For every pair of circles whose centers lie at least the fixed-point
/// unit apart but closer than the radius sum, the reported depth is exactly
/// the radius sum minus the integer center distance, and the normal has
/// unit magnitude up to fixed-point rounding: its squared length lies
/// within a few thousandths of one.
pub proof fn lemma_circle_collision_exact(pa: Vec2, ra: int, rb: int, pb: Vec2)
    requires
        in_bound(pa, WORLD as int),
        in_bound(pb, WORLD as int),
        1 <= ra <= DIM_MAX,
        1 <= rb <= DIM_MAX,
        isqrt_int(
            (pb.x - pa.x) * (pb.x - pa.x) + (pb.y - pa.y) * (pb.y - pa.y),
        ) < ra + rb,
        isqrt_int((pb.x - pa.x) * (pb.x - pa.x) + (pb.y - pa.y) * (pb.y - pa.y)) >= SCALE,
    ensures
        cir_collision(pa, ra, rb, pb).1 == ra + rb - isqrt_int(
            (pb.x - pa.x) * (pb.x - pa.x) + (pb.y - pa.y) * (pb.y - pa.y),
        ),
        ({
            let n = cir_collision(pa, ra, rb, pb).0;
            (SCALE as int) * SCALE - 4 * SCALE <= n.x * n.x + n.y * n.y <= (SCALE as int) * SCALE
                + 7 * SCALE
        }),
{
    let dx = pb.x - pa.x;
    let dy = pb.y - pa.y;
    let d2 = dx * dx + dy * dy;
    let dist = isqrt_int(d2);
    lemma_square_nonneg(dx);
    lemma_square_nonneg(dy);
    lemma_isqrt_int(d2);
    assert(dist >= SCALE);
    assert(!(dx == 0 && dy == 0)) by (nonlinear_arith)
        requires
            dist >= SCALE,
            d2 == dx * dx + dy * dy,
            d2 >= dist * dist,
            dist >= 1000,
    ;
    assert(-dist <= dx <= dist && -dist <= dy <= dist) by (nonlinear_arith)
        requires
            dist >= 1,
            dx * dx <= d2,
            dy * dy <= d2,
            d2 < (dist + 1) * (dist + 1),
    ;
    let nx = div_tz(dx * SCALE as int, dist);
    let ny = div_tz(dy * SCALE as int, dist);
    lemma_div_tz_bounds(dx * SCALE as int, dist);
    lemma_div_tz_bounds(dy * SCALE as int, dist);
    assert((dist * nx) * (dist * nx) <= (dx * 1000) * (dx * 1000) + 2001 * (dist * dist) && (dist
        * nx) * (dist * nx) >= (dx * 1000) * (dx * 1000) - 2000 * (dist * dist)) by (nonlinear_arith)
        requires
            dist >= 1000,
            -dist <= dx <= dist,
            dist * nx <= dx * 1000 + dist - 1,
            dx * 1000 - dist + 1 <= dist * nx,
    ;
    assert((dist * ny) * (dist * ny) <= (dy * 1000) * (dy * 1000) + 2001 * (dist * dist) && (dist
        * ny) * (dist * ny) >= (dy * 1000) * (dy * 1000) - 2000 * (dist * dist)) by (nonlinear_arith)
        requires
            dist >= 1000,
            -dist <= dy <= dist,
            dist * ny <= dy * 1000 + dist - 1,
            dy * 1000 - dist + 1 <= dist * ny,
    ;
    assert(dist * dist * (nx * nx + ny * ny) == (dist * nx) * (dist * nx) + (dist * ny) * (dist
        * ny)) by (nonlinear_arith);
    assert((dx * 1000) * (dx * 1000) + (dy * 1000) * (dy * 1000) == 1000000 * d2) by (nonlinear_arith)
        requires
            d2 == dx * dx + dy * dy,
    ;
    assert(dist * dist * 996000 <= dist * dist * (nx * nx + ny * ny) <= dist * dist
        * 1007000) by (nonlinear_arith)
        requires
            dist >= 1000,
            dist * dist * (nx * nx + ny * ny) >= 1000000 * d2 - 4000 * (dist * dist),
            dist * dist * (nx * nx + ny * ny) <= 1000000 * d2 + 4002 * (dist * dist),
            dist * dist <= d2,
            d2 < (dist + 1) * (dist + 1),
    ;
    assert(996000 <= nx * nx + ny * ny <= 1007000) by (nonlinear_arith)
        requires
            dist >= 1,
            dist * dist * 996000 <= dist * dist * (nx * nx + ny * ny),
            dist * dist * (nx * nx + ny * ny) <= dist * dist * 1007000,
    ;
}

/// The circle-circle normal is consistent under argument swap: querying the
/// pair the other way round negates it exactly, and the depth is the same.
pub proof fn lemma_circle_collision_swap(pa: Vec2, ra: int, rb: int, pb: Vec2)
    requires
        in_bound(pa, WORLD as int),
        in_bound(pb, WORLD as int),
        1 <= ra <= DIM_MAX,
        1 <= rb <= DIM_MAX,
    ensures
        cir_collision(pb, rb, ra, pa).1 == cir_collision(pa, ra, rb, pb).1,
        cir_collision(pb, rb, ra, pa).0.x == -cir_collision(pa, ra, rb, pb).0.x,
        cir_collision(pb, rb, ra, pa).0.y == -cir_collision(pa, ra, rb, pb).0.y,
{
    let dx = pb.x - pa.x;
    let dy = pb.y - pa.y;
    assert((-dx) * (-dx) + (-dy) * (-dy) == dx * dx + dy * dy) by (nonlinear_arith);
    assert((pa.x - pb.x) == -dx && (pa.y - pb.y) == -dy);
    let d2 = dx * dx + dy * dy;
    let dist = isqrt_int(d2);
    lemma_square_nonneg(dx);
    lemma_square_nonneg(dy);
    lemma_mul_abs_le(dx, dx, 0x20000000, 0x20000000);
    lemma_mul_abs_le(dy, dy, 0x20000000, 0x20000000);
    lemma_isqrt_int(d2);
    assert(dist <= 0x40000000) by (nonlinear_arith)
        requires
            dist >= 0,
            dist * dist <= d2,
            d2 <= 2 * 0x20000000 * 0x20000000,
    ;
    assert(isqrt_int((pa.x - pb.x) * (pa.x - pb.x) + (pa.y - pb.y) * (pa.y - pb.y)) == dist);
    if dist >= 1 {
        crate::math::lemma_div_tz_neg(dx * SCALE as int, dist);
        crate::math::lemma_div_tz_neg(dy * SCALE as int, dist);
        assert((-dx) * SCALE == -(dx * SCALE as int)) by (nonlinear_arith);
        assert((-dy) * SCALE == -(dy * SCALE as int)) by (nonlinear_arith);
        lemma_mul_abs_le(dx, SCALE as int, 0x40000000, SCALE as int);
        lemma_mul_abs_le(dy, SCALE as int, 0x40000000, SCALE as int);
        lemma_div_tz_bounds(dx * SCALE as int, dist);
        lemma_div_tz_bounds(dy * SCALE as int, dist);
        lemma_div_tz_bounds(-(dx * SCALE as int), dist);
        lemma_div_tz_bounds(-(dy * SCALE as int), dist);
        assert(div_tz((pa.x - pb.x) * SCALE as int, dist) == -div_tz(
            (pb.x - pa.x) * SCALE as int,
            dist,
        ));
        assert(div_tz((pa.y - pb.y) * SCALE as int, dist) == -div_tz(
            (pb.y - pa.y) * SCALE as int,
            dist,
        ));
    } else {
        assert(dx == 0 && dy == 0) by (nonlinear_arith)
            requires
                dx * dx <= d2,
                dy * dy <= d2,
                dist == 0,
                d2 < (dist + 1) * (dist + 1),
                dx * dx >= 0,
                dy * dy >= 0,
        ;
    }
}

/// The normalized depth a single axis reports, as the scan computes it.
pub open spec fn axis_nd(va: Seq<Vec2>, pa: Vec2, vb: Seq<Vec2>, pb: Vec2, axis: Vec2) -> int {
    let maxa = proj_max(va, pa, axis);
    let mina = proj_min(va, pa, axis);
    let maxb = proj_max(vb, pb, axis);
    let minb = proj_min(vb, pb, axis);
    let l = isqrt_int(dot_int(axis, axis));
    let raw = if maxb - mina <= maxa - minb {
        maxb - mina
    } else {
        maxa - minb
    };
    clamp_int(div_tz(raw, l), 0, DEPTH_MAX as int)
}

/// The least normalized depth over the first `k` edge axes of `va`.
pub open spec fn scan_min(va: Seq<Vec2>, pa: Vec2, vb: Seq<Vec2>, pb: Vec2, k: nat) -> int
    decreases k,
{
    if k == 0 {
        i64::MAX as int
    } else {
        let prev = scan_min(va, pa, vb, pb, (k - 1) as nat);
        let nd = axis_nd(va, pa, vb, pb, edge_axis(va, (k - 1) as int));
        if nd < prev {
            nd
        } else {
            prev
        }
    }
}

/// Whether a scan ends in separation does not depend on the running best
/// it was started from.
proof fn lemma_scan_none_independent(
    va: Seq<Vec2>,
    pa: Vec2,
    vb: Seq<Vec2>,
    pb: Vec2,
    k: nat,
    b1: (Vec2, i64),
    b2: (Vec2, i64),
)
    ensures
        sat_scan(va, pa, vb, pb, k, b1) is None <==> sat_scan(va, pa, vb, pb, k, b2) is None,
    decreases k,
{
    if k > 0 {
        lemma_scan_none_independent(va, pa, vb, pb, (k - 1) as nat, b1, b2);
    }
}

/// A scan that does not find separation tracks exactly the least of its
/// starting depth and the depths of the axes it crossed.
proof fn lemma_scan_tracks_min(
    va: Seq<Vec2>,
    pa: Vec2,
    vb: Seq<Vec2>,
    pb: Vec2,
    k: nat,
    best: (Vec2, i64),
)
    requires
        sat_scan(va, pa, vb, pb, k, best) is Some,
    ensures
        sat_scan(va, pa, vb, pb, k, best).unwrap().1 == (if best.1 <= scan_min(va, pa, vb, pb, k) {
            best.1 as int
        } else {
            scan_min(va, pa, vb, pb, k)
        }),
    decreases k,
{
    if k > 0 {
        assert(sat_scan(va, pa, vb, pb, (k - 1) as nat, best) is Some);
        lemma_scan_tracks_min(va, pa, vb, pb, (k - 1) as nat, best);
    }
}

/// The separating-axis depth is consistent under argument swap: both bodies
/// contribute the same edge axes whichever comes first, so querying the
/// pair the other way round reports the same penetration depth (or the same
/// no-collision sentinel). The reported normal, by contrast, can depend on
/// the order when two axes tie at the least depth; the tie-break
/// intentionally keeps the first axis encountered.
pub proof fn lemma_rec_collision_swap_depth(va: Seq<Vec2>, pa: Vec2, vb: Seq<Vec2>, pb: Vec2)
    requires
        va.len() >= 1,
        vb.len() >= 1,
    ensures
        rec_collision(va, pa, vb, pb).1 == rec_collision(vb, pb, va, pa).1,
{
    let init = (Vec2 { x: 0, y: 0 }, i64::MAX);
    let sa = sat_scan(va, pa, vb, pb, va.len(), init);
    let sb = sat_scan(vb, pb, va, pa, vb.len(), init);
    if sa is None {
        if sb is Some {
            lemma_scan_none_independent(va, pa, vb, pb, va.len(), init, sb.unwrap());
        }
    } else if sb is None {
        lemma_scan_none_independent(vb, pb, va, pa, vb.len(), init, sa.unwrap());
    } else {
        let ma = scan_min(va, pa, vb, pb, va.len());
        let mb = scan_min(vb, pb, va, pa, vb.len());
        lemma_scan_tracks_min(va, pa, vb, pb, va.len(), init);
        lemma_scan_tracks_min(vb, pb, va, pa, vb.len(), init);
        lemma_scan_none_independent(vb, pb, va, pa, vb.len(), init, sa.unwrap());
        lemma_scan_none_independent(va, pa, vb, pb, va.len(), init, sb.unwrap());
        lemma_scan_tracks_min(vb, pb, va, pa, vb.len(), sa.unwrap());
        lemma_scan_tracks_min(va, pa, vb, pb, va.len(), sb.unwrap());
    }
}

/// Projections onto the zero axis are all zero.
proof fn lemma_proj_zero_axis(s: Seq<Vec2>, pos: Vec2)
    requires
        s.len() >= 1,
    ensures
        proj_max(s, pos, Vec2 { x: 0, y: 0 }) == 0,
        proj_min(s, pos, Vec2 { x: 0, y: 0 }) == 0,
    decreases s.len(),
{
    let z = Vec2 { x: 0, y: 0 };
    assert(forall|v: Vec2| #[trigger] proj_of(v, pos, z) == 0) by {
        assert forall|v: Vec2| #[trigger] proj_of(v, pos, z) == 0 by {
            assert((v.x + pos.x) * 0 == 0);
            assert((v.y + pos.y) * 0 == 0);
        }
    }
    if s.len() > 1 {
        lemma_proj_zero_axis(s.drop_last(), pos);
    }
}

/// Once a separating axis is found, every longer scan stays separated.
proof fn lemma_scan_none_propagates(
    va: Seq<Vec2>,
    pa: Vec2,
    vb: Seq<Vec2>,
    pb: Vec2,
    k: nat,
    n: nat,
    best0: (Vec2, i64),
)
    requires
        k <= n,
        sat_scan(va, pa, vb, pb, k, best0) is None,
    ensures
        sat_scan(va, pa, vb, pb, n, best0) is None,
    decreases n - k,
{
    if k < n {
        lemma_scan_none_propagates(va, pa, vb, pb, (k + 1) as nat, n, best0);
    }
}

/// Once a separating axis is found against the circle, every longer scan
/// stays separated.
proof fn lemma_scan_cir_none_propagates(
    va: Seq<Vec2>,
    pa: Vec2,
    c: Vec2,
    radius: int,
    k: nat,
    n: nat,
    best0: (Vec2, i64),
)
    requires
        k <= n,
        sat_scan_cir(va, pa, c, radius, k, best0) is None,
    ensures
        sat_scan_cir(va, pa, c, radius, n, best0) is None,
    decreases n - k,
{
    if k < n {
        lemma_scan_cir_none_propagates(va, pa, c, radius, (k + 1) as nat, n, best0);
    }
}

/// The radius a kind carries: the circle's radius, zero otherwise.
pub open spec fn kind_radius(kind: Bodys) -> int {
    match kind {
        Bodys::Circle(r) => r as int,
        _ => 0,
    }
}

/// The collision result of the dispatcher: by shape kind, circle-circle,
/// polygon-polygon, or the polygon-circle scan with the normal flipped so
/// that it always points from the first body toward the second.
pub open spec fn collision_int(a: Shape, pb: Vec2, b: Shape) -> (Vec2, i64) {
    match (a.kind, b.kind) {
        (Bodys::Circle(ra), Bodys::Circle(rb)) => cir_collision(a.pos, ra as int, rb as int, pb),
        (Bodys::Circle(_), _) => rec_cir_collision(
            b.vertices@,
            b.pos,
            a.pos,
            kind_radius(a.kind),
        ),
        (_, Bodys::Circle(_)) => {
            let nd = rec_cir_collision(a.vertices@, a.pos, b.pos, kind_radius(b.kind));
            (Vec2 { x: (-nd.0.x) as i64, y: (-nd.0.y) as i64 }, nd.1)
        },
        _ => rec_collision(a.vertices@, a.pos, b.vertices@, b.pos),
    }
}

/// Normalized depth of a raw overlap on an axis of length `l` (the raw
/// value carries a factor of the axis length): `raw / l`, clamped into
/// `[0, DEPTH_MAX]`.
fn norm_depth(raw: i64, l: i64) -> (r: i64)
    requires
        l >= 1,
        raw >= 0,
    ensures
        r == clamp_int(div_tz(raw as int, l as int), 0, DEPTH_MAX as int),
{
    proof {
        lemma_div_tz_bounds(raw as int, l as int);
    }
    let q: i64 = raw / l;
    crate::math::clamp_i(q as i128, 0, DEPTH_MAX)
}

/// One pass of the separating-axis scan: every edge axis of `va`, projected
/// against `vb`, starting from `best0`. `None` means a separating axis was
/// found.
fn sat_edges(va: &Vec<Vec2>, pa: Vec2, vb: &Vec<Vec2>, pb: Vec2, best0: (Vec2, i64)) -> (r: Option<
    (Vec2, i64),
>)
    requires
        va@.len() >= 1,
        vb@.len() >= 1,
        verts_in_world(va@),
        verts_in_world(vb@),
        in_bound(pa, WORLD as int),
        in_bound(pb, WORLD as int),
        in_bound(best0.0, 0x40000000),
        best0.1 >= 0,
    ensures
        r == sat_scan(va@, pa, vb@, pb, va@.len() as nat, best0),
        r is Some ==> in_bound(r.unwrap().0, 0x40000000) && (r.unwrap() == best0 || 0 <= r.unwrap().1
            <= DEPTH_MAX),
        r is Some ==> r.unwrap().1 >= 0,
{
    let mut best = best0;
    let mut i: usize = 0;
    while i < va.len()
        invariant
            0 <= i <= va@.len(),
            va@.len() >= 1,
            vb@.len() >= 1,
            verts_in_world(va@),
            verts_in_world(vb@),
            in_bound(pa, WORLD as int),
            in_bound(pb, WORLD as int),
            in_bound(best0.0, 0x40000000),
            best0.1 >= 0,
            Some(best) == sat_scan(va@, pa, vb@, pb, i as nat, best0),
            in_bound(best.0, 0x40000000),
            best == best0 || 0 <= best.1 <= DEPTH_MAX,
            best.1 >= 0,
        decreases va@.len() - i,
    {
        let a = va[i];
        let b = va[(i + 1) % va.len()];
        let axis = Vec2 { x: -(b.y - a.y), y: b.x - a.x };
        proof {
            assert(axis == edge_axis(va@, i as int));
        }
        let (maxa, mina) = Shape::proyect_vecs(va, axis, pa);
        let (maxb, minb) = Shape::proyect_vecs(vb, axis, pb);
        let ghost prev = best;
        if mina >= maxb || minb >= maxa {
            proof {
                assert(sat_scan(va@, pa, vb@, pb, (i + 1) as nat, best0) is None);
                lemma_scan_none_propagates(va@, pa, vb@, pb, (i + 1) as nat, va@.len() as nat, best0);
            }
            return None;
        }
        proof {
            if axis.x == 0 && axis.y == 0 {
                lemma_proj_zero_axis(va@, pa);
                lemma_proj_zero_axis(vb@, pb);
                assert(false);
            }
            lemma_mul_abs_le(axis.x as int, axis.x as int, 0x40000000, 0x40000000);
            lemma_mul_abs_le(axis.y as int, axis.y as int, 0x40000000, 0x40000000);
            lemma_square_nonneg(axis.x as int);
            lemma_square_nonneg(axis.y as int);
            assert(dot_int(axis, axis) >= 1) by (nonlinear_arith)
                requires
                    axis.x != 0 || axis.y != 0,
                    dot_int(axis, axis) == axis.x * axis.x + axis.y * axis.y,
            ;
        }
        let l2 = axis.dotp(axis);
        let l = isqrt(l2);
        proof {
            assert(l >= 1) by (nonlinear_arith)
                requires
                    l >= 0,
                    l2 >= 1,
                    l2 < (l + 1) * (l + 1),
            ;
        }
        let raw = min_i(maxb - mina, maxa - minb);
        let nd = norm_depth(raw, l);
        if nd < best.1 {
            best = (axis, nd);
        }
        proof {
            assert(sat_step_axis(va@, pa, vb@, pb, edge_axis(va@, i as int), prev) == Some(best));
        }
        i = i + 1;
    }
    Some(best)
}

/// One pass of the separating-axis scan of a polygon against a circle:
/// every edge axis of `va` against the circle at `c` with radius `radius`.
fn sat_edges_cir(va: &Vec<Vec2>, pa: Vec2, c: Vec2, radius: i64, best0: (Vec2, i64)) -> (r: Option<
    (Vec2, i64),
>)
    requires
        va@.len() >= 1,
        verts_in_world(va@),
        in_bound(pa, WORLD as int),
        in_bound(c, WORLD as int),
        1 <= radius <= DIM_MAX,
        in_bound(best0.0, 0x40000000),
        best0.1 >= 0,
    ensures
        r == sat_scan_cir(va@, pa, c, radius as int, va@.len() as nat, best0),
        r is Some ==> in_bound(r.unwrap().0, 0x40000000) && (r.unwrap() == best0 || 0 <= r.unwrap().1
            <= DEPTH_MAX),
        r is Some ==> r.unwrap().1 >= 0,
{
    let mut best = best0;
    let mut i: usize = 0;
    while i < va.len()
        invariant
            0 <= i <= va@.len(),
            va@.len() >= 1,
            verts_in_world(va@),
            in_bound(pa, WORLD as int),
            in_bound(c, WORLD as int),
            1 <= radius <= DIM_MAX,
            in_bound(best0.0, 0x40000000),
            best0.1 >= 0,
            Some(best) == sat_scan_cir(va@, pa, c, radius as int, i as nat, best0),
            in_bound(best.0, 0x40000000),
            best == best0 || 0 <= best.1 <= DEPTH_MAX,
            best.1 >= 0,
        decreases va@.len() - i,
    {
        let a = va[i];
        let b = va[(i + 1) % va.len()];
        let axis = Vec2 { x: -(b.y - a.y), y: b.x - a.x };
        proof {
            assert(axis == edge_axis(va@, i as int));
            lemma_mul_abs_le(axis.x as int, axis.x as int, 0x40000000, 0x40000000);
            lemma_mul_abs_le(axis.y as int, axis.y as int, 0x40000000, 0x40000000);
            lemma_square_nonneg(axis.x as int);
            lemma_square_nonneg(axis.y as int);
        }
        let l2 = axis.dotp(axis);
        let l = isqrt(l2);
        proof {
            assert(l * l <= l2);
            assert(l <= 0x60000000) by (nonlinear_arith)
                requires
                    l >= 0,
                    l * l <= l2,
                    l2 <= 2 * 0x40000000 * 0x40000000,
            ;
        }
        let (maxa, mina) = Shape::proyect_vecs(va, axis, pa);
        let (maxb, minb) = Shape::proyect_cir(c, radius, axis, l);
        let ghost prev = best;
        if mina >= maxb || minb >= maxa {
            proof {
                assert(sat_scan_cir(va@, pa, c, radius as int, (i + 1) as nat, best0) is None);
                lemma_scan_cir_none_propagates(
                    va@,
                    pa,
                    c,
                    radius as int,
                    (i + 1) as nat,
                    va@.len() as nat,
                    best0,
                );
            }
            return None;
        }
        proof {
            if axis.x == 0 && axis.y == 0 {
                lemma_proj_zero_axis(va@, pa);
                assert(false);
            }
            assert(dot_int(axis, axis) >= 1) by (nonlinear_arith)
                requires
                    axis.x != 0 || axis.y != 0,
                    dot_int(axis, axis) == axis.x * axis.x + axis.y * axis.y,
            ;
        }
        proof {
            assert(l >= 1) by (nonlinear_arith)
                requires
                    l >= 0,
                    l2 >= 1,
                    l2 < (l + 1) * (l + 1),
            ;
        }
        let raw = min_i(maxb - mina, maxa - minb);
        let nd = norm_depth(raw, l);
        if nd < best.1 {
            best = (axis, nd);
        }
        proof {
            assert(sat_step_cir_axis(va@, pa, c, radius as int, edge_axis(va@, i as int), prev)
                == Some(best));
        }
        i = i + 1;
    }
    Some(best)
}

/// Orient `axis` by `dir` (strictly, or weakly when `away` is set, matching
/// the two dispatch paths) and scale it to fixed-point unit length.
fn orient_normalize(axis: Vec2, dir: Vec2, away: bool) -> (r: Vec2)
    requires
        in_bound(axis, 0x40000000),
        in_bound(dir, 0x20000000),
    ensures
        r == normalize_axis(if away {
            orient_away(axis, dir)
        } else {
            orient_toward(axis, dir)
        }),
        in_bound(r, SCALE as int),
{
    proof {
        lemma_mul_abs_le(dir.x as int, axis.x as int, 0x20000000, 0x40000000);
        lemma_mul_abs_le(dir.y as int, axis.y as int, 0x20000000, 0x40000000);
    }
    let d = dir.dotp(axis);
    let flip: bool = if away {
        d <= 0
    } else {
        d < 0
    };
    let ax = if flip {
        axis.neg()
    } else {
        axis
    };
    proof {
        lemma_mul_abs_le(ax.x as int, ax.x as int, 0x40000000, 0x40000000);
        lemma_mul_abs_le(ax.y as int, ax.y as int, 0x40000000, 0x40000000);
        lemma_square_nonneg(ax.x as int);
        lemma_square_nonneg(ax.y as int);
    }
    let l2 = ax.dotp(ax);
    let l = isqrt(l2);
    if l == 0 {
        Vec2 { x: 0, y: 0 }
    } else {
        proof {
            assert(ax.x * ax.x <= l2 && ax.y * ax.y <= l2) by (nonlinear_arith)
                requires
                    l2 == ax.x * ax.x + ax.y * ax.y,
                    ax.x * ax.x >= 0,
                    ax.y * ax.y >= 0,
            ;
            assert(-l <= ax.x <= l && -l <= ax.y <= l) by (nonlinear_arith)
                requires
                    l >= 1,
                    ax.x * ax.x <= l2,
                    ax.y * ax.y <= l2,
                    l2 < (l + 1) * (l + 1),
            ;
            lemma_mul_abs_le(ax.x as int, SCALE as int, l as int, SCALE as int);
            lemma_mul_abs_le(ax.y as int, SCALE as int, l as int, SCALE as int);
            lemma_div_tz_bounds(ax.x * SCALE as int, l as int);
            lemma_div_tz_bounds(ax.y * SCALE as int, l as int);
            assert(-SCALE <= div_tz(ax.x * SCALE as int, l as int) <= SCALE && -SCALE <= div_tz(
                ax.y * SCALE as int,
                l as int,
            ) <= SCALE) by (nonlinear_arith)
                requires
                    l >= 1,
                    -(l as int) * SCALE <= ax.x * SCALE as int <= (l as int) * SCALE,
                    -(l as int) * SCALE <= ax.y * SCALE as int <= (l as int) * SCALE,
                    (l as int) * div_tz(ax.x * SCALE as int, l as int) <= ax.x * SCALE + l - 1,
                    ax.x * SCALE - l + 1 <= (l as int) * div_tz(ax.x * SCALE as int, l as int),
                    (l as int) * div_tz(ax.y * SCALE as int, l as int) <= ax.y * SCALE + l - 1,
                    ax.y * SCALE - l + 1 <= (l as int) * div_tz(ax.y * SCALE as int, l as int),
            ;
        }
        let nx = mul_div(ax.x, SCALE, l);
        let ny = mul_div(ax.y, SCALE, l);
        Vec2 { x: nx, y: ny }
    }
}

/// The vertex list rotated by an angle in milliradians, reduced modulo a
/// full turn into half a turn either way, through the fixed-point rotor for
/// that angle.
pub open spec fn rotated_verts(s: Seq<Vec2>, angle: int) -> Seq<Vec2> {
    let th = crate::math::reduce_angle(angle);
    s.map_values(|v: Vec2| rot_vec_int(v, cos_at(th), sin_at(th)))
}

/// The world position of vertex `i`.
pub open spec fn world_pt(s: Seq<Vec2>, pos: Vec2, i: int) -> Vec2 {
    Vec2 { x: (s[i].x + pos.x) as i64, y: (s[i].y + pos.y) as i64 }
}

/// The circle-circle contact point: this center moved toward the other by
/// the radius along the normalized center line.
pub open spec fn cir_contact(pa: Vec2, ra: int, pb: Vec2) -> Vec2 {
    let ab = Vec2 { x: (pa.x - pb.x) as i64, y: (pa.y - pb.y) as i64 };
    let dir = normalize_axis(ab);
    Vec2 {
        x: (pa.x - div_tz(dir.x * ra, SCALE as int)) as i64,
        y: (pa.y - div_tz(dir.y * ra, SCALE as int)) as i64,
    }
}

/// The nearest clamped projection of `p` over the first `k` edges of the
/// polygon, with its squared distance; the first edge wins ties.
pub open spec fn best_edge_point(s: Seq<Vec2>, pos: Vec2, p: Vec2, k: nat) -> (int, Vec2)
    decreases k,
{
    if k == 0 {
        (i64::MAX as int, Vec2 { x: 0, y: 0 })
    } else {
        let prev = best_edge_point(s, pos, p, (k - 1) as nat);
        let a = world_pt(s, pos, k - 1);
        let b = world_pt(s, pos, (k as int) % (s.len() as int));
        let cp = seg_closest(p, a, b);
        let d = dist2p(p, cp);
        if d < prev.0 {
            (d, cp)
        } else {
            prev
        }
    }
}

/// One manifold candidate folded into the running state
/// `(least squared distance, first contact, second contact, count)`: a
/// distinct candidate within the tolerance of the least distance becomes
/// the second contact; a strictly nearer one restarts a one-point manifold.
pub open spec fn manifold_step(st: (int, Vec2, Vec2, i32), p: Vec2, a: Vec2, b: Vec2) -> (
    int,
    Vec2,
    Vec2,
    i32,
) {
    let cp = seg_closest(p, a, b);
    let d = dist2p(p, cp);
    if -CONTACT_TOL <= d - st.0 <= CONTACT_TOL {
        if cp != st.1 {
            (st.0, st.1, cp, 2)
        } else {
            st
        }
    } else if d < st.0 {
        (d, cp, st.2, 1)
    } else {
        st
    }
}

/// Fold one world point over the first `k` edges of a polygon.
pub open spec fn scan_point_edges(
    st: (int, Vec2, Vec2, i32),
    p: Vec2,
    s: Seq<Vec2>,
    pos: Vec2,
    k: nat,
) -> (int, Vec2, Vec2, i32)
    decreases k,
{
    if k == 0 {
        st
    } else {
        manifold_step(
            scan_point_edges(st, p, s, pos, (k - 1) as nat),
            p,
            world_pt(s, pos, k - 1),
            world_pt(s, pos, (k as int) % (s.len() as int)),
        )
    }
}

/// Fold the first `k` vertices of one polygon over every edge of the other.
pub open spec fn scan_points(
    st: (int, Vec2, Vec2, i32),
    pts: Seq<Vec2>,
    ppos: Vec2,
    s: Seq<Vec2>,
    pos: Vec2,
    k: nat,
) -> (int, Vec2, Vec2, i32)
    decreases k,
{
    if k == 0 {
        st
    } else {
        scan_point_edges(
            scan_points(st, pts, ppos, s, pos, (k - 1) as nat),
            world_pt(pts, ppos, k - 1),
            s,
            pos,
            s.len(),
        )
    }
}

/// The polygon-polygon manifold state: every vertex of the first body
/// against every edge of the second, then the other way round.
pub open spec fn manifold_rec_rec(va: Seq<Vec2>, pa: Vec2, vb: Seq<Vec2>, pb: Vec2) -> (
    int,
    Vec2,
    Vec2,
    i32,
) {
    let st0 = (i64::MAX as int, Vec2 { x: 0, y: 0 }, Vec2 { x: 0, y: 0 }, 0i32);
    let st1 = scan_points(st0, va, pa, vb, pb, va.len());
    scan_points(st1, vb, pb, va, pa, vb.len())
}

/// The contact manifold of the dispatcher, by shape kind.
pub open spec fn contact_int(a: Shape, b: Shape) -> (Vec2, Vec2, i32) {
    match (a.kind, b.kind) {
        (Bodys::Circle(ra), Bodys::Circle(_)) => (
            cir_contact(a.pos, ra as int, b.pos),
            Vec2 { x: 0, y: 0 },
            1i32,
        ),
        (Bodys::Circle(_), _) => (
            best_edge_point(b.vertices@, b.pos, a.pos, b.vertices@.len() as nat).1,
            Vec2 { x: 0, y: 0 },
            1i32,
        ),
        (_, Bodys::Circle(_)) => (
            best_edge_point(a.vertices@, a.pos, b.pos, a.vertices@.len() as nat).1,
            Vec2 { x: 0, y: 0 },
            1i32,
        ),
        _ => {
            let st = manifold_rec_rec(a.vertices@, a.pos, b.vertices@, b.pos);
            (st.1, st.2, st.3)
        },
    }
}

/// Scale a vector to fixed-point unit length by its integer length.
pub(crate) fn normalize_vec(v: Vec2) -> (r: Vec2)
    requires
        in_bound(v, 0x40000000),
    ensures
        r == normalize_axis(v),
        in_bound(r, SCALE as int),
{
    let r = orient_normalize(v, Vec2 { x: 0, y: 0 }, false);
    proof {
        assert(dot_int(Vec2 { x: 0, y: 0 }, v) == 0);
        assert(orient_toward(v, Vec2 { x: 0, y: 0 }) == v);
    }
    r
}

/// Fold one world point over every edge of a polygon (executable form).
fn scan_edges_exec(st: (i64, Vec2, Vec2, i32), p: Vec2, verts: &Vec<Vec2>, pos: Vec2) -> (r: (
    i64,
    Vec2,
    Vec2,
    i32,
))
    requires
        verts@.len() >= 1,
        verts_in_world(verts@),
        in_bound(pos, WORLD as int),
        in_bound(p, 0x20000000),
        in_bound(st.1, 0x20000000),
        in_bound(st.2, 0x20000000),
        st.0 >= 0 || st.0 == i64::MAX,
        0 <= st.3 <= 2,
    ensures
        (r.0 as int, r.1, r.2, r.3) == scan_point_edges(
            (st.0 as int, st.1, st.2, st.3),
            p,
            verts@,
            pos,
            verts@.len() as nat,
        ),
        in_bound(r.1, 0x20000000),
        in_bound(r.2, 0x20000000),
        r.0 >= 0 || r.0 == i64::MAX,
        0 <= r.3 <= 2,
{
    let mut cur = st;
    let mut i: usize = 0;
    while i < verts.len()
        invariant
            0 <= i <= verts@.len(),
            verts@.len() >= 1,
            verts_in_world(verts@),
            in_bound(pos, WORLD as int),
            in_bound(p, 0x20000000),
            (cur.0 as int, cur.1, cur.2, cur.3) == scan_point_edges(
                (st.0 as int, st.1, st.2, st.3),
                p,
                verts@,
                pos,
                i as nat,
            ),
            in_bound(cur.1, 0x20000000),
            in_bound(cur.2, 0x20000000),
            cur.0 >= 0 || cur.0 == i64::MAX,
            0 <= cur.3 <= 2,
        decreases verts@.len() - i,
    {
        let va = verts[i].plus(pos);
        let vb = verts[(i + 1) % verts.len()].plus(pos);
        let (d, cp) = Shape::point_segment(p, va, vb);
        let dm = d - cur.0;
        if -CONTACT_TOL <= dm && dm <= CONTACT_TOL {
            if cp.x != cur.1.x || cp.y != cur.1.y {
                cur = (cur.0, cur.1, cp, 2);
            }
        } else if d < cur.0 {
            cur = (d, cp, cur.2, 1);
        }
        i = i + 1;
    }
    cur
}

/// Fold every vertex of one polygon over every edge of the other
/// (executable form).
fn scan_points_exec(st: (i64, Vec2, Vec2, i32), pts: &Vec<Vec2>, ppos: Vec2, verts: &Vec<
    Vec2,
>, pos: Vec2) -> (r: (i64, Vec2, Vec2, i32))
    requires
        pts@.len() >= 1,
        verts@.len() >= 1,
        verts_in_world(pts@),
        verts_in_world(verts@),
        in_bound(ppos, WORLD as int),
        in_bound(pos, WORLD as int),
        in_bound(st.1, 0x20000000),
        in_bound(st.2, 0x20000000),
        st.0 >= 0 || st.0 == i64::MAX,
        0 <= st.3 <= 2,
    ensures
        (r.0 as int, r.1, r.2, r.3) == scan_points(
            (st.0 as int, st.1, st.2, st.3),
            pts@,
            ppos,
            verts@,
            pos,
            pts@.len() as nat,
        ),
        in_bound(r.1, 0x20000000),
        in_bound(r.2, 0x20000000),
        r.0 >= 0 || r.0 == i64::MAX,
        0 <= r.3 <= 2,
{
    let mut cur = st;
    let mut i: usize = 0;
    while i < pts.len()
        invariant
            0 <= i <= pts@.len(),
            pts@.len() >= 1,
            verts@.len() >= 1,
            verts_in_world(pts@),
            verts_in_world(verts@),
            in_bound(ppos, WORLD as int),
            in_bound(pos, WORLD as int),
            (cur.0 as int, cur.1, cur.2, cur.3) == scan_points(
                (st.0 as int, st.1, st.2, st.3),
                pts@,
                ppos,
                verts@,
                pos,
                i as nat,
            ),
            in_bound(cur.1, 0x20000000),
            in_bound(cur.2, 0x20000000),
            cur.0 >= 0 || cur.0 == i64::MAX,
            0 <= cur.3 <= 2,
        decreases pts@.len() - i,
    {
        let p = pts[i].plus(ppos);
        cur = scan_edges_exec(cur, p, verts, pos);
        i = i + 1;
    }
    cur
}

/// The squared distance from the world point `v + pos` to `c`.
fn dist2(v: Vec2, pos: Vec2, c: Vec2) -> (r: i64)
    requires
        in_bound(v, WORLD as int),
        in_bound(pos, WORLD as int),
        in_bound(c, WORLD as int),
    ensures
        r == dist_sq(v, pos, c),
        r >= 0,
{
    let dx = v.x + pos.x - c.x;
    let dy = v.y + pos.y - c.y;
    proof {
        lemma_mul_abs_le(dx as int, dx as int, 0x30000000, 0x30000000);
        lemma_mul_abs_le(dy as int, dy as int, 0x30000000, 0x30000000);
        lemma_square_nonneg(dx as int);
        lemma_square_nonneg(dy as int);
    }
    dx * dx + dy * dy
}

impl Shape {
    /// Circle-circle narrow phase: the normal points from this body's
    /// center toward `pb`, the depth is the radius sum minus the center
    /// distance; the zero sentinel when separated, and also for the
    /// degenerate concentric pair, where no direction exists.
    pub fn cir_to_cir(&self, ra: i64, rb: i64, pb: Vec2) -> (r: (Vec2, i64))
        requires
            in_bound(self.pos, WORLD as int),
            in_bound(pb, WORLD as int),
            1 <= ra <= DIM_MAX,
            1 <= rb <= DIM_MAX,
        ensures
            r == cir_collision(self.pos, ra as int, rb as int, pb),
            in_bound(r.0, SCALE as int),
            0 <= r.1 <= ra + rb,
    {
        let dx = pb.x - self.pos.x;
        let dy = pb.y - self.pos.y;
        proof {
            lemma_mul_abs_le(dx as int, dx as int, 0x20000000, 0x20000000);
            lemma_mul_abs_le(dy as int, dy as int, 0x20000000, 0x20000000);
            lemma_square_nonneg(dx as int);
            lemma_square_nonneg(dy as int);
        }
        let d2 = dx * dx + dy * dy;
        let dist = isqrt(d2);
        let rad = ra + rb;
        if dist >= rad {
            return (Vec2 { x: 0, y: 0 }, 0);
        }
        if dx == 0 && dy == 0 {
            return (Vec2 { x: 0, y: 0 }, 0);
        }
        let n: Vec2 = {
            proof {
                assert(dx != 0 ==> dx * dx >= 1) by (nonlinear_arith);
                assert(dy != 0 ==> dy * dy >= 1) by (nonlinear_arith);
                assert(dist >= 1) by (nonlinear_arith)
                    requires
                        dist >= 0,
                        d2 >= 1,
                        d2 < (dist + 1) * (dist + 1),
                ;
                assert(-dist <= dx <= dist && -dist <= dy <= dist) by (nonlinear_arith)
                    requires
                        dist >= 1,
                        dx * dx <= d2,
                        dy * dy <= d2,
                        d2 < (dist + 1) * (dist + 1),
                ;
                lemma_mul_abs_le(dx as int, SCALE as int, dist as int, SCALE as int);
                lemma_mul_abs_le(dy as int, SCALE as int, dist as int, SCALE as int);
                lemma_div_tz_bounds(dx * SCALE as int, dist as int);
                lemma_div_tz_bounds(dy * SCALE as int, dist as int);
                assert(-SCALE <= div_tz(dx * SCALE as int, dist as int) <= SCALE && -SCALE
                    <= div_tz(dy * SCALE as int, dist as int) <= SCALE) by (nonlinear_arith)
                    requires
                        dist >= 1,
                        -(dist as int) * SCALE <= dx * SCALE as int <= (dist as int) * SCALE,
                        -(dist as int) * SCALE <= dy * SCALE as int <= (dist as int) * SCALE,
                        (dist as int) * div_tz(dx * SCALE as int, dist as int) <= dx * SCALE + dist
                            - 1,
                        dx * SCALE - dist + 1 <= (dist as int) * div_tz(
                            dx * SCALE as int,
                            dist as int,
                        ),
                        (dist as int) * div_tz(dy * SCALE as int, dist as int) <= dy * SCALE + dist
                            - 1,
                        dy * SCALE - dist + 1 <= (dist as int) * div_tz(
                            dy * SCALE as int,
                            dist as int,
                        ),
                ;
            }
            Vec2 { x: mul_div(dx, SCALE, dist), y: mul_div(dy, SCALE, dist) }
        };
        (n, rad - dist)
    }

    /// Polygon-polygon narrow phase by the separating-axis theorem: both
    /// bodies' edge axes are scanned, the least normalized overlap wins
    /// (first encountered on ties), and the normal is oriented from this
    /// body's center toward the other's.
    pub fn rec_to_rec(&self, shape: &Shape) -> (r: (Vec2, i64))
        requires
            self.wf(),
            shape.wf(),
            self.vertices@.len() >= 1,
            shape.vertices@.len() >= 1,
        ensures
            r == rec_collision(self.vertices@, self.pos, shape.vertices@, shape.pos),
            in_bound(r.0, SCALE as int),
            0 <= r.1 <= DEPTH_MAX,
    {
        let init = (Vec2 { x: 0, y: 0 }, i64::MAX);
        match sat_edges(&self.vertices, self.pos, &shape.vertices, shape.pos, init) {
            None => (Vec2 { x: 0, y: 0 }, 0),
            Some(b1) => {
                match sat_edges(&shape.vertices, shape.pos, &self.vertices, self.pos, b1) {
                    None => (Vec2 { x: 0, y: 0 }, 0),
                    Some(best) => {
                        if best.1 == i64::MAX || best.1 == 0 {
                            (Vec2 { x: 0, y: 0 }, 0)
                        } else {
                            let dir = shape.pos.minus(self.pos);
                            let n = orient_normalize(best.0, dir, false);
                            (n, best.1)
                        }
                    },
                }
            },
        }
    }

    /// Polygon-circle narrow phase: the polygon's edge axes plus the axis
    /// from its vertex nearest the circle's center to that center; the
    /// normal is oriented from the circle toward the polygon.
    pub fn rec_to_cir(slf: &Shape, shape: &Shape) -> (r: (Vec2, i64))
        requires
            slf.wf(),
            shape.wf(),
            slf.vertices@.len() >= 1,
            shape.kind matches Bodys::Circle(_),
        ensures
            r == rec_cir_collision(
                slf.vertices@,
                slf.pos,
                shape.pos,
                kind_radius(shape.kind),
            ),
            in_bound(r.0, SCALE as int),
            0 <= r.1 <= DEPTH_MAX,
    {
        let radius: i64 = match shape.kind {
            Bodys::Circle(r) => r,
            _ => 0,
        };
        let init = (Vec2 { x: 0, y: 0 }, i64::MAX);
        match sat_edges_cir(&slf.vertices, slf.pos, shape.pos, radius, init) {
            None => (Vec2 { x: 0, y: 0 }, 0),
            Some(b1) => {
                let cpindex = Shape::close_point(shape.pos, &slf.vertices, slf.pos);
                let axi = shape.pos.minus(slf.vertices[cpindex].plus(slf.pos));
                proof {
                    assert(axi == vertex_axis(slf.vertices@, slf.pos, shape.pos));
                    lemma_mul_abs_le(axi.x as int, axi.x as int, 0x30000000, 0x30000000);
                    lemma_mul_abs_le(axi.y as int, axi.y as int, 0x30000000, 0x30000000);
                    lemma_square_nonneg(axi.x as int);
                    lemma_square_nonneg(axi.y as int);
                }
                let l2 = axi.dotp(axi);
                let l = isqrt(l2);
                proof {
                    assert(l * l <= l2);
                    assert(l <= 0x60000000) by (nonlinear_arith)
                        requires
                            l >= 0,
                            l * l <= l2,
                            l2 <= 2 * 0x30000000 * 0x30000000,
                    ;
                }
                let (maxa, mina) = Shape::proyect_vecs(&slf.vertices, axi, slf.pos);
                let (maxb, minb) = Shape::proyect_cir(shape.pos, radius, axi, l);
                if mina >= maxb || minb >= maxa {
                    return (Vec2 { x: 0, y: 0 }, 0);
                }
                proof {
                    if axi.x == 0 && axi.y == 0 {
                        lemma_proj_zero_axis(slf.vertices@, slf.pos);
                        assert(dot_int(axi, axi) == 0) by (nonlinear_arith)
                            requires
                                axi.x == 0,
                                axi.y == 0,
                        ;
                        assert(l == 0);
                        assert(dot_int(shape.pos, axi) == 0) by (nonlinear_arith)
                            requires
                                axi.x == 0,
                                axi.y == 0,
                        ;
                        assert(radius * l == 0) by (nonlinear_arith)
                            requires
                                l == 0,
                        ;
                        assert(false);
                    }
                    assert(dot_int(axi, axi) >= 1) by (nonlinear_arith)
                        requires
                            axi.x != 0 || axi.y != 0,
                            dot_int(axi, axi) == axi.x * axi.x + axi.y * axi.y,
                    ;
                    assert(l >= 1) by (nonlinear_arith)
                        requires
                            l >= 0,
                            l2 >= 1,
                            l2 < (l + 1) * (l + 1),
                    ;
                }
                let raw = min_i(maxb - mina, maxa - minb);
                let nd = norm_depth(raw, l);
                let best: (Vec2, i64) = if nd < b1.1 {
                    (axi, nd)
                } else {
                    b1
                };
                proof {
                    assert(sat_step_cir_axis(
                        slf.vertices@,
                        slf.pos,
                        shape.pos,
                        radius as int,
                        vertex_axis(slf.vertices@, slf.pos, shape.pos),
                        b1,
                    ) == Some(best));
                }
                if best.1 == i64::MAX || best.1 == 0 {
                    (Vec2 { x: 0, y: 0 }, 0)
                } else {
                    let dir = slf.pos.minus(shape.pos);
                    let n = orient_normalize(best.0, dir, true);
                    (n, best.1)
                }
            },
        }
    }

    /// The single contact point of two overlapping circles: the point on
    /// this body's boundary facing the other body's center.
    pub fn point_cir_to_cir(&self, ra: i64, shape: &Shape) -> (r: Vec2)
        requires
            in_bound(self.pos, WORLD as int),
            in_bound(shape.pos, WORLD as int),
            1 <= ra <= DIM_MAX,
        ensures
            r == cir_contact(self.pos, ra as int, shape.pos),
            in_bound(r, 0x20000000),
    {
        let ab = self.pos.minus(shape.pos);
        let dir = normalize_vec(ab);
        proof {
            lemma_mul_abs_le(dir.x as int, ra as int, SCALE as int, DIM_MAX as int);
            lemma_mul_abs_le(dir.y as int, ra as int, SCALE as int, DIM_MAX as int);
            lemma_div_tz_bounds(dir.x * ra, SCALE as int);
            lemma_div_tz_bounds(dir.y * ra, SCALE as int);
        }
        let ox = mul_div(dir.x, ra, SCALE);
        let oy = mul_div(dir.y, ra, SCALE);
        Vec2 { x: self.pos.x - ox, y: self.pos.y - oy }
    }

    /// The single contact point of an overlapping polygon-circle pair: the
    /// point of the polygon's boundary nearest the circle's center, found
    /// by clamped point-to-segment projection over every edge.
    pub fn point_rec_to_cir(slf: &Shape, shape: &Shape) -> (r: Vec2)
        requires
            slf.wf(),
            in_bound(shape.pos, WORLD as int),
            slf.vertices@.len() >= 1,
        ensures
            r == best_edge_point(
                slf.vertices@,
                slf.pos,
                shape.pos,
                slf.vertices@.len() as nat,
            ).1,
            in_bound(r, 0x20000000),
    {
        let verts = &slf.vertices;
        let mut min: i64 = i64::MAX;
        let mut cp = Vec2 { x: 0, y: 0 };
        let mut i: usize = 0;
        while i < verts.len()
            invariant
                0 <= i <= verts@.len(),
                verts@.len() >= 1,
                verts_in_world(verts@),
                in_bound(slf.pos, WORLD as int),
                in_bound(shape.pos, WORLD as int),
                (min as int, cp) == best_edge_point(verts@, slf.pos, shape.pos, i as nat),
                in_bound(cp, 0x20000000),
            decreases verts@.len() - i,
        {
            let va = verts[i].plus(slf.pos);
            let vb = verts[(i + 1) % verts.len()].plus(slf.pos);
            let (distancesqr, contact) = Shape::point_segment(shape.pos, va, vb);
            if distancesqr < min {
                min = distancesqr;
                cp = contact;
            }
            i = i + 1;
        }
        cp
    }

    /// The contact manifold of two overlapping polygons: every vertex of
    /// each body is tested against every edge of the other; the globally
    /// nearest clamped projection is the first contact, and a distinct
    /// candidate within the squared-distance tolerance becomes the second.
    pub fn point_rec_to_rec(&self, shape: &Shape) -> (r: (Vec2, Vec2, i32))
        requires
            self.wf(),
            shape.wf(),
            self.vertices@.len() >= 1,
            shape.vertices@.len() >= 1,
        ensures
            ({
                let st = manifold_rec_rec(self.vertices@, self.pos, shape.vertices@, shape.pos);
                r.0 == st.1 && r.1 == st.2 && r.2 == st.3
            }),
            in_bound(r.0, 0x20000000),
            in_bound(r.1, 0x20000000),
            0 <= r.2 <= 2,
    {
        let st0: (i64, Vec2, Vec2, i32) = (i64::MAX, Vec2 { x: 0, y: 0 }, Vec2 { x: 0, y: 0 }, 0);
        let st1 = scan_points_exec(st0, &self.vertices, self.pos, &shape.vertices, shape.pos);
        let st2 = scan_points_exec(st1, &shape.vertices, shape.pos, &self.vertices, self.pos);
        (st2.1, st2.2, st2.3)
    }

    /// Contact-point dispatch by shape kind: one point for any pair with a
    /// circle, one or two for a polygon-polygon pair, with the count.
    pub fn contactpoint(&self, shape: &Shape) -> (r: (Vec2, Vec2, i32))
        requires
            self.wf(),
            shape.wf(),
        ensures
            r == contact_int(*self, *shape),
            in_bound(r.0, 0x20000000),
            in_bound(r.1, 0x20000000),
            0 <= r.2 <= 2,
    {
        match (&self.kind, &shape.kind) {
            (Bodys::Circle(ra), Bodys::Circle(_)) => {
                let p = self.point_cir_to_cir(*ra, shape);
                (p, Vec2 { x: 0, y: 0 }, 1)
            },
            (Bodys::Circle(_), _) => {
                let p = Shape::point_rec_to_cir(shape, self);
                (p, Vec2 { x: 0, y: 0 }, 1)
            },
            (_, Bodys::Circle(_)) => {
                let p = Shape::point_rec_to_cir(self, shape);
                (p, Vec2 { x: 0, y: 0 }, 1)
            },
            _ => self.point_rec_to_rec(shape),
        }
    }

    /// Rotate the stored vertex list in place by an angle in milliradians,
    /// reduced modulo a full turn; a circle holds no vertices and is
    /// unchanged. Everything else about the body is untouched.
    pub fn rotate(&mut self, angle: i64)
        requires
            old(self).wf(),
            angle != i64::MIN,
        ensures
            final(self).wf(),
            final(self).vertices@ == rotated_verts(old(self).vertices@, angle as int),
            final(self).kind == old(self).kind,
            final(self).pos == old(self).pos,
            final(self).vel == old(self).vel,
            final(self).ac == old(self).ac,
            final(self).force == old(self).force,
            final(self).rot == old(self).rot,
            final(self).rot_vel == old(self).rot_vel,
            final(self).mass == old(self).mass,
            final(self).restitution == old(self).restitution,
            final(self).area == old(self).area,
            final(self).is_static == old(self).is_static,
            final(self).movil == old(self).movil,
            final(self).inv_mass == old(self).inv_mass,
            final(self).aabb == old(self).aabb,
            final(self).inertia == old(self).inertia,
            final(self).inv_inertia == old(self).inv_inertia,
            final(self).static_friction == old(self).static_friction,
            final(self).dinaminc_friction == old(self).dinaminc_friction,
            final(self).h == old(self).h,
            final(self).w == old(self).w,
    {
        let th: i64 = crate::math::reduce_angle_fx(angle);
        let c = cos_fx(th);
        let s = sin_fx(th);
        let mut out: Vec<Vec2> = Vec::new();
        let mut i: usize = 0;
        while i < self.vertices.len()
            invariant
                0 <= i <= self.vertices@.len(),
                verts_in_world(self.vertices@),
                out@.len() == i,
                c == cos_at(crate::math::reduce_angle(angle as int)),
                s == sin_at(crate::math::reduce_angle(angle as int)),
                -SCALE <= c <= SCALE,
                -SCALE <= s <= SCALE,
                forall|j: int|
                    0 <= j < i ==> #[trigger] out@[j] == rot_vec_int(
                        self.vertices@[j],
                        c as int,
                        s as int,
                    ),
                forall|j: int| 0 <= j < i ==> in_bound(#[trigger] out@[j], WORLD as int),
            decreases self.vertices@.len() - i,
        {
            let v = rotate_vec(self.vertices[i], c, s);
            out.push(v);
            i = i + 1;
        }
        proof {
            assert(out@ =~= rotated_verts(self.vertices@, angle as int));
        }
        self.vertices = out;
    }

    /// Narrow-phase dispatch by shape kind. The returned normal points from
    /// this body toward the other; `pb` is the other body's center, which
    /// the circle-circle path reads.
    pub fn collision(&self, pb: Vec2, shape: &Shape) -> (r: (Vec2, i64))
        requires
            self.wf(),
            shape.wf(),
            in_bound(pb, WORLD as int),
        ensures
            r == collision_int(*self, pb, *shape),
            in_bound(r.0, SCALE as int),
            0 <= r.1 <= DEPTH_MAX,
    {
        match (&self.kind, &shape.kind) {
            (Bodys::Circle(ra), Bodys::Circle(rb)) => self.cir_to_cir(*ra, *rb, pb),
            (Bodys::Circle(_), _) => Shape::rec_to_cir(shape, self),
            (_, Bodys::Circle(_)) => {
                let (normal, depth) = Shape::rec_to_cir(self, shape);
                (normal.neg(), depth)
            },
            _ => self.rec_to_rec(shape),
        }
    }
}

} // verus!

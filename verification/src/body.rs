//! Bodies: shape kinds, derived quantities (area, inertia, bounding boxes)
//! and construction.
//!
//! All scalars are fixed-point milliunits (see `math`). A body's orientation
//! is implicit in its stored vertex list, which is rotated in place each tick
//! by the pending rotation delta; there is no separately retained angle.

use vstd::prelude::*;
use crate::math::{
    Vec2, SCALE, WORLD, TAU_FX, PI_FX, div_tz, clamp_int, rot_vec_int, in_bound, rotate_vec,
    div_q, mul_div, min_i, max_i, sin_fx, cos_fx, lemma_div_tz_bounds, lemma_mul_abs_le,
    lemma_mul_nonneg,
};

verus! {

/// Largest radius, width or height a shape may be built with (milliunits).
pub const DIM_MAX: i64 = 4000000;

/// Most sides a regular polygon may be built with. The cap bounds the
/// vertex count in every overflow argument the scans and manifolds rest on.
pub const MAX_SIDES: usize = 64;

/// Numerator for the inverse mass: `inv_mass = INV_MASS_NUM / mass`, so an
/// inverse mass carries a scale of one billion per unit mass. No
/// constructible dynamic mass reaches the numerator, so a dynamic body's
/// inverse mass is never zero.
pub const INV_MASS_NUM: i64 = 1000000000000;

/// Numerator for the inverse inertia: `inv_inertia = INV_INERTIA_NUM /
/// inertia`, a scale of one quadrillion per unit inertia.
pub const INV_INERTIA_NUM: i64 = 1000000000000000000;

/// Fixed-point pi times one thousand, for the circle area formula.
pub const PI_AREA: i64 = 3142;

/// Rejected construction parameters: a non-positive or oversized dimension,
/// a polygon with fewer than three (or too many) sides, or a shape so small
/// that its area or inertia vanishes at the fixed-point scale.
#[derive(Clone, Copy, PartialEq, Eq, Structural, Debug)]
pub enum ShapeError {
    InvalidShapeParameters,
}

/// The closed set of shape kinds: a circle by radius, a rectangle by width
/// and height, a regular polygon by circumradius and side count.
#[derive(Clone, Copy, PartialEq, Eq, Structural, Debug)]
pub enum Bodys {
    Circle(i64),
    Rec(i64, i64),
    Poly(i64, usize),
}

/// The dimensions lie in `[1, DIM_MAX]` and a polygon has between three and
/// `MAX_SIDES` sides.
pub open spec fn valid_dims(kind: Bodys) -> bool {
    match kind {
        Bodys::Circle(r) => 1 <= r <= DIM_MAX,
        Bodys::Rec(w, h) => 1 <= w <= DIM_MAX && 1 <= h <= DIM_MAX,
        Bodys::Poly(r, n) => 1 <= r <= DIM_MAX && 3 <= n <= MAX_SIDES,
    }
}

/// The area of a shape in milliunits: pi r^2 for a circle, w h for a
/// rectangle, and the closed regular-polygon formula n r^2 sin(tau/n) / 2,
/// each evaluated in fixed point.
pub open spec fn area_int(kind: Bodys) -> int {
    match kind {
        Bodys::Circle(r) => div_tz(div_tz(r * r, SCALE as int) * PI_AREA, SCALE as int),
        Bodys::Rec(w, h) => div_tz(w * h, SCALE as int),
        Bodys::Poly(r, n) => div_tz(
            div_tz(r * r, SCALE as int) * (n * sin_at(div_tz(TAU_FX as int, n as int))),
            2 * SCALE as int,
        ),
    }
}

/// The clamped sine polynomial at an angle, as the executable `sin_fx`
/// computes it.
pub open spec fn sin_at(theta: int) -> int {
    clamp_int(crate::math::sin_poly(theta), -SCALE as int, SCALE as int)
}

/// The clamped cosine polynomial at an angle, as the executable `cos_fx`
/// computes it.
pub open spec fn cos_at(theta: int) -> int {
    clamp_int(crate::math::cos_poly(theta), -SCALE as int, SCALE as int)
}

/// Vertex `k` of a regular polygon: the top vertex `(0, r)` rotated `k`
/// times by the step rotor `(c, s)`.
pub open spec fn poly_vertex(r: int, c: int, s: int, k: nat) -> Vec2
    decreases k,
{
    if k == 0 {
        Vec2 { x: 0, y: r as i64 }
    } else {
        rot_vec_int(poly_vertex(r, c, s, (k - 1) as nat), c, s)
    }
}

/// The local vertex list of a shape: empty for a circle, the four corners in
/// a fixed winding for a rectangle, and for a regular polygon the top vertex
/// carried around by the step rotor for the angle tau / n.
pub open spec fn local_vertices(kind: Bodys) -> Seq<Vec2> {
    match kind {
        Bodys::Circle(_) => Seq::empty(),
        Bodys::Rec(w, h) => seq![
            (Vec2 { x: (-div_tz(w as int, 2)) as i64, y: div_tz(h as int, 2) as i64 }),
            (Vec2 { x: div_tz(w as int, 2) as i64, y: div_tz(h as int, 2) as i64 }),
            (Vec2 { x: div_tz(w as int, 2) as i64, y: (-div_tz(h as int, 2)) as i64 }),
            (Vec2 { x: (-div_tz(w as int, 2)) as i64, y: (-div_tz(h as int, 2)) as i64 }),
        ],
        Bodys::Poly(r, n) => Seq::new(
            n as nat,
            |i: int|
                poly_vertex(
                    r as int,
                    cos_at(div_tz(TAU_FX as int, n as int)),
                    sin_at(div_tz(TAU_FX as int, n as int)),
                    i as nat,
                ),
        ),
    }
}

/// The largest of the `x` components of a non-empty vertex list.
pub open spec fn seq_max_x(s: Seq<Vec2>) -> int
    decreases s.len(),
{
    if s.len() <= 1 {
        s[0].x as int
    } else {
        let rest = seq_max_x(s.drop_last());
        if s.last().x > rest {
            s.last().x as int
        } else {
            rest
        }
    }
}

/// The smallest of the `x` components of a non-empty vertex list.
pub open spec fn seq_min_x(s: Seq<Vec2>) -> int
    decreases s.len(),
{
    if s.len() <= 1 {
        s[0].x as int
    } else {
        let rest = seq_min_x(s.drop_last());
        if s.last().x < rest {
            s.last().x as int
        } else {
            rest
        }
    }
}

/// The largest of the `y` components of a non-empty vertex list.
pub open spec fn seq_max_y(s: Seq<Vec2>) -> int
    decreases s.len(),
{
    if s.len() <= 1 {
        s[0].y as int
    } else {
        let rest = seq_max_y(s.drop_last());
        if s.last().y > rest {
            s.last().y as int
        } else {
            rest
        }
    }
}

/// The smallest of the `y` components of a non-empty vertex list.
pub open spec fn seq_min_y(s: Seq<Vec2>) -> int
    decreases s.len(),
{
    if s.len() <= 1 {
        s[0].y as int
    } else {
        let rest = seq_min_y(s.drop_last());
        if s.last().y < rest {
            s.last().y as int
        } else {
            rest
        }
    }
}

/// Every vertex of the list fits the world bound.
pub open spec fn verts_in_world(s: Seq<Vec2>) -> bool {
    forall|i: int| 0 <= i < s.len() ==> in_bound(#[trigger] s[i], WORLD as int)
}

impl Bodys {
    /// The area of the shape, in milliunits.
    pub fn area(&self) -> (r: i64)
        requires
            valid_dims(*self),
        ensures
            r == area_int(*self),
            -600000000000 <= r <= 600000000000,
    {
        match *self {
            Bodys::Circle(radius) => {
                proof {
                    lemma_mul_abs_le(radius as int, radius as int, DIM_MAX as int, DIM_MAX as int);
                    lemma_div_tz_bounds(radius * radius, SCALE as int);
                    lemma_mul_abs_le(
                        div_tz(radius * radius, SCALE as int),
                        PI_AREA as int,
                        0x4_0000_0000,
                        PI_AREA as int,
                    );
                    lemma_div_tz_bounds(
                        div_tz(radius * radius, SCALE as int) * PI_AREA,
                        SCALE as int,
                    );
                }
                let rr: i64 = mul_div(radius, radius, SCALE);
                mul_div(rr, PI_AREA, SCALE)
            },
            Bodys::Rec(w, h) => {
                proof {
                    lemma_mul_abs_le(w as int, h as int, DIM_MAX as int, DIM_MAX as int);
                    lemma_div_tz_bounds(w * h, SCALE as int);
                }
                mul_div(w, h, SCALE)
            },
            Bodys::Poly(radius, n) => {
                let step: i64 = div_q(TAU_FX, n as i64);
                proof {
                    lemma_div_tz_bounds(TAU_FX as int, n as int);
                    assert(step <= PI_FX) by (nonlinear_arith)
                        requires
                            step == div_tz(TAU_FX as int, n as int),
                            0 <= step,
                            n as int * step <= TAU_FX + n - 1,
                            3 <= n <= MAX_SIDES,
                    ;
                }
                let s: i64 = sin_fx(step);
                proof {
                    lemma_mul_abs_le(radius as int, radius as int, DIM_MAX as int, DIM_MAX as int);
                    lemma_div_tz_bounds(radius * radius, SCALE as int);
                    lemma_mul_abs_le(n as int, s as int, MAX_SIDES as int, SCALE as int);
                    lemma_mul_abs_le(
                        div_tz(radius * radius, SCALE as int),
                        (n * s as int),
                        0x4_0000_0000,
                        64000,
                    );
                    lemma_div_tz_bounds(
                        div_tz(radius * radius, SCALE as int) * (n * s as int),
                        2 * SCALE as int,
                    );
                }
                let rr: i64 = mul_div(radius, radius, SCALE);
                let ns: i64 = (n as i64) * s;
                mul_div(rr, ns, 2 * SCALE)
            },
        }
    }

    /// The local vertex list of the shape: empty for a circle, four corners
    /// for a rectangle, `n` rotor-generated vertices for a regular polygon.
    pub fn vertices(&self) -> (r: Vec<Vec2>)
        requires
            valid_dims(*self),
        ensures
            r@ == local_vertices(*self),
            verts_in_world(r@),
    {
        match *self {
            Bodys::Circle(_) => {
                let r: Vec<Vec2> = Vec::new();
                proof {
                    assert(r@ =~= local_vertices(*self));
                }
                r
            },
            Bodys::Rec(w, h) => {
                let hw: i64 = div_q(w, 2);
                let hh: i64 = div_q(h, 2);
                let mut r: Vec<Vec2> = Vec::new();
                r.push(Vec2 { x: -hw, y: hh });
                r.push(Vec2 { x: hw, y: hh });
                r.push(Vec2 { x: hw, y: -hh });
                r.push(Vec2 { x: -hw, y: -hh });
                proof {
                    assert(r@ =~= local_vertices(*self));
                }
                r
            },
            Bodys::Poly(radius, n) => {
                let step: i64 = div_q(TAU_FX, n as i64);
                proof {
                    lemma_div_tz_bounds(TAU_FX as int, n as int);
                    assert(step <= PI_FX) by (nonlinear_arith)
                        requires
                            step == div_tz(TAU_FX as int, n as int),
                            0 <= step,
                            n as int * step <= TAU_FX + n - 1,
                            3 <= n <= MAX_SIDES,
                    ;
                }
                let c: i64 = cos_fx(step);
                let s: i64 = sin_fx(step);
                let ghost ci = c as int;
                let ghost si = s as int;
                let mut r: Vec<Vec2> = Vec::new();
                let mut cur: Vec2 = Vec2 { x: 0, y: radius };
                r.push(cur);
                let mut k: usize = 1;
                while k < n
                    invariant
                        1 <= k <= n,
                        n <= MAX_SIDES,
                        valid_dims(Bodys::Poly(radius, n)),
                        r@.len() == k,
                        in_bound(cur, WORLD as int),
                        cur == poly_vertex(radius as int, ci, si, (k - 1) as nat),
                        ci == c as int,
                        si == s as int,
                        -SCALE <= c <= SCALE,
                        -SCALE <= s <= SCALE,
                        forall|i: int|
                            0 <= i < k ==> #[trigger] r@[i] == poly_vertex(
                                radius as int,
                                ci,
                                si,
                                i as nat,
                            ),
                        forall|i: int| 0 <= i < k ==> in_bound(#[trigger] r@[i], WORLD as int),
                    decreases n - k,
                {
                    cur = rotate_vec(cur, c, s);
                    proof {
                        assert(poly_vertex(radius as int, ci, si, k as nat) == rot_vec_int(
                            poly_vertex(radius as int, ci, si, (k - 1) as nat),
                            ci,
                            si,
                        ));
                    }
                    r.push(cur);
                    k = k + 1;
                }
                proof {
                    assert(r@ =~= local_vertices(*self));
                }
                r
            },
        }
    }

    /// The bounding extents (width, height) of a non-empty vertex list:
    /// the spread of the `x` and of the `y` components.
    pub fn size(verts: &Vec<Vec2>) -> (r: (i64, i64))
        requires
            verts@.len() >= 1,
            verts_in_world(verts@),
        ensures
            r.0 == seq_max_x(verts@) - seq_min_x(verts@),
            r.1 == seq_max_y(verts@) - seq_min_y(verts@),
            0 <= r.0 <= 2 * WORLD,
            0 <= r.1 <= 2 * WORLD,
    {
        let (maxx, minx, maxy, miny) = extremes(verts);
        (maxx - minx, maxy - miny)
    }
}

/// The four extremes of a non-empty vertex list: largest `x`, smallest `x`,
/// largest `y`, smallest `y`.
pub fn extremes(verts: &Vec<Vec2>) -> (r: (i64, i64, i64, i64))
    requires
        verts@.len() >= 1,
        verts_in_world(verts@),
    ensures
        r.0 == seq_max_x(verts@),
        r.1 == seq_min_x(verts@),
        r.2 == seq_max_y(verts@),
        r.3 == seq_min_y(verts@),
        -WORLD <= r.1 <= r.0 <= WORLD,
        -WORLD <= r.3 <= r.2 <= WORLD,
{
    let first = verts[0];
    let mut maxx: i64 = first.x;
    let mut minx: i64 = first.x;
    let mut maxy: i64 = first.y;
    let mut miny: i64 = first.y;
    let mut i: usize = 1;
    while i < verts.len()
        invariant
            1 <= i <= verts@.len(),
            verts_in_world(verts@),
            maxx == seq_max_x(verts@.take(i as int)),
            minx == seq_min_x(verts@.take(i as int)),
            maxy == seq_max_y(verts@.take(i as int)),
            miny == seq_min_y(verts@.take(i as int)),
            -WORLD <= minx <= maxx <= WORLD,
            -WORLD <= miny <= maxy <= WORLD,
        decreases verts@.len() - i,
    {
        let v = verts[i];
        proof {
            assert(verts@.take(i + 1).drop_last() =~= verts@.take(i as int));
            assert(verts@.take(i + 1).last() == verts@[i as int]);
        }
        maxx = max_i(maxx, v.x);
        minx = min_i(minx, v.x);
        maxy = max_i(maxy, v.y);
        miny = min_i(miny, v.y);
        i = i + 1;
    }
    proof {
        assert(verts@.take(verts@.len() as int) =~= verts@);
    }
    (maxx, minx, maxy, miny)
}

/// Largest magnitude the pending angular velocity may take (milliradians a
/// second): one hundred radians a second.
pub const ROT_MAX: i64 = 100000;

/// An axis-aligned bounding box, held as its two extreme corners.
#[derive(Clone, Copy, PartialEq, Eq, Structural, Debug)]
pub struct AABB {
    pub max: Vec2,
    pub min: Vec2,
}

impl AABB {
    /// Build a box from its four extreme coordinates.
    pub fn new(maxx: i64, maxy: i64, minx: i64, miny: i64) -> (r: AABB)
        ensures
            r == (AABB { max: Vec2 { x: maxx, y: maxy }, min: Vec2 { x: minx, y: miny } }),
    {
        AABB { max: Vec2 { x: maxx, y: maxy }, min: Vec2 { x: minx, y: miny } }
    }
}

/// The moment of inertia in milliunits: for a circle half the mass times the
/// squared radius; for a rectangle (and, as a deliberate approximation, for
/// a regular polygon via its cached bounding extents `pw`, `ph`) one twelfth
/// of the mass times the sum of squared extents.
pub open spec fn inertia_int(kind: Bodys, mass: int, pw: int, ph: int) -> int {
    match kind {
        Bodys::Circle(r) => div_tz(mass * div_tz(r * r, 2 * SCALE as int), SCALE as int),
        Bodys::Rec(w, h) => div_tz(
            mass * (div_tz(w * w, 12 * SCALE as int) + div_tz(h * h, 12 * SCALE as int)),
            SCALE as int,
        ),
        Bodys::Poly(_, _) => div_tz(
            mass * (div_tz(pw * pw, 12 * SCALE as int) + div_tz(ph * ph, 12 * SCALE as int)),
            SCALE as int,
        ),
    }
}

/// The bounding-extent pair a shape caches: the spread of its local
/// vertices for a polygon, zero otherwise (the rectangle reads its own
/// dimensions, the circle its radius).
pub open spec fn cached_extents(kind: Bodys) -> (int, int) {
    match kind {
        Bodys::Poly(_, _) => (
            seq_max_x(local_vertices(kind)) - seq_min_x(local_vertices(kind)),
            seq_max_y(local_vertices(kind)) - seq_min_y(local_vertices(kind)),
        ),
        _ => (0, 0),
    }
}

/// A rigid body: a shape kind, kinematic state, mass data and the derived
/// quantities the solver reads. Orientation lives in the vertex list.
pub struct Shape {
    pub kind: Bodys,
    pub pos: Vec2,
    pub vel: Vec2,
    pub ac: Vec2,
    pub rot: i64,
    pub rot_vel: i64,
    pub mass: i64,
    pub restitution: i64,
    pub area: i64,
    pub is_static: bool,
    pub movil: bool,
    pub vertices: Vec<Vec2>,
    pub force: Vec2,
    pub inv_mass: i64,
    pub aabb: AABB,
    pub inertia: i64,
    pub inv_inertia: i64,
    pub static_friction: i64,
    pub dinaminc_friction: i64,
    pub h: i64,
    pub w: i64,
}

impl Shape {
    /// Well-formedness: every scalar within the bounds the engine's
    /// arithmetic needs, the vertex list shaped by the kind, and the inverse
    /// mass and inertia exactly zero for a static body and exactly the
    /// fixed-point inverses otherwise.
    pub open spec fn wf(self) -> bool {
        &&& valid_dims(self.kind)
        &&& in_bound(self.pos, WORLD as int)
        &&& in_bound(self.vel, WORLD as int)
        &&& in_bound(self.ac, WORLD as int)
        &&& in_bound(self.force, 0x4_0000_0000_0000)
        &&& -TAU_FX <= self.rot <= TAU_FX
        &&& -ROT_MAX <= self.rot_vel <= ROT_MAX
        &&& 1 <= self.mass <= 100000000000
        &&& 0 <= self.restitution <= SCALE
        &&& 0 <= self.static_friction <= SCALE
        &&& 0 <= self.dinaminc_friction <= SCALE
        &&& 1 <= self.inertia <= 1000000000000000000
        &&& self.inv_mass == (if self.is_static {
            0
        } else {
            div_tz(INV_MASS_NUM as int, self.mass as int)
        })
        &&& self.inv_inertia == (if self.is_static {
            0
        } else {
            div_tz(INV_INERTIA_NUM as int, self.inertia as int)
        })
        &&& (self.kind matches Bodys::Circle(_) ==> self.vertices@.len() == 0)
        &&& (self.kind matches Bodys::Rec(_, _) ==> self.vertices@.len() == 4)
        &&& (self.kind matches Bodys::Poly(_, n) ==> self.vertices@.len() == n)
        &&& verts_in_world(self.vertices@)
        &&& 0 <= self.w <= 16000000
        &&& 0 <= self.h <= 16000000
    }

    /// The axis-aligned bounding box a body has right now: the circle's
    /// center offset by its radius, or the extremes of the translated
    /// vertex list.
    pub open spec fn aabb_int(self) -> AABB {
        match self.kind {
            Bodys::Circle(r) => AABB {
                max: Vec2 { x: (self.pos.x + r) as i64, y: (self.pos.y + r) as i64 },
                min: Vec2 { x: (self.pos.x - r) as i64, y: (self.pos.y - r) as i64 },
            },
            _ => AABB {
                max: Vec2 {
                    x: (seq_max_x(self.vertices@) + self.pos.x) as i64,
                    y: (seq_max_y(self.vertices@) + self.pos.y) as i64,
                },
                min: Vec2 {
                    x: (seq_min_x(self.vertices@) + self.pos.x) as i64,
                    y: (seq_min_y(self.vertices@) + self.pos.y) as i64,
                },
            },
        }
    }

    /// Recompute the bounding box from the live vertex and position data.
    /// Only the geometric state matters: the kind's dimensions, the
    /// position and the vertex list; the mass data need not be consistent.
    pub fn get_aabb(&self) -> (r: AABB)
        requires
            valid_dims(self.kind),
            in_bound(self.pos, WORLD as int),
            verts_in_world(self.vertices@),
            !(self.kind matches Bodys::Circle(_)) ==> self.vertices@.len() >= 1,
        ensures
            r == self.aabb_int(),
            in_bound(r.max, 2 * WORLD as int),
            in_bound(r.min, 2 * WORLD as int),
            r.min.x <= r.max.x,
            r.min.y <= r.max.y,
    {
        match self.kind {
            Bodys::Circle(r) => AABB::new(
                self.pos.x + r,
                self.pos.y + r,
                self.pos.x - r,
                self.pos.y - r,
            ),
            _ => {
                let (maxx, minx, maxy, miny) = extremes(&self.vertices);
                AABB::new(maxx + self.pos.x, maxy + self.pos.y, minx + self.pos.x, miny
                    + self.pos.y)
            },
        }
    }

    /// The moment of inertia from the shape kind, mass and cached extents.
    pub fn get_inertia(&self) -> (r: i64)
        requires
            valid_dims(self.kind),
            1 <= self.mass <= 100000000000,
            0 <= self.w <= 16000000,
            0 <= self.h <= 16000000,
        ensures
            r == inertia_int(self.kind, self.mass as int, self.w as int, self.h as int),
            0 <= r <= 5000000000000000000,
    {
        match self.kind {
            Bodys::Circle(radius) => {
                proof {
                    lemma_mul_abs_le(radius as int, radius as int, DIM_MAX as int, DIM_MAX as int);
                    lemma_mul_nonneg(radius as int, radius as int);
                    lemma_div_tz_bounds(radius * radius, 2 * SCALE as int);
                    lemma_mul_nonneg(self.mass as int, div_tz(radius * radius, 2 * SCALE as int));
                    lemma_mul_abs_le(
                        self.mass as int,
                        div_tz(radius * radius, 2 * SCALE as int),
                        100000000000,
                        0x2_0000_0000,
                    );
                    lemma_div_tz_bounds(
                        self.mass * div_tz(radius * radius, 2 * SCALE as int),
                        SCALE as int,
                    );
                }
                let rr: i64 = mul_div(radius, radius, 2 * SCALE);
                mul_div(self.mass, rr, SCALE)
            },
            Bodys::Rec(w, h) => {
                proof {
                    lemma_mul_abs_le(w as int, w as int, DIM_MAX as int, DIM_MAX as int);
                    lemma_mul_abs_le(h as int, h as int, DIM_MAX as int, DIM_MAX as int);
                    lemma_mul_nonneg(w as int, w as int);
                    lemma_mul_nonneg(h as int, h as int);
                    lemma_div_tz_bounds(w * w, 12 * SCALE as int);
                    lemma_div_tz_bounds(h * h, 12 * SCALE as int);
                    lemma_mul_nonneg(
                        self.mass as int,
                        div_tz(w * w, 12 * SCALE as int) + div_tz(h * h, 12 * SCALE as int),
                    );
                    lemma_mul_abs_le(
                        self.mass as int,
                        div_tz(w * w, 12 * SCALE as int) + div_tz(h * h, 12 * SCALE as int),
                        100000000000,
                        0x1_0000_0000,
                    );
                    lemma_div_tz_bounds(
                        self.mass * (div_tz(w * w, 12 * SCALE as int) + div_tz(
                            h * h,
                            12 * SCALE as int,
                        )),
                        SCALE as int,
                    );
                }
                let a: i64 = mul_div(w, w, 12 * SCALE);
                let b: i64 = mul_div(h, h, 12 * SCALE);
                mul_div(self.mass, a + b, SCALE)
            },
            Bodys::Poly(_, _) => {
                proof {
                    lemma_mul_abs_le(self.w as int, self.w as int, 16000000, 16000000);
                    lemma_mul_abs_le(self.h as int, self.h as int, 16000000, 16000000);
                    lemma_mul_nonneg(self.w as int, self.w as int);
                    lemma_mul_nonneg(self.h as int, self.h as int);
                    lemma_div_tz_bounds(self.w * self.w, 12 * SCALE as int);
                    lemma_div_tz_bounds(self.h * self.h, 12 * SCALE as int);
                    lemma_mul_nonneg(
                        self.mass as int,
                        div_tz(self.w * self.w, 12 * SCALE as int) + div_tz(
                            self.h * self.h,
                            12 * SCALE as int,
                        ),
                    );
                    lemma_mul_abs_le(
                        self.mass as int,
                        div_tz(self.w * self.w, 12 * SCALE as int) + div_tz(
                            self.h * self.h,
                            12 * SCALE as int,
                        ),
                        100000000000,
                        42700000000,
                    );
                    lemma_div_tz_bounds(
                        self.mass * (div_tz(self.w * self.w, 12 * SCALE as int) + div_tz(
                            self.h * self.h,
                            12 * SCALE as int,
                        )),
                        SCALE as int,
                    );
                }
                let a: i64 = mul_div(self.w, self.w, 12 * SCALE);
                let b: i64 = mul_div(self.h, self.h, 12 * SCALE);
                mul_div(self.mass, a + b, SCALE)
            },
        }
    }
}

/// A kind can be built into a body: its dimensions are valid and neither its
/// area nor its moment of inertia vanishes (or, for the inertia, overflows)
/// at the fixed-point scale.
pub open spec fn constructible(kind: Bodys) -> bool {
    &&& valid_dims(kind)
    &&& 1 <= area_int(kind) <= 100000000000
    &&& 0 <= cached_extents(kind).0 <= 16000000
    &&& 0 <= cached_extents(kind).1 <= 16000000
    &&& 1 <= inertia_int(kind, area_int(kind), cached_extents(kind).0, cached_extents(kind).1)
        <= 1000000000000000000
}

/// Build a body from a shape kind, an initial position and the mobility and
/// static flags. The mass is the area; the derived quantities (inverse
/// mass and inertia, bounding box, default restitution and friction) are
/// computed here, and a body is never constructed in an invalid state.
pub fn create_shape(shape: Bodys, pos: Vec2, movil: bool, stat: bool) -> (r: Result<
    Shape,
    ShapeError,
>)
    requires
        in_bound(pos, WORLD as int),
    ensures
        r is Ok <==> constructible(shape),
        r is Err ==> r == Result::<Shape, ShapeError>::Err(ShapeError::InvalidShapeParameters),
        r is Ok ==> ({
            let b = r.unwrap();
            &&& b.wf()
            &&& b.kind == shape
            &&& b.pos == pos
            &&& b.vel == (Vec2 { x: 0, y: 0 })
            &&& b.ac == (Vec2 { x: 0, y: 0 })
            &&& b.force == (Vec2 { x: 0, y: 0 })
            &&& b.rot == 0
            &&& b.rot_vel == 0
            &&& b.mass == area_int(shape)
            &&& b.area == area_int(shape)
            &&& b.restitution == 50
            &&& b.static_friction == 600
            &&& b.dinaminc_friction == 400
            &&& b.is_static == stat
            &&& b.movil == movil
            &&& b.vertices@ == local_vertices(shape)
            &&& b.w == cached_extents(shape).0
            &&& b.h == cached_extents(shape).1
            &&& b.inertia == inertia_int(shape, area_int(shape), b.w as int, b.h as int)
            &&& b.inv_mass == (if stat {
                0int
            } else {
                div_tz(INV_MASS_NUM as int, area_int(shape))
            })
            &&& b.inv_inertia == (if stat {
                0int
            } else {
                div_tz(INV_INERTIA_NUM as int, b.inertia as int)
            })
            &&& b.aabb == b.aabb_int()
        }),
{
    let ok_dims: bool = match shape {
        Bodys::Circle(r) => 1 <= r && r <= DIM_MAX,
        Bodys::Rec(w, h) => 1 <= w && w <= DIM_MAX && 1 <= h && h <= DIM_MAX,
        Bodys::Poly(r, n) => 1 <= r && r <= DIM_MAX && 3 <= n && n <= MAX_SIDES,
    };
    if !ok_dims {
        return Err(ShapeError::InvalidShapeParameters);
    }
    let verts = shape.vertices();
    let mass = shape.area();
    if mass < 1 || mass > 100000000000 {
        return Err(ShapeError::InvalidShapeParameters);
    }
    let (w, h) = match shape {
        Bodys::Poly(_, _) => Bodys::size(&verts),
        _ => (0i64, 0i64),
    };
    if w > 16000000 || h > 16000000 {
        return Err(ShapeError::InvalidShapeParameters);
    }
    let mut s = Shape {
        kind: shape,
        pos,
        vel: Vec2 { x: 0, y: 0 },
        ac: Vec2 { x: 0, y: 0 },
        rot: 0,
        rot_vel: 0,
        mass,
        restitution: 50,
        area: mass,
        is_static: stat,
        movil,
        vertices: verts,
        force: Vec2 { x: 0, y: 0 },
        inv_mass: 0,
        aabb: AABB { max: Vec2 { x: 0, y: 0 }, min: Vec2 { x: 0, y: 0 } },
        inertia: 1,
        inv_inertia: 0,
        static_friction: 600,
        dinaminc_friction: 400,
        h,
        w,
    };
    let inertia = s.get_inertia();
    if inertia < 1 || inertia > 1000000000000000000 {
        return Err(ShapeError::InvalidShapeParameters);
    }
    s.inertia = inertia;
    if !stat {
        s.inv_mass = div_q(INV_MASS_NUM, mass);
        s.inv_inertia = div_q(INV_INERTIA_NUM, inertia);
    }
    proof {
        lemma_div_tz_bounds(INV_MASS_NUM as int, mass as int);
        lemma_div_tz_bounds(INV_INERTIA_NUM as int, inertia as int);
    }
    s.aabb = s.get_aabb();
    Ok(s)
}

/// Build a body as `create_shape` does and start it under gravity: the
/// acceleration accumulator is set to minus one hundred ninety-six units a
/// second squared on the `y` axis.
pub fn create_body(shape: Bodys, pos: Vec2, movil: bool, stat: bool) -> (r: Result<
    Shape,
    ShapeError,
>)
    requires
        in_bound(pos, WORLD as int),
    ensures
        r is Ok <==> constructible(shape),
        r is Err ==> r == Result::<Shape, ShapeError>::Err(ShapeError::InvalidShapeParameters),
        r is Ok ==> ({
            let b = r.unwrap();
            &&& b.wf()
            &&& b.ac == (Vec2 { x: 0i64, y: -196000i64 })
            &&& b.kind == shape
            &&& b.pos == pos
            &&& b.vel == (Vec2 { x: 0, y: 0 })
            &&& b.force == (Vec2 { x: 0, y: 0 })
            &&& b.rot == 0
            &&& b.rot_vel == 0
            &&& b.is_static == stat
            &&& b.movil == movil
            &&& b.mass == area_int(shape)
            &&& b.area == area_int(shape)
            &&& b.restitution == 50
            &&& b.static_friction == 600
            &&& b.dinaminc_friction == 400
            &&& b.vertices@ == local_vertices(shape)
            &&& b.w == cached_extents(shape).0
            &&& b.h == cached_extents(shape).1
            &&& b.inertia == inertia_int(shape, area_int(shape), b.w as int, b.h as int)
            &&& b.inv_mass == (if stat {
                0int
            } else {
                div_tz(INV_MASS_NUM as int, area_int(shape))
            })
            &&& b.inv_inertia == (if stat {
                0int
            } else {
                div_tz(INV_INERTIA_NUM as int, b.inertia as int)
            })
            &&& b.aabb == b.aabb_int()
        }),
{
    match create_shape(shape, pos, movil, stat) {
        Ok(mut s) => {
            s.ac = Vec2 { x: 0, y: -196000 };
            Ok(s)
        },
        Err(e) => Err(e),
    }
}

impl core::default::Default for Shape {
    /// A placeholder body: a one-unit mass circle of twenty units radius
    /// with no derived quantities filled in. It is not well-formed;
    /// `create_shape` is the constructor that builds a usable body.
    fn default() -> (r: Shape)
        ensures
            r.kind == Bodys::Circle(20000),
            r.pos == (Vec2 { x: 0, y: 0 }),
            r.vel == (Vec2 { x: 0, y: 0 }),
            r.ac == (Vec2 { x: 0, y: 0 }),
            r.force == (Vec2 { x: 0, y: 0 }),
            r.rot == 0,
            r.rot_vel == 0,
            r.mass == 1000,
            r.restitution == 1000,
            r.area == 0,
            r.is_static == false,
            r.movil == true,
            r.vertices@.len() == 0,
            r.inv_mass == 0,
            r.inertia == 0,
            r.inv_inertia == 0,
            r.static_friction == 600,
            r.dinaminc_friction == 400,
            r.h == 0,
            r.w == 0,
    {
        Shape {
            kind: Bodys::Circle(20000),
            pos: Vec2 { x: 0, y: 0 },
            vel: Vec2 { x: 0, y: 0 },
            ac: Vec2 { x: 0, y: 0 },
            rot: 0,
            rot_vel: 0,
            mass: 1000,
            restitution: 1000,
            area: 0,
            is_static: false,
            movil: true,
            vertices: Vec::new(),
            force: Vec2 { x: 0, y: 0 },
            inv_mass: 0,
            aabb: AABB { max: Vec2 { x: 0, y: 0 }, min: Vec2 { x: 0, y: 0 } },
            inertia: 0,
            inv_inertia: 0,
            static_friction: 600,
            dinaminc_friction: 400,
            h: 0,
            w: 0,
        }
    }
}

} // verus!

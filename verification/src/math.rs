//! Fixed-point scalar and vector arithmetic for the engine.
//!
//! A scalar is an `i64` holding one thousand times its value (milliunits),
//! so `SCALE` stands for one unit. Every coordinate the engine works with is
//! kept inside `[-WORLD, WORLD]`, which leaves room for the products that
//! projections and impulse formulas build.

use vstd::prelude::*;

verus! {

/// One unit, in milliunits: the fixed-point scale of every scalar.
pub const SCALE: i64 = 1000;

/// Bound on every coordinate, velocity component and radius (milliunits).
pub const WORLD: i64 = 0x10000000;

/// Truncating division (the quotient is rounded toward zero), for a positive
/// divisor. On non-negative dividends it agrees with Euclidean division.
pub open spec fn div_tz(a: int, b: int) -> int {
    if a >= 0 {
        a / b
    } else {
        -((-a) / b)
    }
}

/// A 2D vector of fixed-point scalars.
#[derive(Clone, Copy, PartialEq, Eq, Structural, Debug)]
pub struct Vec2 {
    pub x: i64,
    pub y: i64,
}

/// Dot product over the mathematical integers.
pub open spec fn dot_int(a: Vec2, b: Vec2) -> int {
    a.x * b.x + a.y * b.y
}

/// Perpendicular (z component of the 3D cross product) over the integers.
pub open spec fn cross_int(a: Vec2, b: Vec2) -> int {
    a.x * b.y - a.y * b.x
}

/// Both components lie within `bound`.
pub open spec fn in_bound(v: Vec2, bound: int) -> bool {
    -bound <= v.x <= bound && -bound <= v.y <= bound
}

impl Vec2 {
    /// A vector from its two components.
    pub fn new(x: i64, y: i64) -> (r: Vec2)
        ensures
            r == (Vec2 { x, y }),
    {
        Vec2 { x, y }
    }

    /// Component-wise sum.
    pub fn plus(self, o: Vec2) -> (r: Vec2)
        requires
            i64::MIN <= self.x + o.x <= i64::MAX,
            i64::MIN <= self.y + o.y <= i64::MAX,
        ensures
            r.x == self.x + o.x,
            r.y == self.y + o.y,
    {
        Vec2 { x: self.x + o.x, y: self.y + o.y }
    }

    /// Component-wise difference.
    pub fn minus(self, o: Vec2) -> (r: Vec2)
        requires
            i64::MIN <= self.x - o.x <= i64::MAX,
            i64::MIN <= self.y - o.y <= i64::MAX,
        ensures
            r.x == self.x - o.x,
            r.y == self.y - o.y,
    {
        Vec2 { x: self.x - o.x, y: self.y - o.y }
    }

    /// Negation.
    pub fn neg(self) -> (r: Vec2)
        requires
            self.x != i64::MIN,
            self.y != i64::MIN,
        ensures
            r.x == -self.x,
            r.y == -self.y,
    {
        Vec2 { x: -self.x, y: -self.y }
    }

    /// The left perpendicular `(-y, x)`.
    pub fn perp(self) -> (r: Vec2)
        requires
            self.y != i64::MIN,
        ensures
            r.x == -self.y,
            r.y == self.x,
    {
        Vec2 { x: -self.y, y: self.x }
    }

    /// Dot product; the intermediate runs in 128 bits, so only the result
    /// must fit.
    pub fn dotp(self, o: Vec2) -> (r: i64)
        requires
            in_bound(self, 0x4000_0000_0000_0000),
            in_bound(o, 0x4000_0000_0000_0000),
            i64::MIN <= dot_int(self, o) <= i64::MAX,
        ensures
            r == dot_int(self, o),
    {
        proof {
            lemma_mul_abs_le(self.x as int, o.x as int, 0x4000_0000_0000_0000, 0x4000_0000_0000_0000);
            lemma_mul_abs_le(self.y as int, o.y as int, 0x4000_0000_0000_0000, 0x4000_0000_0000_0000);
        }
        let p: i128 = (self.x as i128) * (o.x as i128) + (self.y as i128) * (o.y as i128);
        p as i64
    }

}

/// Truncating division of `a` by a positive `b`.
pub fn div_q(a: i64, b: i64) -> (r: i64)
    requires
        b >= 1,
        a != i64::MIN,
    ensures
        r == div_tz(a as int, b as int),
        -(if a >= 0 { a as int } else { -a as int }) <= r <= (if a >= 0 { a as int } else { -a as int }),
{
    proof {
        lemma_div_tz_bounds(a as int, b as int);
    }
    if a >= 0 {
        a / b
    } else {
        -((-a) / b)
    }
}

/// `|q| <= |a| / b <= |a|` for truncating division by a positive divisor.
pub proof fn lemma_div_tz_bounds(a: int, b: int)
    requires
        b >= 1,
    ensures
        a >= 0 ==> 0 <= div_tz(a, b) <= a,
        a < 0 ==> a <= div_tz(a, b) <= 0,
        b * div_tz(a, b) <= a + b - 1,
        a - b + 1 <= b * div_tz(a, b),
        a >= 0 ==> b * div_tz(a, b) <= a,
        a < 0 ==> a <= b * div_tz(a, b),
{
    if a >= 0 {
        assert(0 <= a / b <= a && b * (a / b) <= a && a < b * (a / b) + b) by (nonlinear_arith)
            requires
                a >= 0,
                b >= 1,
        ;
    } else {
        let m = -a;
        assert(0 <= m / b <= m && b * (m / b) <= m && m < b * (m / b) + b) by (nonlinear_arith)
            requires
                m > 0,
                b >= 1,
        ;
        assert(div_tz(a, b) == -(m / b));
        assert(b * div_tz(a, b) == -(b * (m / b))) by (nonlinear_arith)
            requires
                div_tz(a, b) == -(m / b),
        ;
        assert(-(b * (m / b)) >= -m);
        assert(-(b * (m / b)) < b - m);
    }
}

/// Truncating division is odd in its dividend: negating the dividend
/// negates the quotient.
pub proof fn lemma_div_tz_neg(a: int, b: int)
    requires
        b >= 1,
    ensures
        div_tz(-a, b) == -div_tz(a, b),
{
}

/// An angle folded into one turn and then into `[-PI_FX, PI_FX]`: the
/// truncating remainder by a full turn, shifted by a turn when it lands
/// beyond half a turn either way.
pub open spec fn reduce_angle(angle: int) -> int {
    let m = angle - div_tz(angle, TAU_FX as int) * TAU_FX;
    if m > PI_FX {
        m - TAU_FX
    } else if m < -PI_FX {
        m + TAU_FX
    } else {
        m
    }
}

/// Fold an angle into `[-PI_FX, PI_FX]` (executable form).
pub fn reduce_angle_fx(angle: i64) -> (r: i64)
    requires
        angle != i64::MIN,
    ensures
        r == reduce_angle(angle as int),
        -PI_FX <= r <= PI_FX,
{
    proof {
        lemma_div_tz_bounds(angle as int, TAU_FX as int);
    }
    let q = div_q(angle, TAU_FX);
    let m = angle - q * TAU_FX;
    if m > PI_FX {
        m - TAU_FX
    } else if m < -PI_FX {
        m + TAU_FX
    } else {
        m
    }
}

/// `(a * b) / c` with truncation toward zero, the product carried in 128 bits.
pub fn mul_div(a: i64, b: i64, c: i64) -> (r: i64)
    requires
        c >= 1,
        i64::MIN < div_tz(a * b, c as int) < i64::MAX,
    ensures
        r == div_tz(a * b, c as int),
{
    proof {
        lemma_mul_abs_le(a as int, b as int, 0x8000_0000_0000_0000, 0x8000_0000_0000_0000);
    }
    let p: i128 = (a as i128) * (b as i128);
    proof {
        lemma_div_tz_bounds(p as int, c as int);
    }
    let q: i128 = if p >= 0 {
        p / (c as i128)
    } else {
        -((-p) / (c as i128))
    };
    q as i64
}

/// `|a|` for any `a` above `i64::MIN`.
pub fn abs_i(a: i64) -> (r: i64)
    requires
        a != i64::MIN,
    ensures
        r == (if a >= 0 { a as int } else { -a as int }),
        r >= 0,
{
    if a >= 0 {
        a
    } else {
        -a
    }
}

/// The smaller of two scalars.
pub fn min_i(a: i64, b: i64) -> (r: i64)
    ensures
        r == (if a <= b { a } else { b }),
{
    if a <= b {
        a
    } else {
        b
    }
}

/// The larger of two scalars.
pub fn max_i(a: i64, b: i64) -> (r: i64)
    ensures
        r == (if a >= b { a } else { b }),
{
    if a >= b {
        a
    } else {
        b
    }
}

/// The integer square root over the mathematical integers: the greatest
/// `r` with `r * r <= n` (zero for a non-positive argument).
pub open spec fn isqrt_int(n: int) -> int
    decreases (if n >= 0 {
        n
    } else {
        0
    }),
{
    if n <= 0 {
        0
    } else {
        let p = isqrt_int(n - 1);
        if (p + 1) * (p + 1) <= n {
            p + 1
        } else {
            p
        }
    }
}

/// `isqrt_int(n)` is the floor of the square root of `n`.
pub proof fn lemma_isqrt_int(n: int)
    requires
        n >= 0,
    ensures
        isqrt_int(n) >= 0,
        isqrt_int(n) * isqrt_int(n) <= n,
        n < (isqrt_int(n) + 1) * (isqrt_int(n) + 1),
    decreases n,
{
    if n == 0 {
    } else {
        lemma_isqrt_int(n - 1);
        let p = isqrt_int(n - 1);
        if (p + 1) * (p + 1) <= n {
            assert(n < (p + 2) * (p + 2)) by (nonlinear_arith)
                requires
                    p >= 0,
                    n - 1 < (p + 1) * (p + 1),
                    (p + 1) * (p + 1) <= n,
            ;
        }
    }
}

/// The integer square root: the greatest `r` with `r * r <= n`.
pub fn isqrt(n: i64) -> (r: i64)
    requires
        0 <= n < 0x4000_0000_0000_0000,
    ensures
        0 <= r,
        r == isqrt_int(n as int),
        r * r <= n,
        n < (r + 1) * (r + 1),
{
    let mut lo: i64 = 0;
    let mut hi: i64 = n + 1;
    if hi > 0x80000000 {
        hi = 0x80000000;
    }
    proof {
        assert(n < hi * hi) by (nonlinear_arith)
            requires
                0 <= n < 0x4000_0000_0000_0000,
                hi == (if n + 1 > 0x80000000 { 0x80000000int } else { n + 1 }),
        ;
    }
    while lo + 1 < hi
        invariant
            0 <= lo < hi <= 0x80000000,
            lo * lo <= n,
            n < hi * hi,
        decreases hi - lo,
    {
        let mid: i64 = lo + (hi - lo) / 2;
        proof {
            assert(lo < mid < hi);
            lemma_mul_abs_le(mid as int, mid as int, 0x80000000, 0x80000000);
        }
        if (mid as i128) * (mid as i128) <= n as i128 {
            lo = mid;
        } else {
            hi = mid;
        }
    }
    proof {
        lemma_isqrt_int(n as int);
        let q = isqrt_int(n as int);
        assert(lo == q) by (nonlinear_arith)
            requires
                lo >= 0,
                q >= 0,
                lo * lo <= n < (lo + 1) * (lo + 1),
                q * q <= n < (q + 1) * (q + 1),
        ;
    }
    lo
}

/// Half a turn in milliradians; the trigonometric helpers take angles in
/// `[-PI_FX, PI_FX]`.
pub const PI_FX: i64 = 3142;

/// A full turn in milliradians.
pub const TAU_FX: i64 = 6283;

/// Clamp into `[lo, hi]`.
pub open spec fn clamp_int(v: int, lo: int, hi: int) -> int {
    if v < lo {
        lo
    } else if v > hi {
        hi
    } else {
        v
    }
}

/// The Maclaurin polynomial for cosine, degree eight, in milliunits, before
/// clamping. The angle is in milliradians.
pub open spec fn cos_poly(theta: int) -> int {
    let t2 = theta * theta;
    let t4 = t2 * t2;
    let t6 = t4 * t2;
    let t8 = t4 * t4;
    1000 - t2 / 2000 + t4 / 24000000000 - t6 / 720000000000000000 + t8
        / 40320000000000000000000000
}

/// The Maclaurin polynomial for sine, degree seven, in milliunits, before
/// clamping; odd, so it is evaluated on the magnitude and signed afterwards.
pub open spec fn sin_poly(theta: int) -> int {
    let m = if theta >= 0 {
        theta
    } else {
        -theta
    };
    let t2 = m * m;
    let t3 = t2 * m;
    let t5 = t3 * t2;
    let t7 = t5 * t2;
    let p = m - t3 / 6000000 + t5 / 120000000000000 - t7 / 5040000000000000000000;
    if theta >= 0 {
        p
    } else {
        -p
    }
}

/// Cosine of an angle in milliradians, in milliunits: the degree-eight
/// Maclaurin polynomial, clamped into `[-SCALE, SCALE]`.
pub fn cos_fx(theta: i64) -> (r: i64)
    requires
        -PI_FX <= theta <= PI_FX,
    ensures
        r == clamp_int(cos_poly(theta as int), -SCALE as int, SCALE as int),
        -SCALE <= r <= SCALE,
{
    proof {
        lemma_mul_abs_le(theta as int, theta as int, 3142, 3142);
        let t2 = (theta as int) * (theta as int);
        lemma_mul_abs_le(t2, t2, 10000000, 10000000);
        let t4 = t2 * t2;
        lemma_mul_abs_le(t4, t2, 100000000000000, 10000000);
        lemma_mul_abs_le(t4, t4, 100000000000000, 100000000000000);
        assert(t2 >= 0 && t4 >= 0 && t4 * t2 >= 0 && t4 * t4 >= 0) by (nonlinear_arith)
            requires
                t2 == (theta as int) * (theta as int),
                t4 == t2 * t2,
        ;
    }
    let t2: i128 = (theta as i128) * (theta as i128);
    let t4: i128 = t2 * t2;
    let t6: i128 = t4 * t2;
    let t8: i128 = t4 * t4;
    let raw: i128 = 1000 - t2 / 2000 + t4 / 24000000000 - t6 / 720000000000000000 + t8
        / 40320000000000000000000000;
    if raw < -1000 {
        -1000
    } else if raw > 1000 {
        1000
    } else {
        raw as i64
    }
}

/// Sine of an angle in milliradians, in milliunits: the degree-seven
/// Maclaurin polynomial, clamped into `[-SCALE, SCALE]`.
pub fn sin_fx(theta: i64) -> (r: i64)
    requires
        -PI_FX <= theta <= PI_FX,
    ensures
        r == clamp_int(sin_poly(theta as int), -SCALE as int, SCALE as int),
        -SCALE <= r <= SCALE,
{
    let m: i64 = abs_i(theta);
    proof {
        lemma_mul_abs_le(m as int, m as int, 3142, 3142);
        let t2 = (m as int) * (m as int);
        lemma_mul_abs_le(t2, m as int, 10000000, 3142);
        let t3 = t2 * (m as int);
        lemma_mul_abs_le(t3, t2, 31420000000, 10000000);
        let t5 = t3 * t2;
        lemma_mul_abs_le(t5, t2, 314200000000000000, 10000000);
        assert(t2 >= 0 && t3 >= 0 && t5 >= 0 && t5 * t2 >= 0) by (nonlinear_arith)
            requires
                t2 == (m as int) * (m as int),
                t3 == t2 * (m as int),
                t5 == t3 * t2,
                m >= 0,
        ;
    }
    let t2: i128 = (m as i128) * (m as i128);
    let t3: i128 = t2 * (m as i128);
    let t5: i128 = t3 * t2;
    let t7: i128 = t5 * t2;
    let p: i128 = (m as i128) - t3 / 6000000 + t5 / 120000000000000 - t7
        / 5040000000000000000000;
    let raw: i128 = if theta >= 0 {
        p
    } else {
        -p
    };
    if raw < -1000 {
        -1000
    } else if raw > 1000 {
        1000
    } else {
        raw as i64
    }
}

/// Rotation of `v` by the rotor `(c, s)` (fixed-point cosine and sine), each
/// component clamped into the world bound. For a true rotor the clamp never
/// engages, since rotation does not lengthen a vector that already fits.
pub open spec fn rot_vec_int(v: Vec2, c: int, s: int) -> Vec2 {
    Vec2 {
        x: clamp_int(div_tz(v.x * c - v.y * s, SCALE as int), -WORLD as int, WORLD as int) as i64,
        y: clamp_int(div_tz(v.x * s + v.y * c, SCALE as int), -WORLD as int, WORLD as int) as i64,
    }
}

/// Rotate `v` by the rotor `(c, s)`: `x' = (x c - y s) / SCALE`,
/// `y' = (x s + y c) / SCALE`, clamped into the world bound.
pub fn rotate_vec(v: Vec2, c: i64, s: i64) -> (r: Vec2)
    requires
        in_bound(v, WORLD as int),
        -SCALE <= c <= SCALE,
        -SCALE <= s <= SCALE,
    ensures
        r == rot_vec_int(v, c as int, s as int),
        in_bound(r, WORLD as int),
{
    proof {
        lemma_mul_abs_le(v.x as int, c as int, WORLD as int, SCALE as int);
        lemma_mul_abs_le(v.y as int, s as int, WORLD as int, SCALE as int);
        lemma_mul_abs_le(v.x as int, s as int, WORLD as int, SCALE as int);
        lemma_mul_abs_le(v.y as int, c as int, WORLD as int, SCALE as int);
    }
    let px: i128 = (v.x as i128) * (c as i128) - (v.y as i128) * (s as i128);
    let py: i128 = (v.x as i128) * (s as i128) + (v.y as i128) * (c as i128);
    proof {
        lemma_div_tz_bounds(px as int, SCALE as int);
        lemma_div_tz_bounds(py as int, SCALE as int);
    }
    let qx: i128 = if px >= 0 {
        px / (SCALE as i128)
    } else {
        -((-px) / (SCALE as i128))
    };
    let qy: i128 = if py >= 0 {
        py / (SCALE as i128)
    } else {
        -((-py) / (SCALE as i128))
    };
    let rx: i64 = if qx < -(WORLD as i128) {
        -WORLD
    } else if qx > WORLD as i128 {
        WORLD
    } else {
        qx as i64
    };
    let ry: i64 = if qy < -(WORLD as i128) {
        -WORLD
    } else if qy > WORLD as i128 {
        WORLD
    } else {
        qy as i64
    };
    Vec2 { x: rx, y: ry }
}

/// Clamp a wide intermediate into `[lo, hi]`.
pub fn clamp_i(v: i128, lo: i64, hi: i64) -> (r: i64)
    requires
        lo <= hi,
    ensures
        r == clamp_int(v as int, lo as int, hi as int),
{
    if v < lo as i128 {
        lo
    } else if v > hi as i128 {
        hi
    } else {
        v as i64
    }
}

/// A square is non-negative.
pub proof fn lemma_square_nonneg(a: int)
    ensures
        a * a >= 0,
{
    assert(a * a >= 0) by (nonlinear_arith);
}

/// The product of two non-negative factors is non-negative.
pub proof fn lemma_mul_nonneg(a: int, b: int)
    requires
        a >= 0,
        b >= 0,
    ensures
        a * b >= 0,
{
    assert(a * b >= 0) by (nonlinear_arith)
        requires
            a >= 0,
            b >= 0,
    ;
}

/// `|a * b| <= bound_a * bound_b` whenever `|a| <= bound_a` and `|b| <= bound_b`.
pub proof fn lemma_mul_abs_le(a: int, b: int, bound_a: int, bound_b: int)
    requires
        -bound_a <= a <= bound_a,
        -bound_b <= b <= bound_b,
    ensures
        -(bound_a * bound_b) <= a * b <= bound_a * bound_b,
{
    assert(-(bound_a * bound_b) <= a * b <= bound_a * bound_b) by (nonlinear_arith)
        requires
            -bound_a <= a <= bound_a,
            -bound_b <= b <= bound_b,
    ;
}

} // verus!

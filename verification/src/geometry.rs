//! Primitives, materials, and the closed-form ray-sphere intersection.
//!
//! `EPSILON` carries the renderer's numeric tolerance (about 1e-4 in fixed
//! point). It plays two load-bearing roles: a quadratic whose leading
//! coefficient is below it degenerates to a linear equation, and a root at
//! or below it is discarded, which both rejects hits behind the ray origin
//! and prevents a surface point from shadowing itself.

use crate::math::{
    fx_abs, fx_add, fx_div, fx_mul, fx_neg, fx_sqrt, fx_sub, isqrt_spec, lemma_fx_mul_whole,
    lemma_isqrt_unique, lemma_tdiv_common_factor, lemma_vdot3, sat64, scalar_abs, scalar_add,
    scalar_div, scalar_mul, scalar_neg, scalar_sqrt, scalar_sub, tdiv, vdot, vscale, vsub,
    MathVector, Vec2fx, Vec3fx, FX_MAX, FX_ONE,
};
use vstd::prelude::*;

verus! {

/// Numeric tolerance: about 1e-4, rounded up to whole fixed-point units.
pub const EPSILON: i64 = 105;

/// Minus two, in fixed point.
pub const FX_NEG_TWO: i64 = -2 * FX_ONE;

/// Two, in fixed point.
pub const FX_TWO: i64 = 2 * FX_ONE;

/// Four, in fixed point.
pub const FX_FOUR: i64 = 4 * FX_ONE;

/// A sub-pixel-addressable image-plane coordinate.
pub type Pixel = Vec2fx;

/// An RGB colour; components nominally in [0, 1] but never clamped here.
pub type Colour = Vec3fx;

/// How a primitive's surface responds to light.
///
/// `shininess` is the Phong exponent, a whole number so the power is exact
/// in fixed point. `mirror` is a reflectivity coefficient that the scene
/// description carries but no tracing path consumes: recursive reflection
/// is deliberately left unimplemented.
#[derive(Clone, Copy, PartialEq, Eq, Structural, Debug)]
pub struct Material {
    pub diffuse: Colour,
    pub specular: Colour,
    pub shininess: u32,
    pub mirror: i64,
}

/// Where a ray meets a surface: the root `ray_len` of the intersection
/// equation (a multiple of the ray vector's own length) and `ray`, the
/// vector from the primitive's defining point to the hit, which doubles
/// as the surface normal for spheres.
#[derive(Clone, Copy, PartialEq, Eq, Structural, Debug)]
pub struct Intersection {
    pub ray_len: i64,
    pub ray: Vec3fx,
}

/// The capability every renderable primitive offers: intersection testing
/// and material lookup, each pinned to its own spec-level model.
pub trait Object: Sized {
    /// The model of `intersect`: the accepted root and the hit vector,
    /// if the ray hits.
    spec fn hit_model(&self, ray: Seq<i64>, origin: Seq<i64>) -> Option<(i64, Seq<i64>)>;

    /// The model of `mat`.
    spec fn mat_model(&self) -> Material;

    /// Determine whether a ray from `origin` intersects this primitive,
    /// and if so give back the intersection.
    fn intersect(&self, ray: &Vec3fx, origin: &Vec3fx) -> (r: Option<Intersection>)
        ensures
            (match r {
                Some(it) => self.hit_model(ray.model(), origin.model()) == Some(
                    (it.ray_len, it.ray.model()),
                ),
                None => self.hit_model(ray.model(), origin.model()) is None,
            }),
    ;

    /// The primitive's material.
    fn mat(&self) -> (m: Material)
        ensures
            m == self.mat_model(),
    ;
}

/// A sphere, the one primitive variant implemented so far.
#[derive(Clone, Copy, PartialEq, Eq, Structural, Debug)]
pub struct Sphere {
    pub pos: Vec3fx,
    pub rad: i64,
    pub mat: Material,
}

/// The real roots of `a*t^2 + b*t + c == 0` as the solver reports them.
#[derive(Clone, Copy, PartialEq, Eq, Structural, Debug)]
pub enum QuadRoots {
    Zero,
    One(i64),
    Two(i64, i64),
}

/// What `quad_root` returns. A leading coefficient below `EPSILON` in
/// magnitude degenerates to the linear root `-c/b` (zero when `b` is zero,
/// by the total division); otherwise a nonnegative discriminant yields the
/// two roots of the standard formula — equal on tangency — and a negative
/// one yields no roots.
pub open spec fn quad_root_spec(a: i64, b: i64, c: i64) -> QuadRoots {
    if fx_abs(a) < EPSILON {
        QuadRoots::One(fx_div(fx_neg(c), b))
    } else {
        let d = fx_sub(fx_mul(b, b), fx_mul(fx_mul(FX_FOUR, a), c));
        if d >= 0 {
            let sq = fx_sqrt(d);
            let ta = fx_mul(FX_TWO, a);
            QuadRoots::Two(fx_div(fx_add(fx_neg(b), sq), ta), fx_div(fx_sub(fx_neg(b), sq), ta))
        } else {
            QuadRoots::Zero
        }
    }
}

/// Solve `a*t^2 + b*t + c == 0` for its real roots.
pub fn quad_root(a: i64, b: i64, c: i64) -> (r: QuadRoots)
    ensures
        r == quad_root_spec(a, b, c),
{
    if scalar_abs(a) < EPSILON {
        QuadRoots::One(scalar_div(scalar_neg(c), b))
    } else {
        let d = scalar_sub(scalar_mul(b, b), scalar_mul(scalar_mul(FX_FOUR, a), c));
        if d >= 0 {
            let sq = scalar_sqrt(d);
            let ta = scalar_mul(FX_TWO, a);
            QuadRoots::Two(
                scalar_div(scalar_add(scalar_neg(b), sq), ta),
                scalar_div(scalar_sub(scalar_neg(b), sq), ta),
            )
        } else {
            QuadRoots::Zero
        }
    }
}

/// The smaller of the reported roots, the candidate hit distance.
pub open spec fn nearer_root(r: QuadRoots) -> Option<i64> {
    match r {
        QuadRoots::Zero => None,
        QuadRoots::One(t) => Some(t),
        QuadRoots::Two(t1, t2) => if t1 < t2 {
            Some(t1)
        } else {
            Some(t2)
        },
    }
}

/// The quadratic the ray-sphere test solves, with the coefficients of
/// the closed-form intersection equation.
pub open spec fn sphere_roots(s: Sphere, ray: Seq<i64>, origin: Seq<i64>) -> QuadRoots {
    let line = vsub(s.pos.model(), origin);
    quad_root_spec(
        vdot(ray, ray),
        fx_mul(FX_NEG_TWO, vdot(line, ray)),
        fx_sub(vdot(line, line), fx_mul(s.rad, s.rad)),
    )
}

/// The model of `Sphere::intersect`: solve the quadratic for the ray
/// against the sphere, take the nearer root, and accept it only beyond
/// `EPSILON`; the hit vector runs from the sphere's center to the hit.
pub open spec fn sphere_hit(s: Sphere, ray: Seq<i64>, origin: Seq<i64>) -> Option<(i64, Seq<i64>)> {
    let line = vsub(s.pos.model(), origin);
    let roots = sphere_roots(s, ray, origin);
    match nearer_root(roots) {
        Some(t) => if t > EPSILON {
            Some((t, vsub(vscale(ray, t), line)))
        } else {
            None
        },
        None => None,
    }
}

impl Object for Sphere {
    open spec fn hit_model(&self, ray: Seq<i64>, origin: Seq<i64>) -> Option<(i64, Seq<i64>)> {
        sphere_hit(*self, ray, origin)
    }

    open spec fn mat_model(&self) -> Material {
        self.mat
    }

    fn intersect(&self, ray: &Vec3fx, origin: &Vec3fx) -> (r: Option<Intersection>) {
        // The ray from the origin to the sphere; solving the quadratic
        // tells whether the cast ray crosses the surface.
        let line = self.pos.sub_v(origin);
        let roots = quad_root(
            ray.length2(),
            scalar_mul(FX_NEG_TWO, line.dot(ray)),
            scalar_sub(line.length2(), scalar_mul(self.rad, self.rad)),
        );

        // The shortest ray that hits, if any.
        let shortest: Option<i64> = match roots {
            QuadRoots::Zero => None,
            QuadRoots::One(t) => Some(t),
            QuadRoots::Two(t1, t2) => if t1 < t2 {
                Some(t1)
            } else {
                Some(t2)
            },
        };

        // Accept only a root safely in front of the origin.
        match shortest {
            Some(t) => if t > EPSILON {
                let hit = ray.mul_t(t).sub_v(&line);
                Some(Intersection { ray_len: t, ray: hit })
            } else {
                None
            },
            None => None,
        }
    }

    fn mat(&self) -> (m: Material) {
        self.mat
    }
}

/// The closed set of primitive variants a scene may hold.
#[derive(Clone, Copy, PartialEq, Eq, Structural, Debug)]
pub enum Primitive {
    Sphere(Sphere),
}

impl Object for Primitive {
    open spec fn hit_model(&self, ray: Seq<i64>, origin: Seq<i64>) -> Option<(i64, Seq<i64>)> {
        match *self {
            Primitive::Sphere(s) => sphere_hit(s, ray, origin),
        }
    }

    open spec fn mat_model(&self) -> Material {
        match *self {
            Primitive::Sphere(s) => s.mat,
        }
    }

    fn intersect(&self, ray: &Vec3fx, origin: &Vec3fx) -> (r: Option<Intersection>) {
        match self {
            Primitive::Sphere(s) => s.intersect(ray, origin),
        }
    }

    fn mat(&self) -> (m: Material) {
        match self {
            Primitive::Sphere(s) => s.mat(),
        }
    }
}

/// A quadratic whose leading coefficient is below the tolerance always
/// degenerates to exactly one root, through the linear fallback.
pub proof fn lemma_quad_root_degenerate(a: i64, b: i64, c: i64)
    requires
        fx_abs(a) < EPSILON,
    ensures
        quad_root_spec(a, b, c) == QuadRoots::One(fx_div(fx_neg(c), b)),
{
}

/// A discriminant of exactly zero yields one repeated root, reachable
/// through the two-root formula: the solver reports two roots and they
/// are equal.
pub proof fn lemma_quad_root_tangent(a: i64, b: i64, c: i64)
    requires
        fx_abs(a) >= EPSILON,
        fx_sub(fx_mul(b, b), fx_mul(fx_mul(FX_FOUR, a), c)) == 0,
    ensures
        (match quad_root_spec(a, b, c) {
            QuadRoots::Two(t1, t2) => t1 == t2,
            _ => false,
        }),
{
    broadcast use crate::math::lemma_sat64_range;

    assert(fx_sqrt(0) == 0);
    assert(fx_add(fx_neg(b), 0) == fx_neg(b));
    assert(fx_sub(fx_neg(b), 0) == fx_neg(b));
}

/// A surface point no farther than the tolerance past the ray origin
/// does not count as a hit: whenever the chosen root is at or below
/// `EPSILON`, the intersection test rejects it, so a ray starting at (or
/// just past) a surface cannot self-intersect with it.
pub proof fn lemma_epsilon_guard(s: Sphere, ray: Seq<i64>, origin: Seq<i64>, t: i64)
    requires
        nearer_root(sphere_roots(s, ray, origin)) == Some(t),
        t <= EPSILON,
    ensures
        sphere_hit(s, ray, origin) is None,
{
}

/// For a ray aimed straight at a sphere's center from outside, the hit
/// distance is the distance to the center minus the radius. Stated where
/// the arithmetic is exactly representable: the offset from the ray
/// origin to the center has whole-number world coordinates of exact
/// whole length `lw`, the radius is a whole `rw` with `0 < rw < lw <=
/// 1200`, the origin lies more than the tolerance outside the surface,
/// and the ray is the offset itself, so the reported root is a fraction
/// of the ray's own length `lw`. The test then reports a hit whose root
/// is `(lw - rw) / lw` rounded down to fixed point: `t * lw` equals
/// `(lw - rw) * FX_ONE`, the distance to the surface, to within one
/// rounding unit of the quotient.
pub proof fn lemma_aimed_ray_distance(
    s: Sphere,
    origin: Seq<i64>,
    x: int,
    y: int,
    z: int,
    lw: int,
    rw: int,
)
    requires
        origin.len() == 3,
        1 <= rw < lw <= 1200,
        x * x + y * y + z * z == lw * lw,
        s.rad as int == rw * (FX_ONE as int),
        ({
            let line = vsub(s.pos.model(), origin);
            line[0] as int == x * (FX_ONE as int) && line[1] as int == y * (FX_ONE as int)
                && line[2] as int == z * (FX_ONE as int)
        }),
        (lw - rw) * (FX_ONE as int) >= (EPSILON + 1) * lw,
    ensures
        ({
            let ray = vsub(s.pos.model(), origin);
            match sphere_hit(s, ray, origin) {
                Some((t, h)) => t as int == ((lw - rw) * (FX_ONE as int)) / lw && (t as int) * lw
                    <= (lw - rw) * (FX_ONE as int) < ((t as int) + 1) * lw,
                None => false,
            }
        }),
{
    let sc: int = FX_ONE as int;
    let line = vsub(s.pos.model(), origin);
    let ray = line;
    assert(line.len() == 3);

    // Components of the offset are bounded by its length.
    assert(x * x <= lw * lw && y * y <= lw * lw && z * z <= lw * lw) by (nonlinear_arith)
        requires
            x * x + y * y + z * z == lw * lw,
    ;
    assert(-lw <= x <= lw) by (nonlinear_arith)
        requires
            x * x <= lw * lw,
            lw >= 1,
    ;
    assert(-lw <= y <= lw) by (nonlinear_arith)
        requires
            y * y <= lw * lw,
            lw >= 1,
    ;
    assert(-lw <= z <= lw) by (nonlinear_arith)
        requires
            z * z <= lw * lw,
            lw >= 1,
    ;

    assert(x * x >= 0 && y * y >= 0 && z * z >= 0) by (nonlinear_arith);

    // The squared length of the aimed ray, exactly.
    lemma_vdot3(ray, ray);
    assert(-(FX_MAX as int) <= x * x * sc <= FX_MAX as int && -(FX_MAX as int) <= y * y * sc
        <= FX_MAX as int && -(FX_MAX as int) <= z * z * sc <= FX_MAX as int) by (nonlinear_arith)
        requires
            -1200 <= x <= 1200,
            -1200 <= y <= 1200,
            -1200 <= z <= 1200,
            sc == 1048576,
    ;
    lemma_fx_mul_whole(x, x, line[0], line[0]);
    lemma_fx_mul_whole(y, y, line[1], line[1]);
    lemma_fx_mul_whole(z, z, line[2], line[2]);
    let m0 = fx_mul(line[0], line[0]);
    let m1 = fx_mul(line[1], line[1]);
    let m2 = fx_mul(line[2], line[2]);
    assert(x * x * sc + y * y * sc == (x * x + y * y) * sc && (x * x + y * y) * sc + z * z * sc
        == lw * lw * sc) by (nonlinear_arith)
        requires
            x * x + y * y + z * z == lw * lw,
    ;
    assert(0 <= lw * lw * sc <= FX_MAX as int && 0 <= (x * x + y * y) * sc <= FX_MAX as int)
        by (nonlinear_arith)
        requires
            1 <= lw <= 1200,
            0 <= x * x + y * y <= lw * lw,
            sc == 1048576,
    ;
    let aval = vdot(ray, ray);
    assert(fx_add(m0, m1) as int == (x * x + y * y) * sc);
    assert(aval == fx_add(fx_add(m0, m1), m2));
    assert(aval as int == lw * lw * sc);

    // The linear coefficient: minus twice the offset dot the ray.
    assert(FX_NEG_TWO as int == (-2) * sc);
    assert(-(FX_MAX as int) <= (-2) * (lw * lw) * sc <= FX_MAX as int) by (nonlinear_arith)
        requires
            1 <= lw <= 1200,
            sc == 1048576,
    ;
    assert(aval as int == (lw * lw) * sc) by (nonlinear_arith)
        requires
            aval as int == lw * lw * sc,
    ;
    lemma_fx_mul_whole(-2, lw * lw, FX_NEG_TWO, aval);
    let bval = fx_mul(FX_NEG_TWO, aval);
    assert(bval as int == (-2) * (lw * lw) * sc);

    // The constant coefficient: squared offset length minus squared radius.
    assert(-(FX_MAX as int) <= rw * rw * sc <= FX_MAX as int) by (nonlinear_arith)
        requires
            1 <= rw <= 1200,
            sc == 1048576,
    ;
    lemma_fx_mul_whole(rw, rw, s.rad, s.rad);
    let rsq = fx_mul(s.rad, s.rad);
    assert(lw * lw * sc - rw * rw * sc == (lw * lw - rw * rw) * sc && 0 < (lw * lw - rw * rw) * sc
        <= FX_MAX as int) by (nonlinear_arith)
        requires
            1 <= rw < lw <= 1200,
            sc == 1048576,
    ;
    let cval = fx_sub(aval, rsq);
    assert(cval as int == (lw * lw - rw * rw) * sc);

    // The quadratic is not degenerate: its leading coefficient is the
    // squared ray length, at least one.
    assert(aval as int >= sc) by (nonlinear_arith)
        requires
            aval as int == lw * lw * sc,
            lw >= 1,
            sc > 0,
    ;
    assert(fx_abs(aval) == aval);
    assert(!(fx_abs(aval) < EPSILON));
    assert(sphere_roots(s, ray, origin) == quad_root_spec(aval, bval, cval));

    // The discriminant: 4 lw^2 rw^2, exactly, so its square root is
    // exact as well.
    assert(-(FX_MAX as int) <= ((-2) * (lw * lw)) * ((-2) * (lw * lw)) * sc <= FX_MAX as int
        && ((-2) * (lw * lw)) * ((-2) * (lw * lw)) == 4 * (lw * lw * (lw * lw)))
        by (nonlinear_arith)
        requires
            1 <= lw <= 1200,
            sc == 1048576,
    ;
    lemma_fx_mul_whole((-2) * (lw * lw), (-2) * (lw * lw), bval, bval);
    let bb = fx_mul(bval, bval);
    assert(bb as int == 4 * (lw * lw * (lw * lw)) * sc) by (nonlinear_arith)
        requires
            bb as int == ((-2) * (lw * lw)) * ((-2) * (lw * lw)) * sc,
            ((-2) * (lw * lw)) * ((-2) * (lw * lw)) == 4 * (lw * lw * (lw * lw)),
    ;
    assert(FX_FOUR as int == 4 * sc);
    assert(-(FX_MAX as int) <= 4 * (lw * lw) * sc <= FX_MAX as int) by (nonlinear_arith)
        requires
            1 <= lw <= 1200,
            sc == 1048576,
    ;
    lemma_fx_mul_whole(4, lw * lw, FX_FOUR, aval);
    let fa = fx_mul(FX_FOUR, aval);
    assert(fa as int == 4 * (lw * lw) * sc);
    assert(-(FX_MAX as int) <= (4 * (lw * lw)) * (lw * lw - rw * rw) * sc <= FX_MAX as int)
        by (nonlinear_arith)
        requires
            1 <= rw < lw <= 1200,
            sc == 1048576,
    ;
    lemma_fx_mul_whole(4 * (lw * lw), lw * lw - rw * rw, fa, cval);
    let fac = fx_mul(fa, cval);
    assert(fac as int == (4 * (lw * lw)) * (lw * lw - rw * rw) * sc);
    assert(4 * (lw * lw * (lw * lw)) * sc - (4 * (lw * lw)) * (lw * lw - rw * rw) * sc == (4 * (lw
        * lw) * (rw * rw)) * sc && 0 < (4 * (lw * lw) * (rw * rw)) * sc <= FX_MAX as int)
        by (nonlinear_arith)
        requires
            1 <= rw < lw <= 1200,
            sc == 1048576,
    ;
    let dval = fx_sub(bb, fac);
    assert(dval as int == (4 * (lw * lw) * (rw * rw)) * sc);
    assert(dval >= 0);

    // sqrt(4 lw^2 rw^2) == 2 lw rw, a perfect square.
    let q: int = 2 * lw * rw * sc;
    assert(q >= 0 && q * q == (dval as int) * sc && (dval as int) * sc < (q + 1) * (q + 1))
        by (nonlinear_arith)
        requires
            1 <= rw < lw <= 1200,
            sc == 1048576,
            q == 2 * lw * rw * sc,
            dval as int == (4 * (lw * lw) * (rw * rw)) * sc,
    ;
    assert((dval as int) * sc >= 0) by (nonlinear_arith)
        requires
            dval as int >= 0,
            sc > 0,
    ;
    lemma_isqrt_unique((dval as int) * sc, q);
    let sq = fx_sqrt(dval);
    assert(sq as int == q) by {
        assert(isqrt_spec((dval as int) * sc) == q);
        assert(0 <= q < FX_MAX as int) by (nonlinear_arith)
            requires
                1 <= rw < lw <= 1200,
                sc == 1048576,
                q == 2 * lw * rw * sc,
        ;
    };

    // The two roots: (lw + rw)/lw and (lw - rw)/lw in fixed point.
    assert(-(FX_MAX as int) <= 2 * (lw * lw) * sc <= FX_MAX as int) by (nonlinear_arith)
        requires
            1 <= lw <= 1200,
            sc == 1048576,
    ;
    assert(FX_TWO as int == 2 * sc);
    lemma_fx_mul_whole(2, lw * lw, FX_TWO, aval);
    let ta = fx_mul(FX_TWO, aval);
    assert(ta as int == 2 * (lw * lw) * sc);
    let nb = fx_neg(bval);
    assert(nb as int == 2 * (lw * lw) * sc) by (nonlinear_arith)
        requires
            bval as int == (-2) * (lw * lw) * sc,
            nb as int == sat64(-(bval as int)) as int,
            sat64(-(bval as int)) as int == if -(bval as int) > FX_MAX as int {
                FX_MAX as int
            } else if -(bval as int) < -(FX_MAX as int) {
                -(FX_MAX as int)
            } else {
                -(bval as int)
            },
            -(FX_MAX as int) <= 2 * (lw * lw) * sc <= FX_MAX as int,
    ;
    let sum1 = fx_add(nb, sq);
    let dif = fx_sub(nb, sq);
    assert(2 * (lw * lw) * sc + 2 * lw * rw * sc == ((lw + rw) * sc) * (2 * lw) && 2 * (lw * lw)
        * sc - 2 * lw * rw * sc == ((lw - rw) * sc) * (2 * lw) && 0 <= ((lw - rw) * sc) * (2 * lw)
        <= ((lw + rw) * sc) * (2 * lw) <= FX_MAX as int) by (nonlinear_arith)
        requires
            1 <= rw < lw <= 1200,
            sc == 1048576,
    ;
    assert(sum1 as int == ((lw + rw) * sc) * (2 * lw));
    assert(dif as int == ((lw - rw) * sc) * (2 * lw));

    // Cancel the common factor 2 lw sc out of each quotient.
    let aa: int = (lw + rw) * sc;
    let b2: int = (lw - rw) * sc;
    assert((sum1 as int) * sc == aa * (2 * lw * sc) && (ta as int) == lw * (2 * lw * sc))
        by (nonlinear_arith)
        requires
            sum1 as int == aa * (2 * lw),
            ta as int == 2 * (lw * lw) * sc,
    ;
    assert((dif as int) * sc == b2 * (2 * lw * sc)) by (nonlinear_arith)
        requires
            dif as int == b2 * (2 * lw),
    ;
    assert(aa >= 0 && b2 >= 0 && 2 * lw * sc > 0) by (nonlinear_arith)
        requires
            aa == (lw + rw) * sc,
            b2 == (lw - rw) * sc,
            1 <= rw < lw <= 1200,
            sc == 1048576,
    ;
    lemma_tdiv_common_factor(aa, lw, 2 * lw * sc);
    lemma_tdiv_common_factor(b2, lw, 2 * lw * sc);
    assert(tdiv((sum1 as int) * sc, ta as int) == aa / lw);
    assert(tdiv((dif as int) * sc, ta as int) == b2 / lw);
    vstd::arithmetic::div_mod::lemma_div_pos_is_pos(aa, lw);
    vstd::arithmetic::div_mod::lemma_div_nonincreasing(aa, lw);
    vstd::arithmetic::div_mod::lemma_div_pos_is_pos(b2, lw);
    vstd::arithmetic::div_mod::lemma_div_nonincreasing(b2, lw);
    let root1 = fx_div(sum1, ta);
    let root2 = fx_div(dif, ta);
    assert(root1 as int == aa / lw);
    assert(root2 as int == b2 / lw);

    // The nearer root is the second: the two quotients differ by at
    // least one whole step of the denominator.
    assert(aa >= b2 + lw) by (nonlinear_arith)
        requires
            aa == (lw + rw) * sc,
            b2 == (lw - rw) * sc,
            1 <= rw < lw <= 1200,
            sc == 1048576,
    ;
    vstd::arithmetic::div_mod::lemma_div_plus_one(b2, lw);
    vstd::arithmetic::div_mod::lemma_div_is_ordered(lw + b2, aa, lw);
    assert(root2 < root1);

    // The epsilon guard passes: the origin is far enough outside.
    assert(b2 >= 106 * lw);
    assert(106 * lw == lw * 106) by (nonlinear_arith);
    vstd::arithmetic::div_mod::lemma_div_multiples_vanish(106, lw);
    vstd::arithmetic::div_mod::lemma_div_is_ordered(106 * lw, b2, lw);
    assert(root2 as int >= 106);
    assert(root2 > EPSILON);

    // So the hit is reported, at exactly the rounded-down quotient.
    assert(quad_root_spec(aval, bval, cval) == QuadRoots::Two(root1, root2));
    assert(nearer_root(quad_root_spec(aval, bval, cval)) == Some(root2));
    assert(sphere_hit(s, ray, origin) is Some);
    vstd::arithmetic::div_mod::lemma_fundamental_div_mod(b2, lw);
    assert((root2 as int) * lw <= b2 < ((root2 as int) + 1) * lw) by (nonlinear_arith)
        requires
            b2 == lw * (b2 / lw) + b2 % lw,
            0 <= b2 % lw < lw,
            root2 as int == b2 / lw,
    ;
}

} // verus!

//! Fixed-point scalars and the 2- and 3-component vector types built on them.
//!
//! A scalar is an `i64` holding `value * FX_ONE`, so `FX_ONE` (2^20) is 1.0.
//! Multiplication and division rescale with truncation toward zero, mirroring
//! the rounding a binary radix point gives; every result saturates into
//! `[FX_MIN, FX_MAX]`, so the operations are total and exactly described by
//! the spec functions in this module.

use vstd::prelude::*;

verus! {

/// The fixed-point unit: the representation of 1.0.
pub const FX_ONE: i64 = 1048576;

/// Largest representable scalar.
pub const FX_MAX: i64 = i64::MAX;

/// Smallest representable scalar; symmetric to `FX_MAX` so negation is total.
pub const FX_MIN: i64 = -i64::MAX;

/// Saturate an unbounded integer into the scalar range.
pub open spec fn sat64(x: int) -> i64 {
    if x > FX_MAX as int {
        FX_MAX
    } else if x < FX_MIN as int {
        FX_MIN
    } else {
        x as i64
    }
}

/// Division truncating toward zero (the machine convention), total:
/// a zero divisor yields zero.
pub open spec fn tdiv(x: int, d: int) -> int {
    if d == 0 {
        0
    } else if x >= 0 {
        x / d
    } else {
        -((-x) / d)
    }
}

/// Saturating fixed-point addition.
pub open spec fn fx_add(a: i64, b: i64) -> i64 {
    sat64(a + b)
}

/// Saturating fixed-point subtraction.
pub open spec fn fx_sub(a: i64, b: i64) -> i64 {
    sat64(a - b)
}

/// Saturating fixed-point negation.
pub open spec fn fx_neg(a: i64) -> i64 {
    sat64(-a)
}

/// Saturating fixed-point multiplication: rescales the double-width product.
pub open spec fn fx_mul(a: i64, b: i64) -> i64 {
    sat64(tdiv(a * b, FX_ONE as int))
}

/// Saturating fixed-point division, total: a zero divisor yields zero.
pub open spec fn fx_div(a: i64, b: i64) -> i64 {
    if b == 0 {
        0
    } else {
        sat64(tdiv(a * (FX_ONE as int), b as int))
    }
}

/// Floor of the square root of an unbounded nonnegative integer.
pub open spec fn isqrt_spec(n: int) -> int
    decreases n,
{
    if n <= 0 {
        0
    } else {
        let r = isqrt_spec(n - 1);
        if (r + 1) * (r + 1) <= n {
            r + 1
        } else {
            r
        }
    }
}

/// Fixed-point square root, total: nonpositive arguments yield zero.
pub open spec fn fx_sqrt(a: i64) -> i64 {
    if a <= 0 {
        0
    } else {
        isqrt_spec(a * (FX_ONE as int)) as i64
    }
}

pub broadcast proof fn lemma_sat64_range(x: int)
    ensures
        FX_MIN <= #[trigger] sat64(x) <= FX_MAX,
{
}

/// `isqrt_spec` is exactly the floor of the square root.
pub proof fn lemma_isqrt_spec(n: int)
    requires
        n >= 0,
    ensures
        0 <= isqrt_spec(n),
        isqrt_spec(n) * isqrt_spec(n) <= n,
        n < (isqrt_spec(n) + 1) * (isqrt_spec(n) + 1),
    decreases n,
{
    if n > 0 {
        lemma_isqrt_spec(n - 1);
        let r = isqrt_spec(n - 1);
        if (r + 1) * (r + 1) <= n {
            assert((r + 2) * (r + 2) > n) by (nonlinear_arith)
                requires
                    r >= 0,
                    n - 1 < (r + 1) * (r + 1);
        }
    }
}

/// Any root with the floor property is `isqrt_spec`.
pub proof fn lemma_isqrt_unique(n: int, r: int)
    requires
        n >= 0,
        r >= 0,
        r * r <= n,
        n < (r + 1) * (r + 1),
    ensures
        r == isqrt_spec(n),
{
    lemma_isqrt_spec(n);
    let s = isqrt_spec(n);
    if r < s {
        assert(s * s > n) by (nonlinear_arith)
            requires
                0 <= r < s,
                n < (r + 1) * (r + 1);
    }
    if r > s {
        assert(r * r > n) by (nonlinear_arith)
            requires
                0 <= s < r,
                n < (s + 1) * (s + 1);
    }
}

/// Saturate a double-width intermediate into a scalar.
fn sat_i128(x: i128) -> (r: i64)
    ensures
        r == sat64(x as int),
{
    if x > FX_MAX as i128 {
        FX_MAX
    } else if x < FX_MIN as i128 {
        FX_MIN
    } else {
        x as i64
    }
}

/// Double-width division truncating toward zero, total like `tdiv`.
fn tdiv_i128(x: i128, d: i128) -> (r: i128)
    requires
        x > i128::MIN,
        d > i128::MIN,
    ensures
        r as int == tdiv(x as int, d as int),
{
    if d == 0 {
        0
    } else {
        let xa: i128 = if x < 0 {
            -x
        } else {
            x
        };
        let da: i128 = if d < 0 {
            -d
        } else {
            d
        };
        proof {
            vstd::arithmetic::div_mod::lemma_div_pos_is_pos(xa as int, da as int);
            vstd::arithmetic::div_mod::lemma_div_nonincreasing(xa as int, da as int);
        }
        let q: i128 = xa / da;
        proof {
            lemma_tdiv_by_signs(x as int, d as int, xa as int, da as int, q as int);
        }
        if (x < 0) != (d < 0) {
            -q
        } else {
            q
        }
    }
}

/// Relates truncating division to the quotient of the magnitudes.
proof fn lemma_tdiv_by_signs(x: int, d: int, xa: int, da: int, q: int)
    requires
        d != 0,
        xa == if x < 0 { -x } else { x },
        da == if d < 0 { -d } else { d },
        q == xa / da,
    ensures
        tdiv(x, d) == if (x < 0) != (d < 0) { -q } else { q },
{
    vstd::arithmetic::div_mod::lemma_div_pos_is_pos(xa, da);
    if x >= 0 && d > 0 {
    } else if x < 0 && d > 0 {
    } else if x >= 0 && d < 0 {
        lemma_div_neg_denominator(xa, da);
    } else {
        lemma_div_neg_denominator(xa, da);
    }
}

/// Euclidean division by a negative denominator negates the quotient
/// of the magnitudes: `x / (-d) == -(x / d)` for `x >= 0`, `d > 0`.
proof fn lemma_div_neg_denominator(x: int, d: int)
    requires
        x >= 0,
        d > 0,
    ensures
        x / (-d) == -(x / d),
{
    assert(x / (-d) == -(x / d)) by (nonlinear_arith)
        requires
            x >= 0,
            d > 0,
    ;
}

/// Scalar addition.
pub fn scalar_add(a: i64, b: i64) -> (r: i64)
    ensures
        r == fx_add(a, b),
{
    sat_i128(a as i128 + b as i128)
}

/// Scalar subtraction.
pub fn scalar_sub(a: i64, b: i64) -> (r: i64)
    ensures
        r == fx_sub(a, b),
{
    sat_i128(a as i128 - b as i128)
}

/// Scalar negation.
pub fn scalar_neg(a: i64) -> (r: i64)
    ensures
        r == fx_neg(a),
{
    sat_i128(-(a as i128))
}

/// Scalar multiplication.
pub fn scalar_mul(a: i64, b: i64) -> (r: i64)
    ensures
        r == fx_mul(a, b),
{
    proof {
        assert(-0x40000000000000000000000000000000 <= (a as int) * (b as int)
            <= 0x40000000000000000000000000000000) by (nonlinear_arith);
    }
    let p: i128 = a as i128 * b as i128;
    let q: i128 = tdiv_i128(p, FX_ONE as i128);
    sat_i128(q)
}

/// Scalar division.
pub fn scalar_div(a: i64, b: i64) -> (r: i64)
    ensures
        r == fx_div(a, b),
{
    if b == 0 {
        0
    } else {
        proof {
            assert(-0x40000000000000000000000000000000 <= (a as int) * (FX_ONE as int)
                <= 0x40000000000000000000000000000000) by (nonlinear_arith)
                requires
                    0 < FX_ONE < 0x7fffffffffffffff,
                    -0x8000000000000000 <= a <= 0x7fffffffffffffff;
        }
        let p: i128 = a as i128 * FX_ONE as i128;
        let q: i128 = tdiv_i128(p, b as i128);
        sat_i128(q)
    }
}

/// Floor square root of a machine integer, by bisection.
fn isqrt_u128(n: u128) -> (r: u64)
    requires
        n < 0x1000000000000000000000u128,
    ensures
        r as int == isqrt_spec(n as int),
{
    let mut lo: u64 = 0;
    let mut hi: u64 = 0x40000000000u64;
    proof {
        assert((hi as int) * (hi as int) > n as int) by (nonlinear_arith)
            requires
                hi == 0x40000000000u64,
                n < 0x1000000000000000000000u128;
    }
    while lo + 1 < hi
        invariant
            lo < hi <= 0x40000000000u64,
            (lo as int) * (lo as int) <= n as int,
            (hi as int) * (hi as int) > n as int,
        decreases hi - lo,
    {
        let mid: u64 = lo + (hi - lo) / 2;
        proof {
            assert((mid as int) * (mid as int) < 0x100000000000000000000000000000000)
                by (nonlinear_arith)
                requires
                    mid <= 0x40000000000u64;
        }
        if (mid as u128) * (mid as u128) <= n {
            lo = mid;
        } else {
            hi = mid;
        }
    }
    proof {
        lemma_isqrt_unique(n as int, lo as int);
    }
    lo
}

/// Scalar square root.
pub fn scalar_sqrt(a: i64) -> (r: i64)
    ensures
        r == fx_sqrt(a),
{
    if a <= 0 {
        0
    } else {
        proof {
            assert((a as int) * (FX_ONE as int) < 0x1000000000000000000000) by (nonlinear_arith)
                requires
                    0 < a <= 0x7fffffffffffffff,
                    0 < FX_ONE <= 0x100000,
            ;
            lemma_isqrt_spec((a as int) * (FX_ONE as int));
            assert(isqrt_spec((a as int) * (FX_ONE as int)) < 0x8000000000000000int)
                by (nonlinear_arith)
                requires
                    isqrt_spec((a as int) * (FX_ONE as int)) * isqrt_spec(
                        (a as int) * (FX_ONE as int),
                    ) <= (a as int) * (FX_ONE as int) < 0x1000000000000000000000,
                    isqrt_spec((a as int) * (FX_ONE as int)) >= 0,
            ;
        }
        let n: u128 = a as u128 * FX_ONE as u128;
        let r: u64 = isqrt_u128(n);
        r as i64
    }
}

/// Elementwise saturating addition of component sequences.
pub open spec fn vadd(a: Seq<i64>, b: Seq<i64>) -> Seq<i64> {
    Seq::new(a.len(), |i: int| fx_add(a[i], b[i]))
}

/// Elementwise saturating subtraction of component sequences.
pub open spec fn vsub(a: Seq<i64>, b: Seq<i64>) -> Seq<i64> {
    Seq::new(a.len(), |i: int| fx_sub(a[i], b[i]))
}

/// Elementwise (Hadamard) product of component sequences.
pub open spec fn vmul(a: Seq<i64>, b: Seq<i64>) -> Seq<i64> {
    Seq::new(a.len(), |i: int| fx_mul(a[i], b[i]))
}

/// Every component scaled by a scalar.
pub open spec fn vscale(a: Seq<i64>, t: i64) -> Seq<i64> {
    Seq::new(a.len(), |i: int| fx_mul(a[i], t))
}

/// Dot product: the components' products summed left to right.
pub open spec fn vdot(a: Seq<i64>, b: Seq<i64>) -> i64
    decreases a.len(),
{
    if a.len() == 0 {
        0
    } else {
        fx_add(vdot(a.drop_last(), b.drop_last()), fx_mul(a.last(), b.last()))
    }
}

/// Cross product of two 3-component sequences.
pub open spec fn vcross(a: Seq<i64>, b: Seq<i64>) -> Seq<i64> {
    seq![
        fx_sub(fx_mul(a[1], b[2]), fx_mul(a[2], b[1])),
        fx_sub(fx_mul(a[2], b[0]), fx_mul(a[0], b[2])),
        fx_sub(fx_mul(a[0], b[1]), fx_mul(a[1], b[0])),
    ]
}

/// A vector scaled to unit length: multiplied by the reciprocal of its
/// length. A zero (or saturated-degenerate) length makes the reciprocal
/// zero, so the result is then the zero vector.
pub open spec fn vnormalize(a: Seq<i64>) -> Seq<i64> {
    vscale(a, fx_div(FX_ONE, fx_sqrt(vdot(a, a))))
}

/// The common capability of the vector types: componentwise arithmetic,
/// dot product, length, and normalization, all in fixed point.
pub trait MathVector: Sized {
    /// The mathematical model: the sequence of fixed-point components.
    spec fn model(&self) -> Seq<i64>;

    /// Componentwise sum.
    fn add_v(&self, v: &Self) -> (r: Self)
        ensures
            r.model() == vadd(self.model(), v.model()),
    ;

    /// Componentwise difference.
    fn sub_v(&self, v: &Self) -> (r: Self)
        ensures
            r.model() == vsub(self.model(), v.model()),
    ;

    /// Componentwise product.
    fn mul_v(&self, v: &Self) -> (r: Self)
        ensures
            r.model() == vmul(self.model(), v.model()),
    ;

    /// Every component scaled by `t`.
    fn mul_t(&self, t: i64) -> (r: Self)
        ensures
            r.model() == vscale(self.model(), t),
    ;

    /// Dot product.
    fn dot(&self, v: &Self) -> (r: i64)
        ensures
            r == vdot(self.model(), v.model()),
    ;

    /// Squared length: the dot product with itself.
    fn length2(&self) -> (r: i64)
        ensures
            r == vdot(self.model(), self.model()),
    ;

    /// Length: the square root of the squared length.
    fn length(&self) -> (r: i64)
        ensures
            r == fx_sqrt(vdot(self.model(), self.model())),
    ;

    /// The vector scaled by the reciprocal of its length; zero length
    /// gives the zero vector.
    fn normalize(&self) -> (r: Self)
        ensures
            r.model() == vnormalize(self.model()),
    ;
}

/// Construction of 2-component vectors.
pub trait Vec2: MathVector {
    /// A vector from its two components.
    fn new(x: i64, y: i64) -> (r: Self)
        ensures
            r.model() == seq![x, y],
    ;

    /// The zero vector.
    fn zero() -> (r: Self)
        ensures
            r.model() == seq![0i64, 0i64],
    ;
}

/// Construction of 3-component vectors, and their cross product.
pub trait Vec3: MathVector {
    /// A vector from its three components.
    fn new(x: i64, y: i64, z: i64) -> (r: Self)
        ensures
            r.model() == seq![x, y, z],
    ;

    /// The zero vector.
    fn zero() -> (r: Self)
        ensures
            r.model() == seq![0i64, 0i64, 0i64],
    ;

    /// Cross product.
    fn cross(&self, v: &Self) -> (r: Self)
        ensures
            r.model() == vcross(self.model(), v.model()),
    ;
}

/// Clamping a value into a closed interval.
pub trait Clamp: Sized {
    /// What clamping yields: `min` below the interval, `max` above it,
    /// the value itself inside.
    spec fn clamp_spec(&self, min: Self, max: Self) -> Self;

    /// Clamp `self` into `[min, max]`.
    fn clamp(&self, min: Self, max: Self) -> (r: Self)
        ensures
            r == self.clamp_spec(min, max),
    ;
}

impl Clamp for i64 {
    open spec fn clamp_spec(&self, min: i64, max: i64) -> i64 {
        if *self < min {
            min
        } else if *self > max {
            max
        } else {
            *self
        }
    }

    fn clamp(&self, min: i64, max: i64) -> (r: i64) {
        if *self < min {
            min
        } else if *self > max {
            max
        } else {
            *self
        }
    }
}

/// A 2-component fixed-point vector.
#[derive(Clone, Copy, PartialEq, Eq, Structural, Debug)]
pub struct Vec2fx {
    pub x: i64,
    pub y: i64,
}

/// A 3-component fixed-point vector.
#[derive(Clone, Copy, PartialEq, Eq, Structural, Debug)]
pub struct Vec3fx {
    pub x: i64,
    pub y: i64,
    pub z: i64,
}

impl MathVector for Vec2fx {
    open spec fn model(&self) -> Seq<i64> {
        seq![self.x, self.y]
    }

    fn add_v(&self, v: &Vec2fx) -> (r: Vec2fx) {
        let r = Vec2fx { x: scalar_add(self.x, v.x), y: scalar_add(self.y, v.y) };
        proof {
            assert(r.model() =~= vadd(self.model(), v.model()));
        }
        r
    }

    fn sub_v(&self, v: &Vec2fx) -> (r: Vec2fx) {
        let r = Vec2fx { x: scalar_sub(self.x, v.x), y: scalar_sub(self.y, v.y) };
        proof {
            assert(r.model() =~= vsub(self.model(), v.model()));
        }
        r
    }

    fn mul_v(&self, v: &Vec2fx) -> (r: Vec2fx) {
        let r = Vec2fx { x: scalar_mul(self.x, v.x), y: scalar_mul(self.y, v.y) };
        proof {
            assert(r.model() =~= vmul(self.model(), v.model()));
        }
        r
    }

    fn mul_t(&self, t: i64) -> (r: Vec2fx) {
        let r = Vec2fx { x: scalar_mul(self.x, t), y: scalar_mul(self.y, t) };
        proof {
            assert(r.model() =~= vscale(self.model(), t));
        }
        r
    }

    fn dot(&self, v: &Vec2fx) -> (r: i64) {
        let r: i64 = scalar_add(scalar_mul(self.x, v.x), scalar_mul(self.y, v.y));
        proof {
            lemma_vdot2(self.model(), v.model());
        }
        r
    }

    fn length2(&self) -> (r: i64) {
        self.dot(self)
    }

    fn length(&self) -> (r: i64) {
        scalar_sqrt(self.length2())
    }

    fn normalize(&self) -> (r: Vec2fx) {
        let len = self.length();
        self.mul_t(scalar_div(FX_ONE, len))
    }
}

impl Vec2 for Vec2fx {
    fn new(x: i64, y: i64) -> (r: Vec2fx) {
        Vec2fx { x, y }
    }

    fn zero() -> (r: Vec2fx) {
        Vec2fx { x: 0, y: 0 }
    }
}

impl MathVector for Vec3fx {
    open spec fn model(&self) -> Seq<i64> {
        seq![self.x, self.y, self.z]
    }

    fn add_v(&self, v: &Vec3fx) -> (r: Vec3fx) {
        let r = Vec3fx {
            x: scalar_add(self.x, v.x),
            y: scalar_add(self.y, v.y),
            z: scalar_add(self.z, v.z),
        };
        proof {
            assert(r.model() =~= vadd(self.model(), v.model()));
        }
        r
    }

    fn sub_v(&self, v: &Vec3fx) -> (r: Vec3fx) {
        let r = Vec3fx {
            x: scalar_sub(self.x, v.x),
            y: scalar_sub(self.y, v.y),
            z: scalar_sub(self.z, v.z),
        };
        proof {
            assert(r.model() =~= vsub(self.model(), v.model()));
        }
        r
    }

    fn mul_v(&self, v: &Vec3fx) -> (r: Vec3fx) {
        let r = Vec3fx {
            x: scalar_mul(self.x, v.x),
            y: scalar_mul(self.y, v.y),
            z: scalar_mul(self.z, v.z),
        };
        proof {
            assert(r.model() =~= vmul(self.model(), v.model()));
        }
        r
    }

    fn mul_t(&self, t: i64) -> (r: Vec3fx) {
        let r = Vec3fx {
            x: scalar_mul(self.x, t),
            y: scalar_mul(self.y, t),
            z: scalar_mul(self.z, t),
        };
        proof {
            assert(r.model() =~= vscale(self.model(), t));
        }
        r
    }

    fn dot(&self, v: &Vec3fx) -> (r: i64) {
        let r: i64 = scalar_add(
            scalar_add(scalar_mul(self.x, v.x), scalar_mul(self.y, v.y)),
            scalar_mul(self.z, v.z),
        );
        proof {
            lemma_vdot3(self.model(), v.model());
        }
        r
    }

    fn length2(&self) -> (r: i64) {
        self.dot(self)
    }

    fn length(&self) -> (r: i64) {
        scalar_sqrt(self.length2())
    }

    fn normalize(&self) -> (r: Vec3fx) {
        let len = self.length();
        self.mul_t(scalar_div(FX_ONE, len))
    }
}

impl Vec3 for Vec3fx {
    fn new(x: i64, y: i64, z: i64) -> (r: Vec3fx) {
        Vec3fx { x, y, z }
    }

    fn zero() -> (r: Vec3fx) {
        Vec3fx { x: 0, y: 0, z: 0 }
    }

    fn cross(&self, v: &Vec3fx) -> (r: Vec3fx) {
        let r = Vec3fx {
            x: scalar_sub(scalar_mul(self.y, v.z), scalar_mul(self.z, v.y)),
            y: scalar_sub(scalar_mul(self.z, v.x), scalar_mul(self.x, v.z)),
            z: scalar_sub(scalar_mul(self.x, v.y), scalar_mul(self.y, v.x)),
        };
        proof {
            assert(r.model() =~= vcross(self.model(), v.model()));
        }
        r
    }
}

/// Unfolds the dot product of 2-component sequences.
pub proof fn lemma_vdot2(a: Seq<i64>, b: Seq<i64>)
    requires
        a.len() == 2,
        b.len() == 2,
    ensures
        vdot(a, b) == fx_add(fx_mul(a[0], b[0]), fx_mul(a[1], b[1])),
{
    broadcast use lemma_sat64_range;

    let a1 = a.drop_last();
    let b1 = b.drop_last();
    assert(a1.drop_last().len() == 0);
    assert(vdot(a1.drop_last(), b1.drop_last()) == 0);
    assert(a1.last() == a[0] && b1.last() == b[0]);
    assert(vdot(a1, b1) == fx_add(0, fx_mul(a[0], b[0])));
    assert(fx_add(0, fx_mul(a[0], b[0])) == fx_mul(a[0], b[0]));
    assert(vdot(a, b) == fx_add(vdot(a1, b1), fx_mul(a[1], b[1])));
}

/// Unfolds the dot product of 3-component sequences.
pub proof fn lemma_vdot3(a: Seq<i64>, b: Seq<i64>)
    requires
        a.len() == 3,
        b.len() == 3,
    ensures
        vdot(a, b) == fx_add(
            fx_add(fx_mul(a[0], b[0]), fx_mul(a[1], b[1])),
            fx_mul(a[2], b[2]),
        ),
{
    lemma_vdot2(a.drop_last(), b.drop_last());
}

/// Absolute value of a scalar (saturating at the symmetric range).
pub open spec fn fx_abs(a: i64) -> i64 {
    if a < 0 {
        fx_neg(a)
    } else {
        a
    }
}

/// Scalar absolute value.
pub fn scalar_abs(a: i64) -> (r: i64)
    ensures
        r == fx_abs(a),
{
    if a < 0 {
        scalar_neg(a)
    } else {
        a
    }
}

/// A scalar raised to a whole-number power: 1.0 times `b`, `e` times over.
pub open spec fn fx_pow(b: i64, e: nat) -> i64
    decreases e,
{
    if e == 0 {
        FX_ONE
    } else {
        fx_mul(fx_pow(b, (e - 1) as nat), b)
    }
}

/// Scalar power with a whole-number exponent.
pub fn scalar_pow(b: i64, e: u32) -> (r: i64)
    ensures
        r == fx_pow(b, e as nat),
{
    let mut acc: i64 = FX_ONE;
    let mut i: u32 = 0;
    while i < e
        invariant
            i <= e,
            acc == fx_pow(b, i as nat),
        decreases e - i,
    {
        acc = scalar_mul(acc, b);
        i = i + 1;
    }
    acc
}

/// A whole number as a fixed-point scalar.
pub open spec fn int_to_fx(n: int) -> i64 {
    sat64(n * (FX_ONE as int))
}

/// Convert a pixel count or coordinate to a scalar.
pub fn scalar_from_usize(n: usize) -> (r: i64)
    ensures
        r == int_to_fx(n as int),
{
    proof {
        assert(0 <= (n as int) * (FX_ONE as int) <= 0x100000000000000000000000) by (nonlinear_arith)
            requires
                0 <= n <= 0xffffffffffffffffu64,
                0 < FX_ONE <= 0x100000,
        ;
    }
    let p: i128 = n as i128 * FX_ONE as i128;
    sat_i128(p)
}

/// Rescaling a whole multiple of the unit is exact.
pub proof fn lemma_tdiv_scale(k: int)
    ensures
        tdiv(k * (FX_ONE as int), FX_ONE as int) == k,
{
    let s: int = FX_ONE as int;
    if k >= 0 {
        assert(k * s >= 0) by (nonlinear_arith)
            requires
                k >= 0,
                s > 0,
        ;
        assert(k * s == s * k) by (nonlinear_arith);
        vstd::arithmetic::div_mod::lemma_div_multiples_vanish(k, s);
    } else {
        assert(k * s < 0) by (nonlinear_arith)
            requires
                k < 0,
                s > 0,
        ;
        assert(-(k * s) == s * (-k)) by (nonlinear_arith);
        vstd::arithmetic::div_mod::lemma_div_multiples_vanish(-k, s);
    }
}

/// The product of two whole multiples of the unit is exact: no
/// truncation in the rescale and, within the stated range, no
/// saturation.
pub proof fn lemma_fx_mul_whole(a: int, b: int, u: i64, v: i64)
    requires
        u as int == a * (FX_ONE as int),
        v as int == b * (FX_ONE as int),
        -(FX_MAX as int) <= a * b * (FX_ONE as int) <= FX_MAX as int,
    ensures
        fx_mul(u, v) as int == a * b * (FX_ONE as int),
{
    let s: int = FX_ONE as int;
    assert((u as int) * (v as int) == (a * b * s) * s) by (nonlinear_arith)
        requires
            u as int == a * s,
            v as int == b * s,
    ;
    lemma_tdiv_scale(a * b * s);
}

/// A common positive factor cancels out of a truncating division of
/// nonnegative operands.
pub proof fn lemma_tdiv_common_factor(a: int, b: int, m: int)
    requires
        a >= 0,
        b > 0,
        m > 0,
    ensures
        tdiv(a * m, b * m) == a / b,
{
    vstd::arithmetic::div_mod::lemma_div_multiples_vanish_quotient(m, a, b);
    assert(a * m == m * a && b * m == m * b) by (nonlinear_arith);
    assert(a * m >= 0) by (nonlinear_arith)
        requires
            a >= 0,
            m > 0,
    ;
    assert(b * m > 0) by (nonlinear_arith)
        requires
            b > 0,
            m > 0,
    ;
}

} // verus!

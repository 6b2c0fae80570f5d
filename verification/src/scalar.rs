//! Fixed-point numbers.
//!
//! Every quantity of the renderer is a [`Scalar`]: a signed number with 32
//! fractional bits. The operations are total. A result that does not fit is
//! clamped to the nearest end of the range, a quotient or product is rounded
//! towards zero, and a square root is rounded down.

use vstd::prelude::*;

verus! {

/// The raw value that stands for the number one.
pub const ONE_RAW: i64 = 0x1_0000_0000;

/// The largest raw value; the smallest is its negation.
pub const MAX_RAW: i64 = 0x7fff_ffff_ffff_ffff;

/// The raw value that stands for one half.
pub const HALF_RAW: i64 = 0x8000_0000;

/// The nearest raw value in range.
pub open spec fn clamp_raw(v: int) -> int {
    if v > MAX_RAW {
        MAX_RAW as int
    } else if v < -MAX_RAW {
        -MAX_RAW
    } else {
        v
    }
}

/// The quotient of `n` by a non-zero `d`, rounded towards zero.
pub open spec fn trunc_div(n: int, d: int) -> int {
    if d > 0 {
        if n >= 0 {
            n / d
        } else {
            -((-n) / d)
        }
    } else {
        if n >= 0 {
            -(n / (-d))
        } else {
            (-n) / (-d)
        }
    }
}

/// `r` is the square root of `n`, rounded down.
pub open spec fn is_floor_sqrt(n: int, r: int) -> bool {
    0 <= r && r * r <= n < (r + 1) * (r + 1)
}

/// The square root of a non-negative `n`, rounded down.
pub open spec fn floor_sqrt(n: int) -> int {
    choose|r: int| is_floor_sqrt(n, r)
}

pub open spec fn add_raw(a: int, b: int) -> int {
    clamp_raw(a + b)
}

pub open spec fn sub_raw(a: int, b: int) -> int {
    clamp_raw(a - b)
}

pub open spec fn mul_raw(a: int, b: int) -> int {
    clamp_raw(trunc_div(a * b, ONE_RAW as int))
}

/// A quotient by zero takes the end of the range on the side of the
/// numerator, and zero by zero is zero.
pub open spec fn div_raw(a: int, b: int) -> int {
    if b == 0 {
        if a > 0 {
            MAX_RAW as int
        } else if a < 0 {
            -MAX_RAW
        } else {
            0
        }
    } else {
        clamp_raw(trunc_div(a * ONE_RAW, b))
    }
}

/// The square root of a number that is not positive is zero.
pub open spec fn sqrt_raw(a: int) -> int {
    if a <= 0 {
        0
    } else {
        floor_sqrt(a * ONE_RAW)
    }
}

/// At most one number is the rounded-down square root of `n`.
pub proof fn lemma_floor_sqrt_unique(n: int, r1: int, r2: int)
    requires
        is_floor_sqrt(n, r1),
        is_floor_sqrt(n, r2),
    ensures
        r1 == r2,
{
    if r1 < r2 {
        assert((r1 + 1) * (r1 + 1) <= r2 * r2) by (nonlinear_arith)
            requires
                0 <= r1 + 1 <= r2,
        ;
    }
    if r2 < r1 {
        assert((r2 + 1) * (r2 + 1) <= r1 * r1) by (nonlinear_arith)
            requires
                0 <= r2 + 1 <= r1,
        ;
    }
}

/// A witness settles what `floor_sqrt` is.
pub proof fn lemma_floor_sqrt_is(n: int, r: int)
    requires
        is_floor_sqrt(n, r),
    ensures
        floor_sqrt(n) == r,
{
    lemma_floor_sqrt_unique(n, r, floor_sqrt(n));
}

/// Every non-negative number has a rounded-down square root.
pub proof fn lemma_floor_sqrt_exists(n: int)
    requires
        n >= 0,
    ensures
        is_floor_sqrt(n, floor_sqrt(n)),
    decreases n,
{
    if n == 0 {
        assert(is_floor_sqrt(0, 0));
    } else {
        lemma_floor_sqrt_exists(n - 1);
        let r = floor_sqrt(n - 1);
        if n < (r + 1) * (r + 1) {
            assert(is_floor_sqrt(n, r));
        } else {
            assert((r + 1) * (r + 1) < (r + 2) * (r + 2)) by (nonlinear_arith)
                requires
                    r >= 0,
            ;
            assert(is_floor_sqrt(n, r + 1));
        }
    }
}

/// Rounding towards zero commutes with negation of the numerator.
pub proof fn lemma_trunc_div_neg(n: int, d: int)
    requires
        d != 0,
    ensures
        trunc_div(-n, d) == -trunc_div(n, d),
{
    if n == 0 {
        assert(0int / d == 0) by (nonlinear_arith)
            requires
                d != 0,
        ;
        assert(0int / (-d) == 0) by (nonlinear_arith)
            requires
                d != 0,
        ;
    }
}

/// Rounding towards zero is monotone in the numerator when the divisor is positive.
pub proof fn lemma_trunc_div_monotone(m: int, n: int, d: int)
    requires
        m <= n,
        d > 0,
    ensures
        trunc_div(m, d) <= trunc_div(n, d),
{
    if m >= 0 {
        vstd::arithmetic::div_mod::lemma_div_is_ordered(m, n, d);
    } else if n < 0 {
        vstd::arithmetic::div_mod::lemma_div_is_ordered(-n, -m, d);
    } else {
        vstd::arithmetic::div_mod::lemma_div_pos_is_pos(-m, d);
        vstd::arithmetic::div_mod::lemma_div_pos_is_pos(n, d);
    }
}

/// A product changes sign with either factor.
pub proof fn lemma_mul_neg(a: Scalar, b: Scalar)
    requires
        b.wf(),
    ensures
        a.mul(b.neg()) == a.mul(b).neg(),
{
    let x = a.raw as int;
    let y = b.raw as int;
    assert(x * (-y) == -(x * y)) by (nonlinear_arith);
    lemma_trunc_div_neg(x * y, ONE_RAW as int);
}

/// A sum changes sign with both terms.
pub proof fn lemma_add_neg(a: Scalar, b: Scalar)
    requires
        a.wf(),
        b.wf(),
    ensures
        a.neg().add(b.neg()) == a.add(b).neg(),
{
}

/// A product of numbers that are not negative is not negative, and is
/// monotone in both factors.
pub proof fn lemma_mul_monotone(a: Scalar, b: Scalar, c: Scalar, d: Scalar)
    requires
        0 <= a.raw <= b.raw,
        0 <= c.raw <= d.raw,
    ensures
        0 <= a.mul(c).raw <= b.mul(d).raw,
{
    assert(0 <= a.raw * c.raw <= b.raw * d.raw) by (nonlinear_arith)
        requires
            0 <= a.raw <= b.raw,
            0 <= c.raw <= d.raw,
    ;
    lemma_trunc_div_monotone(0, a.raw * c.raw, ONE_RAW as int);
    lemma_trunc_div_monotone(a.raw * c.raw, b.raw * d.raw, ONE_RAW as int);
}

/// A square is not negative.
pub proof fn lemma_square_not_negative(a: Scalar)
    ensures
        a.mul(a).raw >= 0,
{
    assert(a.raw * a.raw >= 0) by (nonlinear_arith);
    lemma_trunc_div_monotone(0, a.raw * a.raw, ONE_RAW as int);
}

/// A product of two numbers between minus one and one lies between
/// minus one and one.
pub proof fn lemma_mul_within_one(a: Scalar, b: Scalar)
    requires
        -ONE_RAW <= a.raw <= ONE_RAW,
        -ONE_RAW <= b.raw <= ONE_RAW,
    ensures
        -ONE_RAW <= a.mul(b).raw <= ONE_RAW,
{
    assert(-(ONE_RAW * ONE_RAW) <= a.raw * b.raw <= ONE_RAW * ONE_RAW) by (nonlinear_arith)
        requires
            -ONE_RAW <= a.raw <= ONE_RAW,
            -ONE_RAW <= b.raw <= ONE_RAW,
            ONE_RAW > 0,
    ;
    assert(ONE_RAW * ONE_RAW == 0x1_0000_0000_0000_0000) by (nonlinear_arith)
        requires
            ONE_RAW == 0x1_0000_0000,
    ;
    lemma_trunc_div_monotone(a.raw * b.raw, ONE_RAW * ONE_RAW, ONE_RAW as int);
    lemma_trunc_div_monotone(-(ONE_RAW * ONE_RAW), a.raw * b.raw, ONE_RAW as int);
}

/// A quotient whose numerator is no larger in size than its positive
/// divisor lies between minus one and one.
pub proof fn lemma_div_within_one(x: Scalar, d: Scalar)
    requires
        d.raw > 0,
        -d.raw <= x.raw <= d.raw,
    ensures
        -ONE_RAW <= x.div(d).raw <= ONE_RAW,
{
    let top = d.raw * ONE_RAW;
    assert(-top <= x.raw * ONE_RAW <= top) by (nonlinear_arith)
        requires
            -d.raw <= x.raw <= d.raw,
            top == d.raw * ONE_RAW,
            ONE_RAW > 0,
    ;
    assert(top >= 0) by (nonlinear_arith)
        requires
            top == d.raw * ONE_RAW,
            d.raw > 0,
            ONE_RAW > 0,
    ;
    vstd::arithmetic::div_mod::lemma_div_multiples_vanish(ONE_RAW as int, d.raw as int);
    lemma_trunc_div_monotone(x.raw * ONE_RAW, top, d.raw as int);
    lemma_trunc_div_monotone(-top, x.raw * ONE_RAW, d.raw as int);
    lemma_trunc_div_neg(top, d.raw as int);
}

/// The square root of `n`, rounded down, by bisection.
fn floor_sqrt_u128(n: u128) -> (r: u128)
    ensures
        is_floor_sqrt(n as int, r as int),
        r < 0x1_0000_0000_0000_0000,
{
    let mut lo: u128 = 0;
    let mut hi: u128 = 0x1_0000_0000_0000_0000;
    assert(hi * hi == 0x1_0000_0000_0000_0000_0000_0000_0000_0000) by (nonlinear_arith)
        requires
            hi == 0x1_0000_0000_0000_0000,
    ;
    while hi - lo > 1
        invariant
            lo < hi <= 0x1_0000_0000_0000_0000,
            lo * lo <= n < hi * hi,
        decreases hi - lo,
    {
        let mid: u128 = lo + (hi - lo) / 2;
        assert(mid * mid <= 0xffff_ffff_ffff_ffff * 0xffff_ffff_ffff_ffff) by (nonlinear_arith)
            requires
                0 <= mid <= 0xffff_ffff_ffff_ffff,
        ;
        if mid * mid <= n {
            lo = mid;
        } else {
            hi = mid;
        }
    }
    lo
}

/// The length of the vector with the given raw coordinates, rounded down
/// and clamped to the range: the square root of the exact sum of their
/// squares.
pub open spec fn hypot_raw(a: int, b: int, c: int) -> int {
    clamp_raw(floor_sqrt(a * a + b * b + c * c))
}

pub open spec fn spec_hypot(a: Scalar, b: Scalar, c: Scalar) -> Scalar {
    Scalar { raw: hypot_raw(a.raw as int, b.raw as int, c.raw as int) as i64 }
}

/// The length of the vector with the given coordinates, rounded down: the
/// square root of the exact sum of their squares.
#[verifier::when_used_as_spec(spec_hypot)]
pub fn hypot(a: Scalar, b: Scalar, c: Scalar) -> (r: Scalar)
    ensures
        r == spec_hypot(a, b, c),
        r.wf(),
        r.raw >= 0,
{
    let x: u128 = magnitude(a.raw);
    let y: u128 = magnitude(b.raw);
    let z: u128 = magnitude(c.raw);
    proof {
        lemma_square_of_magnitude(a.raw as int, x as int);
        lemma_square_of_magnitude(b.raw as int, y as int);
        lemma_square_of_magnitude(c.raw as int, z as int);
    }
    let sum: u128 = x * x + y * y + z * z;
    let root: u128 = floor_sqrt_u128(sum);
    proof {
        lemma_floor_sqrt_is(sum as int, root as int);
    }
    if root > MAX_RAW as u128 {
        Scalar { raw: MAX_RAW }
    } else {
        Scalar { raw: root as i64 }
    }
}

/// The square of a raw value is the square of its absolute value, and
/// fits into 127 bits.
proof fn lemma_square_of_magnitude(raw: int, m: int)
    requires
        m == (if raw < 0 {
            -raw
        } else {
            raw
        }),
        m <= 0x8000_0000_0000_0000,
    ensures
        m * m == raw * raw,
        0 <= m * m <= 0x4000_0000_0000_0000_0000_0000_0000_0000,
{
    assert(m * m == raw * raw) by (nonlinear_arith)
        requires
            m == raw || m == -raw,
    ;
    assert(0 <= m * m <= 0x8000_0000_0000_0000 * 0x8000_0000_0000_0000) by (nonlinear_arith)
        requires
            0 <= m <= 0x8000_0000_0000_0000,
    ;
}

/// The length of a vector is not negative and no coordinate is larger in
/// size, unless it is the one raw value whose negation is out of range.
pub proof fn lemma_hypot_dominates(a: Scalar, b: Scalar, c: Scalar)
    ensures
        hypot(a, b, c).raw >= 0,
        a.wf() ==> -hypot(a, b, c).raw <= a.raw <= hypot(a, b, c).raw,
        b.wf() ==> -hypot(a, b, c).raw <= b.raw <= hypot(a, b, c).raw,
        c.wf() ==> -hypot(a, b, c).raw <= c.raw <= hypot(a, b, c).raw,
        !a.wf() || !b.wf() || !c.wf() ==> hypot(a, b, c).raw == MAX_RAW,
{
    let x = a.raw as int;
    let y = b.raw as int;
    let z = c.raw as int;
    let sum = x * x + y * y + z * z;
    assert(x * x >= 0 && y * y >= 0 && z * z >= 0) by (nonlinear_arith);
    lemma_floor_sqrt_exists(sum);
    let r = floor_sqrt(sum);
    lemma_root_dominates(x, sum, r);
    lemma_root_dominates(y, sum, r);
    lemma_root_dominates(z, sum, r);
}

/// A number whose square is at most `sum` is at most the square root of
/// `sum`, rounded down, in size.
proof fn lemma_root_dominates(x: int, sum: int, r: int)
    requires
        is_floor_sqrt(sum, r),
        x * x <= sum,
    ensures
        -r <= x <= r,
{
    if x > r {
        assert((r + 1) * (r + 1) <= x * x) by (nonlinear_arith)
            requires
                0 <= r + 1 <= x,
        ;
    }
    if x < -r {
        assert((r + 1) * (r + 1) <= x * x) by (nonlinear_arith)
            requires
                0 <= r + 1 <= -x,
        ;
    }
}

/// Each coordinate of a vector, divided by the length of the vector, lies
/// between minus one and one.
pub proof fn lemma_div_by_hypot_within_one(a: Scalar, b: Scalar, c: Scalar)
    ensures
        -ONE_RAW <= a.div(hypot(a, b, c)).raw <= ONE_RAW,
        -ONE_RAW <= b.div(hypot(a, b, c)).raw <= ONE_RAW,
        -ONE_RAW <= c.div(hypot(a, b, c)).raw <= ONE_RAW,
{
    let h = hypot(a, b, c);
    lemma_hypot_dominates(a, b, c);
    lemma_div_by_length_within_one(a, h);
    lemma_div_by_length_within_one(b, h);
    lemma_div_by_length_within_one(c, h);
}

/// A number divided by one that is not negative and no smaller in size
/// lies between minus one and one; so does the one raw value whose
/// negation is out of range, divided by the largest scalar.
proof fn lemma_div_by_length_within_one(x: Scalar, h: Scalar)
    requires
        h.raw >= 0,
        x.wf() ==> -h.raw <= x.raw <= h.raw,
        !x.wf() ==> h.raw == MAX_RAW,
    ensures
        -ONE_RAW <= x.div(h).raw <= ONE_RAW,
{
    if !x.wf() {
        assert(x.raw == -0x8000_0000_0000_0000);
        assert(-(x.raw * ONE_RAW) == 0x8000_0000_0000_0000_0000_0000) by (nonlinear_arith)
            requires
                x.raw == -0x8000_0000_0000_0000,
                ONE_RAW == 0x1_0000_0000,
        ;
        assert(0x8000_0000_0000_0000_0000_0000int / 0x7fff_ffff_ffff_ffff == 0x1_0000_0000)
            by (nonlinear_arith);
    } else if h.raw > 0 {
        lemma_div_within_one(x, h);
    }
}

/// A signed fixed-point number with 32 fractional bits: `raw` stands for
/// the number `raw / 2^32`.
#[derive(Clone, Copy, Debug, PartialEq, Eq, Structural)]
pub struct Scalar {
    pub raw: i64,
}

impl Scalar {
    /// A scalar is well formed when its negation can be represented.
    pub open spec fn wf(self) -> bool {
        -MAX_RAW <= self.raw
    }

    pub open spec fn spec_zero() -> Scalar {
        Scalar { raw: 0 }
    }

    pub open spec fn spec_one() -> Scalar {
        Scalar { raw: ONE_RAW }
    }

    pub open spec fn spec_half() -> Scalar {
        Scalar { raw: HALF_RAW }
    }

    pub open spec fn spec_largest() -> Scalar {
        Scalar { raw: MAX_RAW }
    }

    pub open spec fn spec_from_raw(raw: i64) -> Scalar {
        Scalar { raw: clamp_raw(raw as int) as i64 }
    }

    pub open spec fn spec_from_int(n: i64) -> Scalar {
        Scalar { raw: clamp_raw(n * ONE_RAW) as i64 }
    }

    pub open spec fn spec_from_ratio(num: i64, den: i64) -> Scalar {
        Scalar::spec_from_raw(num).spec_div(Scalar::spec_from_raw(den))
    }

    pub open spec fn spec_neg(self) -> Scalar {
        Scalar { raw: clamp_raw(-self.raw) as i64 }
    }

    pub open spec fn spec_abs(self) -> Scalar {
        if self.raw < 0 {
            self.spec_neg()
        } else {
            self
        }
    }

    pub open spec fn spec_add(self, other: Scalar) -> Scalar {
        Scalar { raw: add_raw(self.raw as int, other.raw as int) as i64 }
    }

    pub open spec fn spec_sub(self, other: Scalar) -> Scalar {
        Scalar { raw: sub_raw(self.raw as int, other.raw as int) as i64 }
    }

    pub open spec fn spec_mul(self, other: Scalar) -> Scalar {
        Scalar { raw: mul_raw(self.raw as int, other.raw as int) as i64 }
    }

    pub open spec fn spec_div(self, other: Scalar) -> Scalar {
        Scalar { raw: div_raw(self.raw as int, other.raw as int) as i64 }
    }

    pub open spec fn spec_sqrt(self) -> Scalar {
        Scalar { raw: sqrt_raw(self.raw as int) as i64 }
    }

    pub open spec fn spec_min(self, other: Scalar) -> Scalar {
        if other.raw < self.raw {
            other
        } else {
            self
        }
    }

    pub open spec fn spec_max(self, other: Scalar) -> Scalar {
        if other.raw > self.raw {
            other
        } else {
            self
        }
    }

    pub open spec fn spec_clamp(self, low: Scalar, high: Scalar) -> Scalar {
        if self.raw < low.raw {
            low
        } else if self.raw > high.raw {
            high
        } else {
            self
        }
    }

    pub open spec fn spec_lt(self, other: Scalar) -> bool {
        self.raw < other.raw
    }

    pub open spec fn spec_le(self, other: Scalar) -> bool {
        self.raw <= other.raw
    }

    /// The number zero.
    #[verifier::when_used_as_spec(spec_zero)]
    pub fn zero() -> (r: Scalar)
        ensures
            r == Scalar::spec_zero(),
            r.wf(),
    {
        Scalar { raw: 0 }
    }

    /// The number one.
    #[verifier::when_used_as_spec(spec_one)]
    pub fn one() -> (r: Scalar)
        ensures
            r == Scalar::spec_one(),
            r.wf(),
    {
        Scalar { raw: ONE_RAW }
    }

    /// The number one half.
    #[verifier::when_used_as_spec(spec_half)]
    pub fn half() -> (r: Scalar)
        ensures
            r == Scalar::spec_half(),
            r.wf(),
    {
        Scalar { raw: HALF_RAW }
    }

    /// The largest scalar, which also stands for an unbounded distance.
    #[verifier::when_used_as_spec(spec_largest)]
    pub fn largest() -> (r: Scalar)
        ensures
            r == Scalar::spec_largest(),
            r.wf(),
    {
        Scalar { raw: MAX_RAW }
    }

    /// The scalar with the given raw value, or the smallest scalar where
    /// the raw value is below it.
    #[verifier::when_used_as_spec(spec_from_raw)]
    pub fn from_raw(raw: i64) -> (r: Scalar)
        ensures
            r == Scalar::spec_from_raw(raw),
            r.wf(),
    {
        if raw < -MAX_RAW {
            Scalar { raw: -MAX_RAW }
        } else {
            Scalar { raw }
        }
    }

    /// The scalar that stands for the whole number `n`.
    #[verifier::when_used_as_spec(spec_from_int)]
    pub fn from_int(n: i64) -> (r: Scalar)
        ensures
            r == Scalar::spec_from_int(n),
            r.wf(),
    {
        assert(-0x8000_0000_0000_0000_0000_0000 <= n * ONE_RAW <= 0x8000_0000_0000_0000_0000_0000)
            by (nonlinear_arith)
            requires
                -0x8000_0000_0000_0000 <= n <= 0x7fff_ffff_ffff_ffff,
                ONE_RAW == 0x1_0000_0000,
        ;
        let wide: i128 = (n as i128) * (ONE_RAW as i128);
        Scalar { raw: clamp_wide(wide) }
    }

    /// The scalar nearest to `num / den` on the side of zero.
    #[verifier::when_used_as_spec(spec_from_ratio)]
    pub fn from_ratio(num: i64, den: i64) -> (r: Scalar)
        ensures
            r == Scalar::spec_from_ratio(num, den),
            r.wf(),
    {
        Scalar::from_raw(num).div(Scalar::from_raw(den))
    }

    /// The negation, which is exact on a well-formed scalar.
    #[verifier::when_used_as_spec(spec_neg)]
    pub fn neg(self) -> (r: Scalar)
        ensures
            r == self.spec_neg(),
            r.wf(),
            self.wf() ==> r.raw == -self.raw,
    {
        if self.raw < -MAX_RAW {
            Scalar { raw: MAX_RAW }
        } else {
            Scalar { raw: -self.raw }
        }
    }

    /// The absolute value, which is exact on a well-formed scalar.
    #[verifier::when_used_as_spec(spec_abs)]
    pub fn abs(self) -> (r: Scalar)
        ensures
            r == self.spec_abs(),
            r.wf(),
            r.raw >= 0,
    {
        if self.raw < 0 {
            self.neg()
        } else {
            self
        }
    }

    /// The sum, clamped to the range.
    #[verifier::when_used_as_spec(spec_add)]
    pub fn add(self, other: Scalar) -> (r: Scalar)
        ensures
            r == self.spec_add(other),
            r.wf(),
    {
        let wide: i128 = (self.raw as i128) + (other.raw as i128);
        Scalar { raw: clamp_wide(wide) }
    }

    /// The difference, clamped to the range.
    #[verifier::when_used_as_spec(spec_sub)]
    pub fn sub(self, other: Scalar) -> (r: Scalar)
        ensures
            r == self.spec_sub(other),
            r.wf(),
    {
        let wide: i128 = (self.raw as i128) - (other.raw as i128);
        Scalar { raw: clamp_wide(wide) }
    }

    /// The product, rounded towards zero and clamped to the range.
    #[verifier::when_used_as_spec(spec_mul)]
    pub fn mul(self, other: Scalar) -> (r: Scalar)
        ensures
            r == self.spec_mul(other),
            r.wf(),
    {
        let a: u128 = magnitude(self.raw);
        let b: u128 = magnitude(other.raw);
        assert(a * b <= 0x8000_0000_0000_0000 * 0x8000_0000_0000_0000) by (nonlinear_arith)
            requires
                0 <= a <= 0x8000_0000_0000_0000,
                0 <= b <= 0x8000_0000_0000_0000,
        ;
        let quotient: u128 = (a * b) / (ONE_RAW as u128);
        let negative: bool = (self.raw < 0) != (other.raw < 0);
        proof {
            let x = self.raw as int;
            let y = other.raw as int;
            if negative {
                assert(-(x * y) == a * b && x * y <= 0) by (nonlinear_arith)
                    requires
                        (x < 0) != (y < 0),
                        a == (if x < 0 {
                            -x
                        } else {
                            x
                        }),
                        b == (if y < 0 {
                            -y
                        } else {
                            y
                        }),
                ;
                if x * y == 0 {
                    assert(0int / (ONE_RAW as int) == 0);
                }
            } else {
                assert(x * y == a * b && x * y >= 0) by (nonlinear_arith)
                    requires
                        (x < 0) == (y < 0),
                        a == (if x < 0 {
                            -x
                        } else {
                            x
                        }),
                        b == (if y < 0 {
                            -y
                        } else {
                            y
                        }),
                ;
            }
        }
        Scalar { raw: signed_clamp(quotient, negative) }
    }

    /// The quotient, rounded towards zero and clamped to the range; see
    /// [`div_raw`] for a zero divisor.
    #[verifier::when_used_as_spec(spec_div)]
    pub fn div(self, other: Scalar) -> (r: Scalar)
        ensures
            r == self.spec_div(other),
            r.wf(),
    {
        if other.raw == 0 {
            if self.raw > 0 {
                Scalar { raw: MAX_RAW }
            } else if self.raw < 0 {
                Scalar { raw: -MAX_RAW }
            } else {
                Scalar { raw: 0 }
            }
        } else {
            let a: u128 = magnitude(self.raw);
            let b: u128 = magnitude(other.raw);
            assert(a * ONE_RAW <= 0x8000_0000_0000_0000_0000_0000) by (nonlinear_arith)
                requires
                    0 <= a <= 0x8000_0000_0000_0000,
                    ONE_RAW == 0x1_0000_0000,
            ;
            let quotient: u128 = (a * (ONE_RAW as u128)) / b;
            let negative: bool = (self.raw < 0) != (other.raw < 0);
            proof {
                if self.raw == 0 {
                    assert(0int / (b as int) == 0) by (nonlinear_arith)
                        requires
                            b > 0,
                    ;
                }
            }
            Scalar { raw: signed_clamp(quotient, negative) }
        }
    }

    /// The square root, rounded down; zero for a number that is not positive.
    #[verifier::when_used_as_spec(spec_sqrt)]
    pub fn sqrt(self) -> (r: Scalar)
        ensures
            r == self.spec_sqrt(),
            r.wf(),
            r.raw >= 0,
    {
        if self.raw <= 0 {
            Scalar { raw: 0 }
        } else {
            let n: u128 = (self.raw as u128) * (ONE_RAW as u128);
            let root: u128 = floor_sqrt_u128(n);
            proof {
                lemma_floor_sqrt_is(n as int, root as int);
                assert(root < 0x1_0000_0000_0000) by (nonlinear_arith)
                    requires
                        0 <= root,
                        root * root <= n,
                        n < 0x1_0000_0000_0000_0000_0000_0000,
                ;
            }
            Scalar { raw: root as i64 }
        }
    }

    /// The smaller of two scalars.
    #[verifier::when_used_as_spec(spec_min)]
    pub fn min(self, other: Scalar) -> (r: Scalar)
        ensures
            r == self.spec_min(other),
    {
        if other.raw < self.raw {
            other
        } else {
            self
        }
    }

    /// The larger of two scalars.
    #[verifier::when_used_as_spec(spec_max)]
    pub fn max(self, other: Scalar) -> (r: Scalar)
        ensures
            r == self.spec_max(other),
    {
        if other.raw > self.raw {
            other
        } else {
            self
        }
    }

    /// `low` where the scalar is below it, `high` where it is above, else
    /// the scalar itself.
    #[verifier::when_used_as_spec(spec_clamp)]
    pub fn clamp(self, low: Scalar, high: Scalar) -> (r: Scalar)
        ensures
            r == self.spec_clamp(low, high),
    {
        if self.raw < low.raw {
            low
        } else if self.raw > high.raw {
            high
        } else {
            self
        }
    }

    /// Whether the scalar is strictly below `other`.
    #[verifier::when_used_as_spec(spec_lt)]
    pub fn lt(self, other: Scalar) -> (r: bool)
        ensures
            r == self.spec_lt(other),
    {
        self.raw < other.raw
    }

    /// Whether the scalar is at most `other`.
    #[verifier::when_used_as_spec(spec_le)]
    pub fn le(self, other: Scalar) -> (r: bool)
        ensures
            r == self.spec_le(other),
    {
        self.raw <= other.raw
    }
}

/// The absolute value of a raw value.
pub fn magnitude(raw: i64) -> (m: u128)
    ensures
        m == (if raw < 0 {
            -raw
        } else {
            raw as int
        }),
        m <= 0x8000_0000_0000_0000,
{
    if raw < 0 {
        (-(raw as i128)) as u128
    } else {
        raw as u128
    }
}

/// The nearest raw value in range.
fn clamp_wide(wide: i128) -> (raw: i64)
    ensures
        raw == clamp_raw(wide as int),
        -MAX_RAW <= raw,
{
    if wide > MAX_RAW as i128 {
        MAX_RAW
    } else if wide < -(MAX_RAW as i128) {
        -MAX_RAW
    } else {
        wide as i64
    }
}

/// The nearest raw value in range to a magnitude with a sign.
fn signed_clamp(quotient: u128, negative: bool) -> (raw: i64)
    ensures
        raw == clamp_raw(
            if negative {
                -(quotient as int)
            } else {
                quotient as int
            },
        ),
        -MAX_RAW <= raw,
{
    if quotient > MAX_RAW as u128 {
        if negative {
            -MAX_RAW
        } else {
            MAX_RAW
        }
    } else if negative {
        -(quotient as i64)
    } else {
        quotient as i64
    }
}

} // verus!

//! Natural and whole numbers of up to 256 bits, for exact sums of products
//! of raw values.

use crate::scalar::is_floor_sqrt;
use vstd::prelude::*;

verus! {

/// Two to the power of 64.
pub const B64: u128 = 0x1_0000_0000_0000_0000;

/// A natural number below two to the power of 256.
#[derive(Clone, Copy, Debug, PartialEq, Eq, Structural)]
pub struct Wide {
    pub hi: u128,
    pub lo: u128,
}

impl View for Wide {
    type V = int;

    open spec fn view(&self) -> int {
        self.hi * 0x1_0000_0000_0000_0000_0000_0000_0000_0000 + self.lo
    }
}

impl Wide {
    /// The number `n`.
    pub fn of(n: u128) -> (r: Wide)
        ensures
            r@ == n,
    {
        Wide { hi: 0, lo: n }
    }

    /// The product of two numbers.
    pub fn product(a: u128, b: u128) -> (r: Wide)
        ensures
            r@ == a * b,
    {
        let a1: u128 = a / B64;
        let a0: u128 = a % B64;
        let b1: u128 = b / B64;
        let b0: u128 = b % B64;
        proof {
            lemma_digit_product(a0 as int, b0 as int);
            lemma_digit_product(a0 as int, b1 as int);
            lemma_digit_product(a1 as int, b0 as int);
            lemma_digit_product(a1 as int, b1 as int);
        }
        let p00: u128 = a0 * b0;
        let p01: u128 = a0 * b1;
        let p10: u128 = a1 * b0;
        let p11: u128 = a1 * b1;
        assert(a * b == p11 * 0x1_0000_0000_0000_0000_0000_0000_0000_0000 + (p01 + p10)
            * 0x1_0000_0000_0000_0000 + p00) by (nonlinear_arith)
            requires
                a == a1 * 0x1_0000_0000_0000_0000 + a0,
                b == b1 * 0x1_0000_0000_0000_0000 + b0,
                p00 == a0 * b0,
                p01 == a0 * b1,
                p10 == a1 * b0,
                p11 == a1 * b1,
        ;
        let d0: u128 = p00 % B64;
        let c0: u128 = p00 / B64;
        let t1: u128 = c0 + p01 % B64 + p10 % B64;
        let d1: u128 = t1 % B64;
        let c1: u128 = t1 / B64;
        let t2: u128 = c1 + p01 / B64 + p10 / B64 + p11 % B64;
        let d2: u128 = t2 % B64;
        let c2: u128 = t2 / B64;
        let t3: u128 = c2 + p11 / B64;
        assert(a * b == t3 * 0x1_0000_0000_0000_0000_0000_0000_0000_0000_0000_0000_0000_0000 + d2
            * 0x1_0000_0000_0000_0000_0000_0000_0000_0000 + d1 * 0x1_0000_0000_0000_0000 + d0);
        assert(a * b <= 0xffff_ffff_ffff_ffff_ffff_ffff_ffff_ffff
            * 0xffff_ffff_ffff_ffff_ffff_ffff_ffff_ffff) by (nonlinear_arith)
            requires
                0 <= a <= 0xffff_ffff_ffff_ffff_ffff_ffff_ffff_ffff,
                0 <= b <= 0xffff_ffff_ffff_ffff_ffff_ffff_ffff_ffff,
        ;
        Wide { hi: t3 * B64 + d2, lo: d1 * B64 + d0 }
    }

    /// Whether the number is at most `other`.
    pub fn le(self, other: Wide) -> (r: bool)
        ensures
            r == (self@ <= other@),
    {
        self.hi < other.hi || (self.hi == other.hi && self.lo <= other.lo)
    }

    /// The sum of two numbers, where it is below two to the power of 256.
    pub fn sum(self, other: Wide) -> (r: Wide)
        requires
            self@ + other@
                < 0x1_0000_0000_0000_0000_0000_0000_0000_0000_0000_0000_0000_0000_0000_0000_0000_0000,
        ensures
            r@ == self@ + other@,
    {
        if self.lo > u128::MAX - other.lo {
            Wide { hi: self.hi + other.hi + 1, lo: self.lo - (u128::MAX - other.lo) - 1 }
        } else {
            Wide { hi: self.hi + other.hi, lo: self.lo + other.lo }
        }
    }

    /// The number less `other`, where `other` is not the larger.
    pub fn difference(self, other: Wide) -> (r: Wide)
        requires
            other@ <= self@,
        ensures
            r@ == self@ - other@,
    {
        if self.lo >= other.lo {
            Wide { hi: self.hi - other.hi, lo: self.lo - other.lo }
        } else {
            Wide { hi: self.hi - other.hi - 1, lo: self.lo + (u128::MAX - other.lo) + 1 }
        }
    }

    /// The number times `k`, where that is below two to the power of 256.
    pub fn scaled(self, k: u128) -> (r: Wide)
        requires
            self@ * k
                < 0x1_0000_0000_0000_0000_0000_0000_0000_0000_0000_0000_0000_0000_0000_0000_0000_0000,
        ensures
            r@ == self@ * k,
    {
        let p = Wide::product(self.lo, k);
        assert(self@ * k == self.hi * k * 0x1_0000_0000_0000_0000_0000_0000_0000_0000 + self.lo
            * k) by (nonlinear_arith)
            requires
                self@ == self.hi * 0x1_0000_0000_0000_0000_0000_0000_0000_0000 + self.lo,
        ;
        assert(self.hi * k >= 0) by (nonlinear_arith);
        let q: u128 = self.hi * k;
        Wide { hi: p.hi + q, lo: p.lo }
    }

    /// The square root, rounded down.
    pub fn sqrt(self) -> (r: u128)
        ensures
            is_floor_sqrt(self@, r as int),
    {
        let top: u128 = u128::MAX;
        if Wide::product(top, top).le(self) {
            assert((top + 1) * (top + 1)
                == 0x1_0000_0000_0000_0000_0000_0000_0000_0000_0000_0000_0000_0000_0000_0000_0000_0000)
                by (nonlinear_arith)
                requires
                    top == 0xffff_ffff_ffff_ffff_ffff_ffff_ffff_ffff,
            ;
            return top;
        }
        let mut lo: u128 = 0;
        let mut hi: u128 = top;
        assert(0int * 0int == 0) by (nonlinear_arith);
        while hi - lo > 1
            invariant
                lo < hi,
                lo * lo <= self@ < hi * hi,
            decreases hi - lo,
        {
            let mid: u128 = lo + (hi - lo) / 2;
            if Wide::product(mid, mid).le(self) {
                lo = mid;
            } else {
                hi = mid;
            }
        }
        lo
    }

    /// The quotient by a positive `d`, rounded down, or `cap` where the
    /// quotient is larger.
    pub fn quotient(self, d: u128, cap: u128) -> (r: u128)
        requires
            d > 0,
        ensures
            r == (if self@ / (d as int) > cap {
                cap as int
            } else {
                self@ / (d as int)
            }),
    {
        if Wide::product(cap, d).le(self) {
            proof {
                assert(cap * d == d * cap) by (nonlinear_arith);
                vstd::arithmetic::div_mod::lemma_div_multiples_vanish(cap as int, d as int);
                vstd::arithmetic::div_mod::lemma_div_is_ordered(cap * d, self@, d as int);
            }
            return cap;
        }
        let mut lo: u128 = 0;
        let mut hi: u128 = cap;
        assert(0 * d == 0) by (nonlinear_arith);
        while hi - lo > 1
            invariant
                lo < hi <= cap,
                lo * d <= self@ < hi * d,
            decreases hi - lo,
        {
            let mid: u128 = lo + (hi - lo) / 2;
            if Wide::product(mid, d).le(self) {
                lo = mid;
            } else {
                hi = mid;
            }
        }
        proof {
            assert((lo + 1) * d == lo * d + d) by (nonlinear_arith);
            vstd::arithmetic::div_mod::lemma_fundamental_div_mod_converse(
                self@,
                d as int,
                lo as int,
                self@ - lo * d,
            );
        }
        lo
    }
}

/// The product of two numbers below two to the power of 64 is below two to
/// the power of 128.
proof fn lemma_digit_product(x: int, y: int)
    requires
        0 <= x < 0x1_0000_0000_0000_0000,
        0 <= y < 0x1_0000_0000_0000_0000,
    ensures
        0 <= x * y <= 0xffff_ffff_ffff_ffff * 0xffff_ffff_ffff_ffff,
        x * y < 0x1_0000_0000_0000_0000_0000_0000_0000_0000,
{
    assert(0 <= x * y <= 0xffff_ffff_ffff_ffff * 0xffff_ffff_ffff_ffff) by (nonlinear_arith)
        requires
            0 <= x <= 0xffff_ffff_ffff_ffff,
            0 <= y <= 0xffff_ffff_ffff_ffff,
    ;
}

/// A whole number of up to 256 bits and a sign.
#[derive(Clone, Copy, Debug, PartialEq, Eq, Structural)]
pub struct Signed {
    pub negative: bool,
    pub size: Wide,
}

impl View for Signed {
    type V = int;

    open spec fn view(&self) -> int {
        if self.negative {
            -self.size@
        } else {
            self.size@
        }
    }
}

impl Signed {
    /// The number `n`.
    pub fn of(n: i128) -> (r: Signed)
        ensures
            r@ == n,
            r.size.hi == 0,
    {
        if n < 0 {
            Signed { negative: true, size: Wide::of((-(n + 1)) as u128 + 1) }
        } else {
            Signed { negative: false, size: Wide::of(n as u128) }
        }
    }

    /// The number with the other sign.
    pub fn negated(self) -> (r: Signed)
        ensures
            r@ == -self@,
            r.size == self.size,
    {
        Signed { negative: !self.negative, size: self.size }
    }

    /// The sum of two numbers, where their sizes add up to less than two
    /// to the power of 256.
    pub fn sum(self, other: Signed) -> (r: Signed)
        requires
            self.size@ + other.size@
                < 0x1_0000_0000_0000_0000_0000_0000_0000_0000_0000_0000_0000_0000_0000_0000_0000_0000,
        ensures
            r@ == self@ + other@,
            r.size@ <= self.size@ + other.size@,
    {
        if self.negative == other.negative {
            Signed { negative: self.negative, size: self.size.sum(other.size) }
        } else if other.size.le(self.size) {
            Signed { negative: self.negative, size: self.size.difference(other.size) }
        } else {
            Signed { negative: other.negative, size: other.size.difference(self.size) }
        }
    }
}

} // verus!

//! Natural numbers of up to 256 bits, for products and sums that a scalar's
//! 64 bits cannot hold. With them a result is computed exactly and rounded
//! once, whatever the size of what goes in.

use crate::scalar::{
    clamp, int_sqrt, is_int_sqrt, lemma_int_sqrt_at_least, lemma_int_sqrt_is,
    lemma_trunc_div_monotone, lemma_trunc_div_sign, trunc_div, Scalar, MAX_RAW,
};
use vstd::prelude::*;

verus! {

/// Two to the 64th.
pub open spec fn two_64() -> int {
    0x1_0000_0000_0000_0000int
}

/// Two to the 128th.
pub open spec fn two_128() -> int {
    0x1_0000_0000_0000_0000_0000_0000_0000_0000int
}

/// Two to the 256th.
pub open spec fn two_256() -> int {
    two_128() * two_128()
}

/// A natural number below two to the 256th: `hi * 2^128 + lo`.
#[derive(Clone, Copy, Debug, PartialEq, Eq, Structural)]
pub struct Wide {
    pub hi: u128,
    pub lo: u128,
}

impl View for Wide {
    type V = int;

    open spec fn view(&self) -> int {
        self.hi * two_128() + self.lo
    }
}

/// The smaller of two integers.
pub open spec fn int_min(a: int, b: int) -> int {
    if a <= b {
        a
    } else {
        b
    }
}

/// A quotient of naturals is the one number `q` with `q * d <= n < (q + 1) * d`.
pub proof fn lemma_quotient_is(n: int, d: int, q: int)
    requires
        d > 0,
        q * d <= n < (q + 1) * d,
    ensures
        n / d == q,
{
    vstd::arithmetic::div_mod::lemma_fundamental_div_mod(n, d);
    vstd::arithmetic::div_mod::lemma_mod_bound(n, d);
    let k = n / d;
    assert(d * k == k * d) by (nonlinear_arith);
    if k < q {
        assert((k + 1) * d <= q * d) by (nonlinear_arith)
            requires
                k + 1 <= q,
                d > 0,
        ;
        assert((k + 1) * d == k * d + d) by (nonlinear_arith);
    } else if k > q {
        assert((q + 1) * d <= k * d) by (nonlinear_arith)
            requires
                q + 1 <= k,
                d > 0,
        ;
    }
}

/// A quotient of a natural is at least `q` where `q * d` does not exceed it.
pub proof fn lemma_quotient_at_least(n: int, d: int, q: int)
    requires
        d > 0,
        q * d <= n,
    ensures
        n / d >= q,
{
    vstd::arithmetic::div_mod::lemma_fundamental_div_mod(n, d);
    vstd::arithmetic::div_mod::lemma_mod_bound(n, d);
    let k = n / d;
    assert(d * k == k * d) by (nonlinear_arith);
    if k < q {
        assert((k + 1) * d <= q * d) by (nonlinear_arith)
            requires
                k + 1 <= q,
                d > 0,
        ;
        assert((k + 1) * d == k * d + d) by (nonlinear_arith);
    }
}

/// The product of two numbers of two digits each, digit by digit.
pub proof fn lemma_product_split(a1: int, a0: int, b1: int, b0: int, base: int)
    ensures
        (a1 * base + a0) * (b1 * base + b0) == (a1 * b1) * (base * base) + (a0 * b1 + a1 * b0)
            * base + a0 * b0,
{
    let x = a1 * base;
    let z = b1 * base;
    assert((x + a0) * (z + b0) == x * z + x * b0 + a0 * z + a0 * b0) by (nonlinear_arith);
    assert(x * z == (a1 * b1) * (base * base)) by (nonlinear_arith)
        requires
            x == a1 * base,
            z == b1 * base,
    ;
    assert(x * b0 == (a1 * b0) * base) by (nonlinear_arith)
        requires
            x == a1 * base,
    ;
    assert(a0 * z == (a0 * b1) * base) by (nonlinear_arith)
        requires
            z == b1 * base,
    ;
    assert((a0 * b1 + a1 * b0) * base == (a0 * b1) * base + (a1 * b0) * base)
        by (nonlinear_arith);
}

impl Wide {
    pub(crate) fn zero() -> (r: Wide)
        ensures
            r@ == 0,
    {
        Wide { hi: 0, lo: 0 }
    }

    pub(crate) fn from_u128(x: u128) -> (r: Wide)
        ensures
            r@ == x,
    {
        Wide { hi: 0, lo: x }
    }

    /// The product of `a` and `b`, in full.
    pub(crate) fn mul(a: u128, b: u128) -> (r: Wide)
        ensures
            r@ == a * b,
    {
        let base: u128 = 0x1_0000_0000_0000_0000;
        let a0 = a % base;
        let a1 = a / base;
        let b0 = b % base;
        let b1 = b / base;
        proof {
            assert(a0 * b0 <= 0xffff_ffff_ffff_ffff * 0xffff_ffff_ffff_ffff) by (nonlinear_arith)
                requires
                    0 <= a0 <= 0xffff_ffff_ffff_ffff,
                    0 <= b0 <= 0xffff_ffff_ffff_ffff,
            ;
            assert(a0 * b1 <= 0xffff_ffff_ffff_ffff * 0xffff_ffff_ffff_ffff) by (nonlinear_arith)
                requires
                    0 <= a0 <= 0xffff_ffff_ffff_ffff,
                    0 <= b1 <= 0xffff_ffff_ffff_ffff,
            ;
            assert(a1 * b0 <= 0xffff_ffff_ffff_ffff * 0xffff_ffff_ffff_ffff) by (nonlinear_arith)
                requires
                    0 <= a1 <= 0xffff_ffff_ffff_ffff,
                    0 <= b0 <= 0xffff_ffff_ffff_ffff,
            ;
            assert(a1 * b1 <= 0xffff_ffff_ffff_ffff * 0xffff_ffff_ffff_ffff) by (nonlinear_arith)
                requires
                    0 <= a1 <= 0xffff_ffff_ffff_ffff,
                    0 <= b1 <= 0xffff_ffff_ffff_ffff,
            ;
        }
        let p00 = a0 * b0;
        let p01 = a0 * b1;
        let p10 = a1 * b0;
        let p11 = a1 * b1;
        let carry = p00 / base + p01 % base + p10 % base;
        let lo = p00 % base + (carry % base) * base;
        proof {
            let bb = two_64();
            lemma_product_split(a1 as int, a0 as int, b1 as int, b0 as int, bb);
            assert(a == a1 * bb + a0);
            assert(b == b1 * bb + b0);
            assert(a * b == p11 * (bb * bb) + (p01 + p10) * bb + p00);
            assert(bb * bb == two_128());
            let h = p11 + p01 / base + p10 / base + carry / base;
            let q00 = (p00 / base) as int;
            let r00 = (p00 % base) as int;
            let q01 = (p01 / base) as int;
            let r01 = (p01 % base) as int;
            let q10 = (p10 / base) as int;
            let r10 = (p10 % base) as int;
            let qc = (carry / base) as int;
            let rc = (carry % base) as int;
            assert(h * (bb * bb) + lo == p11 * (bb * bb) + (p01 + p10) * bb + p00)
                by (nonlinear_arith)
                requires
                    p00 == q00 * bb + r00,
                    p01 == q01 * bb + r01,
                    p10 == q10 * bb + r10,
                    carry == qc * bb + rc,
                    carry == q00 + r01 + r10,
                    h == p11 + q01 + q10 + qc,
                    lo == r00 + rc * bb,
            ;
            assert(h * two_128() + lo == a * b);
            assert(a * b < two_128() * two_128()) by (nonlinear_arith)
                requires
                    0 <= a < two_128(),
                    0 <= b < two_128(),
            ;
            assert(h < two_128()) by (nonlinear_arith)
                requires
                    h * two_128() + lo < two_128() * two_128(),
                    lo >= 0,
                    h >= 0,
            ;
        }
        let hi = p11 + p01 / base + p10 / base + carry / base;
        Wide { hi, lo }
    }

    /// Whether `self` does not exceed `other`.
    pub(crate) fn le(&self, other: &Wide) -> (r: bool)
        ensures
            r == (self@ <= other@),
    {
        if self.hi != other.hi {
            self.hi < other.hi
        } else {
            self.lo <= other.lo
        }
    }

    /// The sum, which must be below two to the 256th.
    pub(crate) fn add(&self, other: &Wide) -> (r: Wide)
        requires
            self@ + other@ < two_256(),
        ensures
            r@ == self@ + other@,
    {
        assert(two_256() == two_128() * two_128());
        if self.lo > u128::MAX - other.lo {
            Wide { hi: self.hi + other.hi + 1, lo: self.lo - (u128::MAX - other.lo) - 1 }
        } else {
            Wide { hi: self.hi + other.hi, lo: self.lo + other.lo }
        }
    }

    /// The difference `self - other`, for `other` not above `self`.
    pub(crate) fn sub(&self, other: &Wide) -> (r: Wide)
        requires
            other@ <= self@,
        ensures
            r@ == self@ - other@,
    {
        if self.lo >= other.lo {
            Wide { hi: self.hi - other.hi, lo: self.lo - other.lo }
        } else {
            Wide { hi: self.hi - other.hi - 1, lo: u128::MAX - other.lo + self.lo + 1 }
        }
    }

    /// `self` times `q`, where that is below two to the 256th.
    pub(crate) fn checked_scale(&self, q: u128) -> (r: Option<Wide>)
        ensures
            r is None <==> self@ * q >= two_256(),
            r matches Some(w) ==> w@ == self@ * q,
    {
        let low = Wide::mul(self.lo, q);
        let high = Wide::mul(self.hi, q);
        proof {
            assert(self@ * q == (self.hi * q) * two_128() + self.lo * q) by (nonlinear_arith)
                requires
                    self@ == self.hi * two_128() + self.lo,
            ;
            assert(two_256() == two_128() * two_128());
            assert(high@ * two_128() == high.hi * (two_128() * two_128()) + high.lo * two_128())
                by (nonlinear_arith)
                requires
                    high@ == high.hi * two_128() + high.lo,
            ;
            if high.hi != 0 {
                assert(high.hi * (two_128() * two_128()) >= two_128() * two_128())
                    by (nonlinear_arith)
                    requires
                        high.hi >= 1,
                ;
            }
        }
        if high.hi != 0 {
            return None;
        }
        if high.lo > u128::MAX - low.hi {
            return None;
        }
        Some(Wide { hi: high.lo + low.hi, lo: low.lo })
    }

    /// The quotient `self / den`, rounded down, or `cap` where the quotient
    /// is larger.
    pub(crate) fn div_capped(&self, den: &Wide, cap: u128) -> (r: u128)
        requires
            den@ > 0,
            cap < 0x8000_0000_0000_0000_0000_0000_0000_0000,
        ensures
            r == int_min(self@ / den@, cap as int),
    {
        let mut lo: u128 = 0;
        let mut hi: u128 = cap + 1;
        assert(0 * den@ == 0);
        while hi - lo > 1
            invariant
                lo < hi <= cap + 1,
                den@ > 0,
                lo * den@ <= self@,
                hi <= cap ==> hi * den@ > self@,
            decreases hi - lo,
        {
            let mid: u128 = lo + (hi - lo) / 2;
            let fits = match den.checked_scale(mid) {
                Some(p) => p.le(self),
                None => false,
            };
            proof {
                assert(den@ * mid == mid * den@) by (nonlinear_arith);
            }
            if fits {
                lo = mid;
            } else {
                hi = mid;
            }
        }
        proof {
            if lo == cap {
                lemma_quotient_at_least(self@, den@, lo as int);
            } else {
                lemma_quotient_is(self@, den@, lo as int);
            }
        }
        lo
    }

    /// The integer square root of `self`, or `cap` where the root is larger.
    pub(crate) fn sqrt_capped(&self, cap: u128) -> (r: u128)
        requires
            cap < 0x8000_0000_0000_0000_0000_0000_0000_0000,
        ensures
            r == int_min(int_sqrt(self@), cap as int),
    {
        let mut lo: u128 = 0;
        let mut hi: u128 = cap + 1;
        while hi - lo > 1
            invariant
                lo < hi <= cap + 1,
                lo * lo <= self@,
                hi <= cap ==> hi * hi > self@,
            decreases hi - lo,
        {
            let mid: u128 = lo + (hi - lo) / 2;
            let square = Wide::mul(mid, mid);
            if square.le(self) {
                lo = mid;
            } else {
                hi = mid;
            }
        }
        proof {
            if lo == cap {
                lemma_int_sqrt_at_least(self@, lo as int);
            } else {
                assert(is_int_sqrt(self@, lo as int));
                lemma_int_sqrt_is(self@, lo as int);
            }
        }
        lo
    }
}

/// From this magnitude on, in raw units, numbers are taken in eighths before they are
/// multiplied, so that every product fits.
pub const LARGE_RAW: i128 = 0x2000_0000_0000_0000;

pub open spec fn is_large(x: int) -> bool {
    x >= LARGE_RAW || x <= -LARGE_RAW
}

/// Whether one of the first `n` numbers of `s` is large.
pub open spec fn any_large(s: Seq<int>, n: nat) -> bool
    decreases n,
{
    n > 0 && (any_large(s, (n - 1) as nat) || is_large(s[n - 1]))
}

/// `x`, or an eighth of it rounded toward zero.
pub open spec fn reduce(x: int, large: bool) -> int {
    if large {
        trunc_div(x, 8)
    } else {
        x
    }
}

/// The quotient `num / den` rounded toward zero and kept in the range of a
/// scalar. Dividing by zero gives the bound on the side of the numerator,
/// and zero for a zero numerator.
pub open spec fn bounded_quotient(num: int, den: int) -> int {
    if den == 0 {
        if num > 0 {
            MAX_RAW as int
        } else if num < 0 {
            -(MAX_RAW as int)
        } else {
            0
        }
    } else {
        clamp(trunc_div(num, den))
    }
}

/// A quotient keeps the order of the numerators when the denominator is not
/// negative, and has the sign of the numerator.
pub proof fn lemma_bounded_quotient_monotone(n1: int, n2: int, den: int)
    requires
        n1 <= n2,
        den >= 0,
    ensures
        bounded_quotient(n1, den) <= bounded_quotient(n2, den),
        n1 <= 0 ==> bounded_quotient(n1, den) <= 0,
        n2 >= 0 ==> bounded_quotient(n2, den) >= 0,
        bounded_quotient(-n1, den) == -bounded_quotient(n1, den),
{
    if den > 0 {
        lemma_trunc_div_monotone(n1, n2, den);
        lemma_trunc_div_sign(n1, den);
        lemma_trunc_div_sign(n2, den);
    }
}

/// Where none of the first `n` numbers is large, no one of them is.
pub proof fn lemma_none_large(s: Seq<int>, n: nat, i: int)
    requires
        !any_large(s, n),
        0 <= i < n,
    ensures
        !is_large(s[i]),
    decreases n,
{
    if i < n - 1 {
        lemma_none_large(s, (n - 1) as nat, i);
    }
}

pub(crate) fn is_large_raw(x: i128) -> (r: bool)
    ensures
        r == is_large(x as int),
{
    x >= LARGE_RAW || x <= -LARGE_RAW
}

/// The magnitude of `x`.
pub(crate) fn abs_i128(x: i128) -> (m: u128)
    requires
        x > i128::MIN,
    ensures
        m == x || m == -x,
        x >= 0 ==> m == x,
        x <= 0 ==> m == -x,
{
    if x < 0 {
        (-x) as u128
    } else {
        x as u128
    }
}

/// `num * scale / den`, rounded toward zero and kept in range.
pub(crate) fn quotient_of(num: i128, scale: u128, den: u128) -> (t: Scalar)
    requires
        -0x4000_0000_0000_0000_0000_0000_0000_0000 < num
            < 0x4000_0000_0000_0000_0000_0000_0000_0000,
        0 < scale <= 8_000_000_000,
    ensures
        t@ == bounded_quotient(num * scale, den as int),
{
    let m = abs_i128(num);
    proof {
        assert(num > 0 ==> num * scale > 0) by (nonlinear_arith)
            requires
                scale > 0,
        ;
        assert(num < 0 ==> num * scale < 0) by (nonlinear_arith)
            requires
                scale > 0,
        ;
        assert(num == 0 ==> num * scale == 0) by (nonlinear_arith);
        assert(m * scale == num * scale || m * scale == -(num * scale)) by (nonlinear_arith)
            requires
                m == num || m == -num,
        ;
        assert(m * scale >= 0) by (nonlinear_arith)
            requires
                m >= 0,
                scale > 0,
        ;
    }
    if den == 0 {
        if num > 0 {
            Scalar { raw: MAX_RAW }
        } else if num < 0 {
            Scalar { raw: -MAX_RAW }
        } else {
            Scalar { raw: 0 }
        }
    } else {
        let top = Wide::mul(m, scale);
        let q = top.div_capped(&Wide::from_u128(den), MAX_RAW as u128);
        proof {
            vstd::arithmetic::div_mod::lemma_div_pos_is_pos(top@, den as int);
        }
        if num < 0 {
            Scalar { raw: -(q as i64) }
        } else {
            Scalar { raw: q as i64 }
        }
    }
}


/// An integer of up to 256 bits and a sign.
#[derive(Clone, Copy, Debug)]
pub struct SignedWide {
    pub negative: bool,
    pub magnitude: Wide,
}

impl View for SignedWide {
    type V = int;

    open spec fn view(&self) -> int {
        if self.negative {
            -self.magnitude@
        } else {
            self.magnitude@
        }
    }
}

/// A count of up to a machine word of numbers below two to the 128th sums
/// to less than two to the 256th.
pub proof fn lemma_count_fits(n: int)
    requires
        0 <= n < two_64(),
    ensures
        n * two_128() + two_128() < two_256(),
{
    assert(n * two_128() + two_128() <= two_64() * two_128()) by (nonlinear_arith)
        requires
            0 <= n < two_64(),
            two_128() > 0,
    ;
    assert(two_256() == two_128() * two_128());
    assert(two_64() * two_128() < two_128() * two_128()) by (nonlinear_arith)
        requires
            two_64() < two_128(),
            two_128() > 0,
    ;
}

impl SignedWide {
    pub(crate) fn zero() -> (r: SignedWide)
        ensures
            r@ == 0,
            r.magnitude@ == 0,
    {
        SignedWide { negative: false, magnitude: Wide::zero() }
    }

    /// One whole, in raw units.
    pub(crate) fn one_whole() -> (r: SignedWide)
        ensures
            r@ == 1_000_000_000,
            r.magnitude@ == 1_000_000_000,
    {
        SignedWide { negative: false, magnitude: Wide::from_u128(1_000_000_000) }
    }

    /// `self + a * b`, in full.
    pub(crate) fn plus_product(&self, a: i64, b: i64) -> (r: SignedWide)
        requires
            self.magnitude@ + two_128() < two_256(),
        ensures
            r@ == self@ + a * b,
            r.magnitude@ <= self.magnitude@ + two_128(),
    {
        let term = SignedWide::product(a as i128, b as i128);
        proof {
            assert(-two_128() < a * b < two_128()) by (nonlinear_arith)
                requires
                    -0x8000_0000_0000_0000 <= a <= 0x8000_0000_0000_0000,
                    -0x8000_0000_0000_0000 <= b <= 0x8000_0000_0000_0000,
                    two_128() == 0x1_0000_0000_0000_0000_0000_0000_0000_0000int,
            ;
        }
        self.plus(&term)
    }

    /// The product of `a` and `b`, in full.
    pub(crate) fn product(a: i128, b: i128) -> (r: SignedWide)
        requires
            a > i128::MIN,
            b > i128::MIN,
        ensures
            r@ == a * b,
            r.magnitude@ == r@ || r.magnitude@ == -r@,
    {
        let x = abs_i128(a);
        let y = abs_i128(b);
        proof {
            assert(x * y == a * b || x * y == -(a * b)) by (nonlinear_arith)
                requires
                    x == a || x == -a,
                    y == b || y == -b,
            ;
            assert((a < 0) != (b < 0) ==> x * y == -(a * b)) by (nonlinear_arith)
                requires
                    a >= 0 ==> x == a,
                    a <= 0 ==> x == -a,
                    b >= 0 ==> y == b,
                    b <= 0 ==> y == -b,
            ;
            assert((a < 0) == (b < 0) ==> x * y == a * b) by (nonlinear_arith)
                requires
                    a >= 0 ==> x == a,
                    a <= 0 ==> x == -a,
                    b >= 0 ==> y == b,
                    b <= 0 ==> y == -b,
            ;
        }
        SignedWide { negative: (a < 0) != (b < 0), magnitude: Wide::mul(x, y) }
    }

    /// `self` times `k`, in full.
    pub(crate) fn times(&self, k: i128) -> (r: SignedWide)
        requires
            k > i128::MIN,
            self.magnitude@ * k < two_256(),
            self.magnitude@ * k > -two_256(),
        ensures
            r@ == self@ * k,
            r.magnitude@ == self.magnitude@ * k || r.magnitude@ == -(self.magnitude@ * k),
    {
        let y = abs_i128(k);
        proof {
            assert(self.magnitude@ * y == self.magnitude@ * k || self.magnitude@ * y == -(
            self.magnitude@ * k)) by (nonlinear_arith)
                requires
                    y == k || y == -k,
            ;
            assert(self@ * k == self.magnitude@ * k || self@ * k == -(self.magnitude@ * k))
                by (nonlinear_arith)
                requires
                    self@ == self.magnitude@ || self@ == -self.magnitude@,
            ;
            assert(self.negative != (k < 0) ==> self@ * k == -(self.magnitude@ * y))
                by (nonlinear_arith)
                requires
                    self.negative ==> self@ == -self.magnitude@,
                    !self.negative ==> self@ == self.magnitude@,
                    k >= 0 ==> y == k,
                    k <= 0 ==> y == -k,
            ;
            assert(self.negative == (k < 0) ==> self@ * k == self.magnitude@ * y)
                by (nonlinear_arith)
                requires
                    self.negative ==> self@ == -self.magnitude@,
                    !self.negative ==> self@ == self.magnitude@,
                    k >= 0 ==> y == k,
                    k <= 0 ==> y == -k,
            ;
        }
        match self.magnitude.checked_scale(y) {
            Some(magnitude) => SignedWide { negative: self.negative != (k < 0), magnitude },
            None => {
                proof {
                    assert(false);
                }
                SignedWide { negative: false, magnitude: Wide::zero() }
            },
        }
    }

    /// The sum, in full.
    pub(crate) fn plus(&self, other: &SignedWide) -> (r: SignedWide)
        requires
            self.magnitude@ + other.magnitude@ < two_256(),
        ensures
            r@ == self@ + other@,
            r.magnitude@ <= self.magnitude@ + other.magnitude@,
    {
        if self.negative == other.negative {
            SignedWide { negative: self.negative, magnitude: self.magnitude.add(&other.magnitude) }
        } else if other.magnitude.le(&self.magnitude) {
            SignedWide { negative: self.negative, magnitude: self.magnitude.sub(&other.magnitude) }
        } else {
            SignedWide {
                negative: other.negative,
                magnitude: other.magnitude.sub(&self.magnitude),
            }
        }
    }

    /// The difference, in full.
    pub(crate) fn minus(&self, other: &SignedWide) -> (r: SignedWide)
        requires
            self.magnitude@ + other.magnitude@ < two_256(),
        ensures
            r@ == self@ - other@,
            r.magnitude@ <= self.magnitude@ + other.magnitude@,
    {
        self.plus(&SignedWide { negative: !other.negative, magnitude: other.magnitude })
    }

    /// `self * mult / den`, rounded toward zero and kept in the range of a
    /// scalar.
    pub(crate) fn quotient(&self, mult: u128, den: &SignedWide) -> (t: Scalar)
        requires
            mult > 0,
            den.magnitude@ < 0x1_0000_0000_0000_0000_0000_0000_0000_0000_0000_0000_0000_0000int
                || self.magnitude@ * mult < two_256(),
        ensures
            t@ == bounded_quotient(self@ * mult, den@),
    {
        let is_zero = self.magnitude.hi == 0 && self.magnitude.lo == 0;
        let den_is_zero = den.magnitude.hi == 0 && den.magnitude.lo == 0;
        let negative = self.negative != den.negative;
        proof {
            let m = self.magnitude@;
            let d = den.magnitude@;
            assert(m * mult >= 0) by (nonlinear_arith)
                requires
                    m >= 0,
                    mult > 0,
            ;
            assert(m > 0 ==> m * mult > 0) by (nonlinear_arith)
                requires
                    mult > 0,
            ;
            assert(m == 0 ==> m * mult == 0) by (nonlinear_arith);
            assert(self@ * mult == m * mult || self@ * mult == -(m * mult)) by (nonlinear_arith)
                requires
                    self@ == m || self@ == -m,
            ;
            assert(self.negative ==> self@ * mult == -(m * mult)) by (nonlinear_arith)
                requires
                    self.negative ==> self@ == -m,
            ;
            assert(!self.negative ==> self@ * mult == m * mult) by (nonlinear_arith)
                requires
                    !self.negative ==> self@ == m,
            ;
            if d > 0 {
                vstd::arithmetic::div_mod::lemma_div_pos_is_pos(m * mult, d);
            }
        }
        if den_is_zero {
            assert(den@ == 0);
            if is_zero {
                assert(self@ * mult == 0);
                Scalar { raw: 0 }
            } else if self.negative {
                assert(self@ * mult < 0);
                Scalar { raw: -MAX_RAW }
            } else {
                assert(self@ * mult > 0);
                Scalar { raw: MAX_RAW }
            }
        } else {
            let q: u128 = match self.magnitude.checked_scale(mult) {
                Some(top) => top.div_capped(&den.magnitude, MAX_RAW as u128),
                None => {
                    proof {
                        let d = den.magnitude@;
                        let top = self.magnitude@ * mult;
                        assert(two_256() == two_128() * two_128());
                        assert(0x1_0000_0000_0000_0000int * d <= top) by (nonlinear_arith)
                            requires
                                0 < d
                                    < 0x1_0000_0000_0000_0000_0000_0000_0000_0000_0000_0000_0000_0000int,
                                top >= 0x1_0000_0000_0000_0000_0000_0000_0000_0000int
                                    * 0x1_0000_0000_0000_0000_0000_0000_0000_0000int,
                        ;
                        lemma_quotient_at_least(top, d, 0x1_0000_0000_0000_0000int);
                    }
                    MAX_RAW as u128
                },
            };
            proof {
                let n = self@ * mult;
                let top = self.magnitude@ * mult;
                let d = den.magnitude@;
                assert(q == int_min(top / d, MAX_RAW as int));
                assert(n == top || n == -top);
                assert(den@ == d || den@ == -d);
                if negative {
                    assert(trunc_div(n, den@) == -(top / d));
                } else {
                    assert(trunc_div(n, den@) == top / d);
                }
            }
            if negative {
                Scalar { raw: -(q as i64) }
            } else {
                Scalar { raw: q as i64 }
            }
        }
    }
}

} // verus!

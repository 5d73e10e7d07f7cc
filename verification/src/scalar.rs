//! Fixed-point scalars: a signed 64-bit count of billionths.
//!
//! Every operation is total. A result that leaves the representable range
//! stops at the nearest bound, a quotient by zero stops at the bound on the
//! side of the numerator's sign, and quotients round toward zero.

use vstd::prelude::*;
use vstd::std_specs::ops::{AddSpecImpl, DivSpecImpl, MulSpecImpl, NegSpecImpl, SubSpecImpl};

verus! {

/// Raw units per whole unit: a scalar holds nine decimal places.
pub const ONE_RAW: i64 = 1_000_000_000;

/// The largest raw magnitude; the range is symmetric, so negation is exact.
pub const MAX_RAW: i64 = 9_223_372_036_854_775_807;

/// `x` brought into `[-MAX_RAW, MAX_RAW]`.
pub open spec fn clamp(x: int) -> int {
    if x > MAX_RAW {
        MAX_RAW as int
    } else if x < -MAX_RAW {
        -(MAX_RAW as int)
    } else {
        x
    }
}

/// The quotient `a / b` rounded toward zero, for `b != 0`.
pub open spec fn trunc_div(a: int, b: int) -> int
    recommends
        b != 0,
{
    if a >= 0 {
        if b > 0 {
            a / b
        } else {
            -(a / (-b))
        }
    } else {
        if b > 0 {
            -((-a) / b)
        } else {
            (-a) / (-b)
        }
    }
}

pub open spec fn fx_add(a: int, b: int) -> int {
    clamp(a + b)
}

pub open spec fn fx_sub(a: int, b: int) -> int {
    clamp(a - b)
}

pub open spec fn fx_neg(a: int) -> int {
    clamp(-a)
}

pub open spec fn fx_abs(a: int) -> int {
    if a < 0 {
        clamp(-a)
    } else {
        clamp(a)
    }
}

pub open spec fn fx_mul(a: int, b: int) -> int {
    clamp(trunc_div(a * b, ONE_RAW as int))
}

/// The quotient of two raw values. Dividing by zero gives the bound on the
/// side of the numerator, and zero for a zero numerator.
pub open spec fn fx_div(a: int, b: int) -> int {
    if b == 0 {
        if a > 0 {
            MAX_RAW as int
        } else if a < 0 {
            -(MAX_RAW as int)
        } else {
            0
        }
    } else {
        clamp(trunc_div(a * ONE_RAW, b))
    }
}

/// `r` is the integer square root of `n`.
pub open spec fn is_int_sqrt(n: int, r: int) -> bool {
    0 <= r && r * r <= n < (r + 1) * (r + 1)
}

/// The integer square root of `n`, for `n >= 0`.
pub open spec fn int_sqrt(n: int) -> int {
    choose|r: int| is_int_sqrt(n, r)
}

/// The square root of a raw value, rounded down; zero for a negative one.
pub open spec fn fx_sqrt(a: int) -> int {
    if a <= 0 {
        0
    } else {
        int_sqrt(a * ONE_RAW)
    }
}

/// `base` raised to the whole power `n`, one rounded product at a time.
pub open spec fn fx_pow(base: int, n: nat) -> int
    decreases n,
{
    if n == 0 {
        ONE_RAW as int
    } else {
        fx_mul(fx_pow(base, (n - 1) as nat), base)
    }
}

pub open spec fn fx_min(a: int, b: int) -> int {
    if a <= b {
        a
    } else {
        b
    }
}

pub open spec fn fx_max(a: int, b: int) -> int {
    if a >= b {
        a
    } else {
        b
    }
}

/// The raw values of a sequence of scalars.
pub open spec fn scalars_view(s: Seq<Scalar>) -> Seq<int> {
    Seq::new(s.len(), |i: int| s[i]@)
}

pub proof fn lemma_int_sqrt_unique(n: int, r1: int, r2: int)
    requires
        is_int_sqrt(n, r1),
        is_int_sqrt(n, r2),
    ensures
        r1 == r2,
{
    if r1 < r2 {
        assert((r1 + 1) * (r1 + 1) <= r2 * r2) by (nonlinear_arith)
            requires
                0 <= r1,
                r1 + 1 <= r2,
        ;
    } else if r2 < r1 {
        assert((r2 + 1) * (r2 + 1) <= r1 * r1) by (nonlinear_arith)
            requires
                0 <= r2,
                r2 + 1 <= r1,
        ;
    }
}

/// Any root found for `n` is the one `int_sqrt` names.
pub proof fn lemma_int_sqrt_is(n: int, r: int)
    requires
        is_int_sqrt(n, r),
    ensures
        int_sqrt(n) == r,
{
    lemma_int_sqrt_unique(n, int_sqrt(n), r);
}

/// Once a power is zero, every later power is zero.
pub proof fn lemma_pow_stays_zero(base: int, i: nat, n: nat)
    requires
        i <= n,
        fx_pow(base, i) == 0,
    ensures
        fx_pow(base, n) == 0,
    decreases n - i,
{
    if i < n {
        assert(fx_pow(base, i + 1) == fx_mul(fx_pow(base, i), base));
        assert(0 * base == 0);
        lemma_pow_stays_zero(base, i + 1, n);
    }
}

/// Every natural number has an integer square root.
pub proof fn lemma_int_sqrt_exists(n: nat)
    ensures
        is_int_sqrt(n as int, int_sqrt(n as int)),
    decreases n,
{
    if n == 0 {
        assert(is_int_sqrt(0, 0));
    } else {
        lemma_int_sqrt_exists((n - 1) as nat);
        let r = int_sqrt(n - 1);
        if (r + 1) * (r + 1) <= n {
            assert((r + 2) * (r + 2) > n) by (nonlinear_arith)
                requires
                    0 <= r,
                    r * r <= n - 1,
                    n - 1 < (r + 1) * (r + 1),
            ;
            assert(is_int_sqrt(n as int, r + 1));
        } else {
            assert(is_int_sqrt(n as int, r));
        }
    }
}

/// The root of a number that is at least `m * m` is at least `m`.
pub proof fn lemma_int_sqrt_at_least(n: int, m: int)
    requires
        0 <= m,
        m * m <= n,
    ensures
        int_sqrt(n) >= m,
{
    lemma_int_sqrt_exists(n as nat);
    let r = int_sqrt(n);
    if r < m {
        assert((r + 1) * (r + 1) <= m * m) by (nonlinear_arith)
            requires
                0 <= r,
                r + 1 <= m,
        ;
    }
}

/// Rounding toward zero keeps the order of the numerators over a positive
/// denominator.
pub proof fn lemma_trunc_div_monotone(a1: int, a2: int, b: int)
    requires
        a1 <= a2,
        b > 0,
    ensures
        trunc_div(a1, b) <= trunc_div(a2, b),
{
    if a1 >= 0 {
        vstd::arithmetic::div_mod::lemma_div_is_ordered(a1, a2, b);
    } else if a2 >= 0 {
        vstd::arithmetic::div_mod::lemma_div_pos_is_pos(-a1, b);
        vstd::arithmetic::div_mod::lemma_div_pos_is_pos(a2, b);
    } else {
        vstd::arithmetic::div_mod::lemma_div_is_ordered(-a2, -a1, b);
    }
}

/// Rounding toward zero gives a quotient with the sign of the numerator,
/// over a positive denominator.
pub proof fn lemma_trunc_div_sign(a: int, b: int)
    requires
        b > 0,
    ensures
        a >= 0 ==> trunc_div(a, b) >= 0,
        a <= 0 ==> trunc_div(a, b) <= 0,
{
    if a >= 0 {
        vstd::arithmetic::div_mod::lemma_div_pos_is_pos(a, b);
    } else {
        vstd::arithmetic::div_mod::lemma_div_pos_is_pos(-a, b);
    }
}

/// The integer square root of `n` by bisection.
pub fn int_sqrt_u128(n: u128) -> (r: u128)
    requires
        n < 0x4000_0000_0000_0000_0000_0000,
    ensures
        is_int_sqrt(n as int, r as int),
        r == int_sqrt(n as int),
        r < 0x8000_0000_0000,
{
    let mut lo: u128 = 0;
    let mut hi: u128 = 0x8000_0000_0000;
    assert(0x8000_0000_0000int * 0x8000_0000_0000int == 0x4000_0000_0000_0000_0000_0000int);
    while hi - lo > 1
        invariant
            lo < hi <= 0x8000_0000_0000,
            lo * lo <= n < hi * hi,
        decreases hi - lo,
    {
        let mid: u128 = lo + (hi - lo) / 2;
        assert(mid * mid < 0x4000_0000_0000_0000_0000_0000) by (nonlinear_arith)
            requires
                0 <= mid < 0x8000_0000_0000,
        ;
        if mid * mid <= n {
            lo = mid;
        } else {
            hi = mid;
        }
    }
    proof {
        assert(hi == lo + 1);
        lemma_int_sqrt_is(n as int, lo as int);
    }
    lo
}

/// `raw` times the raw units of one whole.
fn scale_up(raw: i64) -> (r: i128)
    ensures
        r == raw * ONE_RAW,
{
    let one: i128 = 1_000_000_000;
    assert(one == ONE_RAW);
    (raw as i128) * one
}

fn clamp_i128(x: i128) -> (r: Scalar)
    ensures
        r@ == clamp(x as int),
{
    if x > MAX_RAW as i128 {
        Scalar { raw: MAX_RAW }
    } else if x < -(MAX_RAW as i128) {
        Scalar { raw: -MAX_RAW }
    } else {
        Scalar { raw: x as i64 }
    }
}

/// A fixed-point number: `raw` billionths.
#[derive(Clone, Copy, Debug, PartialEq, Eq, Structural)]
pub struct Scalar {
    pub raw: i64,
}

impl View for Scalar {
    type V = int;

    open spec fn view(&self) -> int {
        self.raw as int
    }
}

impl Scalar {
    pub fn zero() -> (r: Scalar)
        ensures
            r@ == 0,
    {
        Scalar { raw: 0 }
    }

    pub fn one() -> (r: Scalar)
        ensures
            r@ == ONE_RAW,
    {
        Scalar { raw: ONE_RAW }
    }

    pub fn from_raw(raw: i64) -> (r: Scalar)
        ensures
            r@ == raw,
    {
        Scalar { raw }
    }

    /// The whole number `n`.
    pub fn from_int(n: i64) -> (r: Scalar)
        ensures
            r@ == clamp(n * ONE_RAW),
    {
        clamp_i128(scale_up(n))
    }

    /// The fraction `num / den`, rounded toward zero.
    pub fn from_ratio(num: i64, den: i64) -> (r: Scalar)
        ensures
            r@ == fx_div(clamp(num * ONE_RAW), clamp(den * ONE_RAW)),
    {
        Scalar::from_int(num) / Scalar::from_int(den)
    }

    pub fn abs(self) -> (r: Scalar)
        ensures
            r@ == fx_abs(self@),
    {
        if self.raw < 0 {
            clamp_i128(-(self.raw as i128))
        } else {
            self
        }
    }

    /// The square root, rounded down; zero for a negative scalar.
    pub fn sqrt(self) -> (r: Scalar)
        ensures
            r@ == fx_sqrt(self@),
    {
        if self.raw <= 0 {
            Scalar { raw: 0 }
        } else {
            let n: u128 = scale_up(self.raw) as u128;
            let r: u128 = int_sqrt_u128(n);
            Scalar { raw: r as i64 }
        }
    }

    /// `self` raised to the whole power `n`.
    pub fn powi(self, n: u32) -> (r: Scalar)
        ensures
            r@ == fx_pow(self@, n as nat),
    {
        let mut acc = Scalar { raw: ONE_RAW };
        let mut i: u32 = 0;
        while i < n && acc.raw != 0
            invariant
                i <= n,
                acc@ == fx_pow(self@, i as nat),
            decreases n - i,
        {
            acc = acc * self;
            i = i + 1;
        }
        proof {
            if i < n {
                lemma_pow_stays_zero(self@, i as nat, n as nat);
            }
        }
        acc
    }

    pub fn min(self, other: Scalar) -> (r: Scalar)
        ensures
            r@ == fx_min(self@, other@),
    {
        if self.raw <= other.raw {
            self
        } else {
            other
        }
    }

    pub fn max(self, other: Scalar) -> (r: Scalar)
        ensures
            r@ == fx_max(self@, other@),
    {
        if self.raw >= other.raw {
            self
        } else {
            other
        }
    }
}

impl core::ops::Add for Scalar {
    type Output = Scalar;

    fn add(self, rhs: Scalar) -> (r: Scalar)
        ensures
            r@ == fx_add(self@, rhs@),
    {
        clamp_i128(self.raw as i128 + rhs.raw as i128)
    }
}

impl AddSpecImpl for Scalar {
    open spec fn obeys_add_spec() -> bool {
        true
    }

    open spec fn add_req(self, rhs: Scalar) -> bool {
        true
    }

    open spec fn add_spec(self, rhs: Scalar) -> Scalar {
        Scalar { raw: fx_add(self@, rhs@) as i64 }
    }
}

impl core::ops::Sub for Scalar {
    type Output = Scalar;

    fn sub(self, rhs: Scalar) -> (r: Scalar)
        ensures
            r@ == fx_sub(self@, rhs@),
    {
        clamp_i128(self.raw as i128 - rhs.raw as i128)
    }
}

impl SubSpecImpl for Scalar {
    open spec fn obeys_sub_spec() -> bool {
        true
    }

    open spec fn sub_req(self, rhs: Scalar) -> bool {
        true
    }

    open spec fn sub_spec(self, rhs: Scalar) -> Scalar {
        Scalar { raw: fx_sub(self@, rhs@) as i64 }
    }
}

impl core::ops::Neg for Scalar {
    type Output = Scalar;

    fn neg(self) -> (r: Scalar)
        ensures
            r@ == fx_neg(self@),
    {
        clamp_i128(-(self.raw as i128))
    }
}

impl NegSpecImpl for Scalar {
    open spec fn obeys_neg_spec() -> bool {
        true
    }

    open spec fn neg_req(self) -> bool {
        true
    }

    open spec fn neg_spec(self) -> Scalar {
        Scalar { raw: fx_neg(self@) as i64 }
    }
}

impl core::ops::Mul for Scalar {
    type Output = Scalar;

    fn mul(self, rhs: Scalar) -> (r: Scalar)
        ensures
            r@ == fx_mul(self@, rhs@),
    {
        assert(-0x4000_0000_0000_0000_0000_0000_0000_0000 <= self.raw * rhs.raw
            <= 0x4000_0000_0000_0000_0000_0000_0000_0000) by (nonlinear_arith)
            requires
                -0x8000_0000_0000_0000 <= self.raw <= 0x7fff_ffff_ffff_ffff,
                -0x8000_0000_0000_0000 <= rhs.raw <= 0x7fff_ffff_ffff_ffff,
        ;
        let p: i128 = (self.raw as i128) * (rhs.raw as i128);
        clamp_i128(p / (ONE_RAW as i128))
    }
}

impl MulSpecImpl for Scalar {
    open spec fn obeys_mul_spec() -> bool {
        true
    }

    open spec fn mul_req(self, rhs: Scalar) -> bool {
        true
    }

    open spec fn mul_spec(self, rhs: Scalar) -> Scalar {
        Scalar { raw: fx_mul(self@, rhs@) as i64 }
    }
}

impl core::ops::Div for Scalar {
    type Output = Scalar;

    fn div(self, rhs: Scalar) -> (r: Scalar)
        ensures
            r@ == fx_div(self@, rhs@),
    {
        if rhs.raw == 0 {
            if self.raw > 0 {
                Scalar { raw: MAX_RAW }
            } else if self.raw < 0 {
                Scalar { raw: -MAX_RAW }
            } else {
                Scalar { raw: 0 }
            }
        } else {
            let n: i128 = scale_up(self.raw);
            let d: i128 = rhs.raw as i128;
            if d < 0 {
                clamp_i128((-n) / (-d))
            } else {
                clamp_i128(n / d)
            }
        }
    }
}

impl DivSpecImpl for Scalar {
    open spec fn obeys_div_spec() -> bool {
        true
    }

    open spec fn div_req(self, rhs: Scalar) -> bool {
        true
    }

    open spec fn div_spec(self, rhs: Scalar) -> Scalar {
        Scalar { raw: fx_div(self@, rhs@) as i64 }
    }
}

} // verus!

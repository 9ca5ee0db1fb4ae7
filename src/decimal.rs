//! A decimal number as a mantissa and a power-of-ten scale, in the range that
//! `rust_decimal::Decimal` represents, and the arithmetic on it that is handed
//! to `rust_decimal`.
use vstd::prelude::*;

verus! {

/// Largest magnitude of a mantissa: 2^96 - 1.
pub const MAX_MANTISSA: i128 = 79228162514264337593543950335;

/// Largest scale: at most 28 digits after the decimal point.
pub const MAX_SCALE: u32 = 28;

/// 10^n.
pub open spec fn pow10(n: nat) -> int
    decreases n,
{
    if n == 0 {
        1
    } else {
        10 * pow10((n - 1) as nat)
    }
}

/// 10^(a + b) is 10^a times 10^b.
pub proof fn lemma_pow10_add(a: nat, b: nat)
    ensures
        pow10(a + b) == pow10(a) * pow10(b),
        pow10(a) > 0,
    decreases a,
{
    if a > 0 {
        lemma_pow10_add((a - 1) as nat, b);
        assert(pow10(a + b) == 10 * pow10((a - 1 + b) as nat));
        assert(10 * (pow10((a - 1) as nat) * pow10(b)) == (10 * pow10((a - 1) as nat)) * pow10(b))
            by (nonlinear_arith);
    }
}

/// 10^n for n at most 28 is positive and at most 10^28.
pub proof fn lemma_pow10_bound(n: nat)
    requires
        n <= MAX_SCALE,
    ensures
        0 < pow10(n) <= 10000000000000000000000000000,
{
    reveal_with_fuel(pow10, 30);
    lemma_pow10_add(n, (MAX_SCALE - n) as nat);
    lemma_pow10_add((MAX_SCALE - n) as nat, 0);
    assert(pow10(MAX_SCALE as nat) == 10000000000000000000000000000);
    let a = pow10(n);
    let b = pow10((MAX_SCALE - n) as nat);
    assert(a * b == 10000000000000000000000000000);
    assert(a <= a * b) by (nonlinear_arith)
        requires
            a > 0,
            b > 0,
    ;
}

/// 10^k as a machine integer.
pub fn pow10_i128(k: u32) -> (r: i128)
    requires
        k <= MAX_SCALE,
    ensures
        r == pow10(k as nat),
        0 < r <= 10000000000000000000000000000,
{
    let mut r: i128 = 1;
    let mut i: u32 = 0;
    while i < k
        invariant
            i <= k <= MAX_SCALE,
            r == pow10(i as nat),
        decreases k - i,
    {
        proof {
            lemma_pow10_bound(i as nat);
            lemma_pow10_bound((i + 1) as nat);
        }
        r = r * 10;
        i = i + 1;
    }
    proof {
        lemma_pow10_bound(k as nat);
    }
    r
}

/// A (mantissa, scale) pair that a decimal can hold.
pub open spec fn valid(v: (int, int)) -> bool {
    -MAX_MANTISSA <= v.0 <= MAX_MANTISSA && 0 <= v.1 <= MAX_SCALE
}

/// The value of a decimal in units of 10^-28: every valid decimal is a whole
/// number of these units.
pub open spec fn units(v: (int, int)) -> int {
    v.0 * pow10((MAX_SCALE - v.1) as nat)
}

/// `v` rounded to `dp` digits after the point, half to even: the result has
/// scale `dp` unless `v` already has at most `dp` digits.
pub open spec fn round_half_even(v: (int, int), dp: int) -> (int, int) {
    if v.1 <= dp {
        v
    } else {
        let d = pow10((v.1 - dp) as nat);
        let mag = if v.0 < 0 { -v.0 } else { v.0 };
        let q = mag / d;
        let rem = mag % d;
        let up = rem > d / 2 || (rem == d / 2 && q % 2 == 1);
        let r = if up { q + 1 } else { q };
        (if v.0 < 0 { -r } else { r }, dp)
    }
}

/// What `Decimal::checked_add` returns for two decimals.
pub uninterp spec fn decimal_sum(a: (int, int), b: (int, int)) -> Option<(int, int)>;

/// What `Decimal::checked_sub` returns for two decimals.
pub uninterp spec fn decimal_difference(a: (int, int), b: (int, int)) -> Option<(int, int)>;

/// What `Decimal::checked_mul` returns for two decimals.
pub uninterp spec fn decimal_product(a: (int, int), b: (int, int)) -> Option<(int, int)>;

/// What `Decimal::checked_div` returns for two decimals.
pub uninterp spec fn decimal_quotient(a: (int, int), b: (int, int)) -> Option<(int, int)>;

/// A decimal number `mantissa / 10^scale`.
#[derive(Clone, Copy, Debug, PartialEq, Eq, Structural)]
pub struct Dec {
    pub mantissa: i128,
    pub scale: u32,
}

impl View for Dec {
    type V = (int, int);

    open spec fn view(&self) -> (int, int) {
        (self.mantissa as int, self.scale as int)
    }
}

/// The pair that an optional decimal stands for.
pub open spec fn opt_view(r: Option<Dec>) -> Option<(int, int)> {
    match r {
        Some(d) => Some(d@),
        None => None,
    }
}

/// Every decimal in `r` is valid.
pub open spec fn opt_valid(r: Option<Dec>) -> bool {
    match r {
        Some(d) => d.wf(),
        None => true,
    }
}

impl Dec {
    pub open spec fn wf(self) -> bool {
        valid(self@)
    }

    /// `num / 10^scale`.
    pub fn new(num: i64, scale: u32) -> (r: Dec)
        requires
            scale <= MAX_SCALE,
        ensures
            r@ == (num as int, scale as int),
            r.wf(),
    {
        Dec { mantissa: num as i128, scale }
    }

    /// The whole number `n`.
    pub fn from_u64(n: u64) -> (r: Dec)
        ensures
            r@ == (n as int, 0int),
            r.wf(),
    {
        Dec { mantissa: n as i128, scale: 0 }
    }

    pub fn zero() -> (r: Dec)
        ensures
            r@ == (0int, 0int),
            r.wf(),
    {
        Dec { mantissa: 0, scale: 0 }
    }

    pub fn is_negative(&self) -> (r: bool)
        ensures
            r == (self.mantissa < 0),
    {
        self.mantissa < 0
    }

    pub fn is_zero(&self) -> (r: bool)
        ensures
            r == (self.mantissa == 0),
    {
        self.mantissa == 0
    }
}

/// The whole part of a decimal, toward zero.
pub open spec fn trunc_of(v: (int, int)) -> (int, int) {
    let d = pow10(v.1 as nat);
    (if v.0 >= 0 { v.0 / d } else { -((-v.0) / d) }, 0)
}

/// What is left of a decimal after its whole part, at the same scale.
pub open spec fn fract_of(v: (int, int)) -> (int, int) {
    (v.0 - trunc_of(v).0 * pow10(v.1 as nat), v.1)
}

/// The whole part and the fraction of a decimal.
pub fn split_whole(v: &Dec) -> (r: (Dec, Dec))
    requires
        v.wf(),
    ensures
        r.0@ == trunc_of(v@),
        r.1@ == fract_of(v@),
        v.mantissa >= 0 ==> r.0.mantissa >= 0,
        r.0.wf(),
        r.1.wf(),
{
    let d = pow10_i128(v.scale);
    let whole = if v.mantissa >= 0 {
        v.mantissa / d
    } else {
        -((-v.mantissa) / d)
    };
    proof {
        let m = v.mantissa as int;
        let dd = d as int;
        if m >= 0 {
            assert(0 <= m / dd <= m) by (nonlinear_arith)
                requires
                    m >= 0,
                    dd > 0,
            ;
            assert(0 <= m - (m / dd) * dd < dd) by (nonlinear_arith)
                requires
                    m >= 0,
                    dd > 0,
            ;
        } else {
            assert(0 <= (-m) / dd <= -m) by (nonlinear_arith)
                requires
                    m < 0,
                    dd > 0,
            ;
            assert(0 <= (-m) - ((-m) / dd) * dd < dd) by (nonlinear_arith)
                requires
                    m < 0,
                    dd > 0,
            ;
            assert(m - (-((-m) / dd)) * dd == -((-m) - ((-m) / dd) * dd)) by (nonlinear_arith);
        }
    }
    let frac = v.mantissa - whole * d;
    (Dec { mantissa: whole, scale: 0 }, Dec { mantissa: frac, scale: v.scale })
}

/// The exact negation of a decimal.
pub fn negate(v: &Dec) -> (r: Dec)
    requires
        v.wf(),
    ensures
        r@ == (-v.mantissa, v.scale as int),
        r.wf(),
{
    Dec { mantissa: -v.mantissa, scale: v.scale }
}

/// The largest r with r * r <= n.
pub fn isqrt(n: u128) -> (r: u128)
    requires
        n < 0x4000_0000_0000_0000_0000_0000_0000_0000,
    ensures
        r * r <= n < (r + 1) * (r + 1),
{
    let mut lo: u128 = 0;
    let mut hi: u128 = 0x1_0000_0000_0000_0000;
    assert(n < hi * hi) by (nonlinear_arith)
        requires
            n < 0x4000_0000_0000_0000_0000_0000_0000_0000,
            hi == 0x1_0000_0000_0000_0000,
    ;
    while hi - lo > 1
        invariant
            lo < hi <= 0x1_0000_0000_0000_0000,
            lo * lo <= n < hi * hi,
        decreases hi - lo,
    {
        let mid = lo + (hi - lo) / 2;
        assert(mid * mid < 0x1_0000_0000_0000_0000_0000_0000_0000_0000) by (nonlinear_arith)
            requires
                mid < 0x1_0000_0000_0000_0000,
        ;
        if mid * mid <= n {
            lo = mid;
        } else {
            hi = mid;
        }
    }
    assert(hi == lo + 1);
    lo
}

/// The scale of the square root of `v`: four or five digits more than half
/// the scale of `v`, and at most 18.
pub open spec fn sqrt_scale(v: (int, int)) -> int {
    (v.1 + 9) / 2
}

/// The square root of a non-negative decimal, rounded down at the scale
/// `sqrt_scale(v)`: with that scale t, the result r has
/// r² <= v < (r + 10^-t)².
pub fn sqrt_floor(v: &Dec) -> (r: Dec)
    requires
        v.wf(),
        v.mantissa >= 0,
    ensures
        r.wf(),
        r.scale == sqrt_scale(v@),
        r.mantissa >= 0,
        ({
            let m = v.mantissa * pow10((2 * sqrt_scale(v@) - v.scale) as nat);
            r.mantissa * r.mantissa <= m < (r.mantissa + 1) * (r.mantissa + 1)
        }),
{
    let t = (v.scale + 9) / 2;
    let p = pow10_i128(2 * t - v.scale);
    proof {
        crate::decimal::lemma_pow10_add((2 * t - v.scale) as nat, 0);
        reveal_with_fuel(pow10, 10);
        assert(pow10((2 * t - v.scale) as nat) <= 1000000000);
        assert(v.mantissa * p < 0x4000_0000_0000_0000_0000_0000_0000_0000) by (nonlinear_arith)
            requires
                0 <= v.mantissa <= MAX_MANTISSA,
                0 < p <= 1000000000,
        ;
    }
    let m = (v.mantissa * p) as u128;
    let root = isqrt(m);
    assert(root < 0x1_0000_0000_0000_0000) by (nonlinear_arith)
        requires
            root * root <= m,
            m < 0x4000_0000_0000_0000_0000_0000_0000_0000,
    ;
    Dec { mantissa: root as i128, scale: t }
}

/// What `Decimal`'s ordering says of two decimals.
pub open spec fn value_less(a: (int, int), b: (int, int)) -> bool {
    units(a) < units(b)
}

/// Relies on `Decimal`'s `<` (its `Ord` compares values).
#[verifier::external_body]
pub(crate) fn less_than(a: &Dec, b: &Dec) -> (r: bool)
    requires
        a.wf(),
        b.wf(),
    ensures
        r == value_less(a@, b@),
{
    rust_decimal::Decimal::from_i128_with_scale(a.mantissa, a.scale)
        < rust_decimal::Decimal::from_i128_with_scale(b.mantissa, b.scale)
}

/// Relies on `Decimal::from_i128_with_scale`, `Decimal::checked_add`,
/// `Decimal::mantissa` and `Decimal::scale`: a result, when there is one, is a
/// decimal again.
#[verifier::external_body]
pub(crate) fn checked_add(a: &Dec, b: &Dec) -> (r: Option<Dec>)
    requires
        a.wf(),
        b.wf(),
    ensures
        opt_view(r) == decimal_sum(a@, b@),
        opt_valid(r),
{
    let x = rust_decimal::Decimal::from_i128_with_scale(a.mantissa, a.scale);
    let y = rust_decimal::Decimal::from_i128_with_scale(b.mantissa, b.scale);
    x.checked_add(y).map(|d| Dec { mantissa: d.mantissa(), scale: d.scale() })
}

/// Relies on `Decimal::checked_sub` (with the conversions of `checked_add`).
#[verifier::external_body]
pub(crate) fn checked_sub(a: &Dec, b: &Dec) -> (r: Option<Dec>)
    requires
        a.wf(),
        b.wf(),
    ensures
        opt_view(r) == decimal_difference(a@, b@),
        opt_valid(r),
{
    let x = rust_decimal::Decimal::from_i128_with_scale(a.mantissa, a.scale);
    let y = rust_decimal::Decimal::from_i128_with_scale(b.mantissa, b.scale);
    x.checked_sub(y).map(|d| Dec { mantissa: d.mantissa(), scale: d.scale() })
}

/// Relies on `Decimal::checked_mul` (with the conversions of `checked_add`).
#[verifier::external_body]
pub(crate) fn checked_mul(a: &Dec, b: &Dec) -> (r: Option<Dec>)
    requires
        a.wf(),
        b.wf(),
    ensures
        opt_view(r) == decimal_product(a@, b@),
        opt_valid(r),
{
    let x = rust_decimal::Decimal::from_i128_with_scale(a.mantissa, a.scale);
    let y = rust_decimal::Decimal::from_i128_with_scale(b.mantissa, b.scale);
    x.checked_mul(y).map(|d| Dec { mantissa: d.mantissa(), scale: d.scale() })
}

/// Relies on `Decimal::checked_div` (with the conversions of `checked_add`):
/// there is no result for a zero divisor.
#[verifier::external_body]
pub(crate) fn checked_div(a: &Dec, b: &Dec) -> (r: Option<Dec>)
    requires
        a.wf(),
        b.wf(),
    ensures
        opt_view(r) == decimal_quotient(a@, b@),
        opt_valid(r),
        b.mantissa == 0 ==> r is None,
{
    let x = rust_decimal::Decimal::from_i128_with_scale(a.mantissa, a.scale);
    let y = rust_decimal::Decimal::from_i128_with_scale(b.mantissa, b.scale);
    x.checked_div(y).map(|d| Dec { mantissa: d.mantissa(), scale: d.scale() })
}

/// Relies on `Decimal::round_dp`: banker's rounding to `dp` digits after the
/// point; a decimal with fewer digits comes back as it is.
#[verifier::external_body]
pub(crate) fn round_dp(a: &Dec, dp: u32) -> (r: Dec)
    requires
        a.wf(),
        dp <= MAX_SCALE,
    ensures
        r@ == round_half_even(a@, dp as int),
        r.wf(),
{
    let d = rust_decimal::Decimal::from_i128_with_scale(a.mantissa, a.scale).round_dp(dp);
    Dec { mantissa: d.mantissa(), scale: d.scale() }
}

} // verus!

//! Ordinary least-squares regression of one decimal series on another.
//!
//! The sums are taken exactly, on the mantissas written at the largest scale
//! of the input; only the two closing divisions round.
use vstd::prelude::*;

use crate::decimal::{
    checked_div, decimal_quotient, lemma_pow10_add, less_than, pow10, pow10_i128, units, Dec,
    MAX_MANTISSA, MAX_SCALE,
};
use crate::error::MathError;

verus! {

/// s[0] + ... + s[k - 1].
pub open spec fn sum_to(s: Seq<int>, k: int) -> int
    decreases k,
{
    if k <= 0 {
        0
    } else {
        sum_to(s, k - 1) + s[k - 1]
    }
}

/// a[0] * b[0] + ... + a[k - 1] * b[k - 1].
pub open spec fn dot_to(a: Seq<int>, b: Seq<int>, k: int) -> int
    decreases k,
{
    if k <= 0 {
        0
    } else {
        dot_to(a, b, k - 1) + a[k - 1] * b[k - 1]
    }
}

/// Largest scale among s[0], ..., s[k - 1], or 0.
pub open spec fn max_scale_to(s: Seq<Dec>, k: int) -> int
    decreases k,
{
    if k <= 0 {
        0
    } else {
        let m = max_scale_to(s, k - 1);
        if s[k - 1].scale > m {
            s[k - 1].scale as int
        } else {
            m
        }
    }
}

/// Largest scale in either series.
pub open spec fn common_scale(xs: Seq<Dec>, ys: Seq<Dec>) -> int {
    let a = max_scale_to(xs, xs.len() as int);
    let b = max_scale_to(ys, ys.len() as int);
    if a > b {
        a
    } else {
        b
    }
}

/// The mantissas of `s`, each written at scale `sc`.
pub open spec fn aligned(s: Seq<Dec>, sc: int) -> Seq<int> {
    Seq::new(s.len(), |i: int| s[i].mantissa * pow10((sc - s[i].scale) as nat))
}

/// n Σxy - Σx Σy: the slope times the denominator below.
pub open spec fn slope_numerator(x: Seq<int>, y: Seq<int>) -> int {
    let n = x.len() as int;
    n * dot_to(x, y, n) - sum_to(x, n) * sum_to(y, n)
}

/// n Σx² - (Σx)²: zero exactly when there is no single best line.
pub open spec fn slope_denominator(x: Seq<int>) -> int {
    let n = x.len() as int;
    n * dot_to(x, x, n) - sum_to(x, n) * sum_to(x, n)
}

/// Σy D - N Σx: the intercept times n D, at the scale of x and y.
pub open spec fn intercept_numerator(x: Seq<int>, y: Seq<int>) -> int {
    let n = x.len() as int;
    sum_to(y, n) * slope_denominator(x) - slope_numerator(x, y) * sum_to(x, n)
}

/// Both series are non-empty and of one length.
pub open spec fn paired(xs: Seq<Dec>, ys: Seq<Dec>) -> bool {
    xs.len() > 0 && xs.len() == ys.len()
}

/// `v` fits a 128-bit signed integer.
pub open spec fn fits(v: int) -> bool {
    i128::MIN <= v <= i128::MAX
}

/// `v` is a mantissa a decimal can hold.
pub open spec fn fits_mantissa(v: int) -> bool {
    -MAX_MANTISSA <= v <= MAX_MANTISSA
}

/// Point i, its products and the running sums up to it fit 128 bits.
pub open spec fn step_fits(x: Seq<int>, y: Seq<int>, i: int) -> bool {
    &&& fits(x[i])
    &&& fits(y[i])
    &&& fits(sum_to(x, i + 1))
    &&& fits(sum_to(y, i + 1))
    &&& fits(x[i] * y[i])
    &&& fits(x[i] * x[i])
    &&& fits(dot_to(x, y, i + 1))
    &&& fits(dot_to(x, x, i + 1))
}

/// The first k points, their products and all running sums fit 128 bits.
pub open spec fn sums_fit(x: Seq<int>, y: Seq<int>, k: int) -> bool
    decreases k,
{
    if k <= 0 {
        true
    } else {
        sums_fit(x, y, k - 1) && step_fits(x, y, k - 1)
    }
}

/// The products that make N, D and I fit 128 bits, and N, D, I and n D
/// fit a decimal's mantissa.
pub open spec fn totals_fit(x: Seq<int>, y: Seq<int>) -> bool {
    let n = x.len() as int;
    let (sx, sy, sxy, sxx) = (sum_to(x, n), sum_to(y, n), dot_to(x, y, n), dot_to(x, x, n));
    let nn = slope_numerator(x, y);
    let d = slope_denominator(x);
    &&& fits(n * sxy)
    &&& fits(sx * sy)
    &&& fits(n * sxx)
    &&& fits(sx * sx)
    &&& fits_mantissa(nn)
    &&& fits_mantissa(d)
    &&& fits(sy * d)
    &&& fits(nn * sx)
    &&& fits_mantissa(intercept_numerator(x, y))
    &&& fits_mantissa(n * d)
}

/// Every integer the regression computes, at the common scale, fits its
/// type.
pub open spec fn regression_fits(xs: Seq<Dec>, ys: Seq<Dec>) -> bool {
    let sc = common_scale(xs, ys);
    let x = aligned(xs, sc);
    let y = aligned(ys, sc);
    sums_fit(x, y, xs.len() as int) && totals_fit(x, y)
}

/// All values of `xs` are the same number (whatever their scales).
pub open spec fn constant_values(xs: Seq<Dec>) -> bool {
    forall|i: int| 0 <= i < xs.len() ==> units((#[trigger] xs[i])@) == units(xs[0]@)
}

/// The decimal division that gives the slope.
pub open spec fn slope_quotient(xs: Seq<Dec>, ys: Seq<Dec>) -> Option<(int, int)> {
    let sc = common_scale(xs, ys);
    let x = aligned(xs, sc);
    let y = aligned(ys, sc);
    decimal_quotient((slope_numerator(x, y), 0), (slope_denominator(x), 0))
}

/// The decimal division that gives the intercept.
pub open spec fn intercept_quotient(xs: Seq<Dec>, ys: Seq<Dec>) -> Option<(int, int)> {
    let sc = common_scale(xs, ys);
    let x = aligned(xs, sc);
    let y = aligned(ys, sc);
    decimal_quotient(
        (intercept_numerator(x, y), sc),
        (xs.len() * slope_denominator(x), 0),
    )
}

/// The regression of `ys` on `xs` has a result: the series pair up, the
/// domain has two different values, every integer fits, and both decimal
/// divisions have a result.
pub open spec fn regression_ok(xs: Seq<Dec>, ys: Seq<Dec>) -> bool {
    &&& paired(xs, ys)
    &&& !constant_values(xs)
    &&& regression_fits(xs, ys)
    &&& slope_quotient(xs, ys) is Some
    &&& intercept_quotient(xs, ys) is Some
}

/// `(m, b)` is the least-squares line through the points: the slope is
/// N / D and the intercept (Σy D - N Σx) / (n D), each a decimal division.
pub open spec fn is_regression(xs: Seq<Dec>, ys: Seq<Dec>, m: (int, int), b: (int, int)) -> bool {
    let x = aligned(xs, common_scale(xs, ys));
    &&& slope_denominator(x) != 0
    &&& slope_quotient(xs, ys) == Some(m)
    &&& intercept_quotient(xs, ys) == Some(b)
}

/// a y[i] - b x[i] - c: the vertical distance of point i from the line
/// y = (b x + c) / a, times a.
pub open spec fn residual(x: Seq<int>, y: Seq<int>, a: int, b: int, c: int, i: int) -> int {
    a * y[i] - b * x[i] - c
}

/// Sum of the first k residuals.
pub open spec fn residual_sum(x: Seq<int>, y: Seq<int>, a: int, b: int, c: int, k: int) -> int
    decreases k,
{
    if k <= 0 {
        0
    } else {
        residual_sum(x, y, a, b, c, k - 1) + residual(x, y, a, b, c, k - 1)
    }
}

/// Sum of the first k residuals, each times its x.
pub open spec fn residual_moment(x: Seq<int>, y: Seq<int>, a: int, b: int, c: int, k: int) -> int
    decreases k,
{
    if k <= 0 {
        0
    } else {
        residual_moment(x, y, a, b, c, k - 1) + x[k - 1] * residual(x, y, a, b, c, k - 1)
    }
}

/// Sum over the first k points of (f r_i + p x_i + q)²: the squared
/// residuals of the line moved by p x + q, all scaled by f.
pub open spec fn moved_square_sum(
    x: Seq<int>,
    y: Seq<int>,
    a: int,
    b: int,
    c: int,
    f: int,
    p: int,
    q: int,
    k: int,
) -> int
    decreases k,
{
    if k <= 0 {
        0
    } else {
        let e = f * residual(x, y, a, b, c, k - 1) + p * x[k - 1] + q;
        moved_square_sum(x, y, a, b, c, f, p, q, k - 1) + e * e
    }
}

proof fn lemma_residual_sums(x: Seq<int>, y: Seq<int>, a: int, b: int, c: int, k: int)
    requires
        0 <= k <= x.len(),
        k <= y.len(),
    ensures
        residual_sum(x, y, a, b, c, k) == a * sum_to(y, k) - b * sum_to(x, k) - c * k,
        residual_moment(x, y, a, b, c, k) == a * dot_to(x, y, k) - b * dot_to(x, x, k) - c
            * sum_to(x, k),
    decreases k,
{
    if k > 0 {
        lemma_residual_sums(x, y, a, b, c, k - 1);
        let (xi, yi) = (x[k - 1], y[k - 1]);
        let (sy, sx, sxy, sxx) = (
            sum_to(y, k - 1),
            sum_to(x, k - 1),
            dot_to(x, y, k - 1),
            dot_to(x, x, k - 1),
        );
        assert(sum_to(y, k) == sy + yi);
        assert(sum_to(x, k) == sx + xi);
        assert(dot_to(x, y, k) == sxy + xi * yi);
        assert(dot_to(x, x, k) == sxx + xi * xi);
        assert(residual(x, y, a, b, c, k - 1) == a * yi - b * xi - c);
        assert(a * (sy + yi) == a * sy + a * yi) by (nonlinear_arith);
        assert(b * (sx + xi) == b * sx + b * xi) by (nonlinear_arith);
        assert(c * k == c * (k - 1) + c) by (nonlinear_arith);
        assert(a * (sxy + xi * yi) == a * sxy + a * (xi * yi)) by (nonlinear_arith);
        assert(b * (sxx + xi * xi) == b * sxx + b * (xi * xi)) by (nonlinear_arith);
        assert(c * (sx + xi) == c * sx + c * xi) by (nonlinear_arith);
        assert(xi * (a * yi - b * xi - c) == a * (xi * yi) - b * (xi * xi) - c * xi)
            by (nonlinear_arith);
    } else {
        assert(a * 0 == 0 && b * 0 == 0 && c * 0 == 0);
    }
}

proof fn lemma_moved_square_sum(
    x: Seq<int>,
    y: Seq<int>,
    a: int,
    b: int,
    c: int,
    f: int,
    p: int,
    q: int,
    k: int,
)
    requires
        0 <= k <= x.len(),
        k <= y.len(),
    ensures
        moved_square_sum(x, y, a, b, c, f, p, q, k) >= moved_square_sum(x, y, a, b, c, f, 0, 0, k)
            + 2 * f * (p * residual_moment(x, y, a, b, c, k) + q * residual_sum(x, y, a, b, c, k)),
    decreases k,
{
    if k > 0 {
        lemma_moved_square_sum(x, y, a, b, c, f, p, q, k - 1);
        let r = residual(x, y, a, b, c, k - 1);
        let xi = x[k - 1];
        assert(moved_square_sum(x, y, a, b, c, f, p, q, k) == moved_square_sum(x, y, a, b, c, f, p, q, k - 1)
            + (f * r + p * xi + q) * (f * r + p * xi + q));
        assert(moved_square_sum(x, y, a, b, c, f, 0, 0, k) == moved_square_sum(x, y, a, b, c, f, 0, 0, k - 1)
            + (f * r + 0 * xi + 0) * (f * r + 0 * xi + 0));
        assert(residual_moment(x, y, a, b, c, k) == residual_moment(x, y, a, b, c, k - 1) + xi * r);
        assert(residual_sum(x, y, a, b, c, k) == residual_sum(x, y, a, b, c, k - 1) + r);
        let u = f * r;
        let d = p * xi + q;
        assert((u + d) * (u + d) == u * u + 2 * (u * d) + d * d) by (nonlinear_arith);
        assert(u * d == f * (p * (xi * r) + q * r)) by (nonlinear_arith)
            requires
                u == f * r,
                d == p * xi + q,
        ;
        assert(0 * xi == 0);
        assert(d * d >= 0) by (nonlinear_arith);
        let m = residual_moment(x, y, a, b, c, k - 1);
        let s = residual_sum(x, y, a, b, c, k - 1);
        assert(p * (m + xi * r) == p * m + p * (xi * r)) by (nonlinear_arith);
        assert(q * (s + r) == q * s + q * r) by (nonlinear_arith);
        let t1 = p * m + q * s;
        let t2 = p * (xi * r) + q * r;
        assert(2 * f * t1 + 2 * (f * t2) == 2 * f * (t1 + t2)) by (nonlinear_arith);
    } else {
        assert(p * 0 + q * 0 == 0);
        assert(2 * f * 0 == 0);
    }
}

/// Least squares. Write both series at their common scale, with n points,
/// N = n Σxy - Σx Σy, D = n Σx² - (Σx)² and I = Σy D - N Σx, so that the
/// fitted line is y = (N / D) x + I / (n D). Its residuals, times n D, sum to
/// zero and are orthogonal to x; and moving the line by any p x + q (at any
/// scale f, so that every line with rational coefficients is reached) never
/// lowers the sum of squared residuals.
pub proof fn lemma_least_squares(xs: Seq<Dec>, ys: Seq<Dec>, f: int, p: int, q: int)
    requires
        paired(xs, ys),
    ensures
        ({
            let x = aligned(xs, common_scale(xs, ys));
            let y = aligned(ys, common_scale(xs, ys));
            let n = xs.len() as int;
            let a = n * slope_denominator(x);
            let b = n * slope_numerator(x, y);
            let c = intercept_numerator(x, y);
            &&& residual_sum(x, y, a, b, c, n) == 0
            &&& residual_moment(x, y, a, b, c, n) == 0
            &&& moved_square_sum(x, y, a, b, c, f, p, q, n) >= moved_square_sum(
                x,
                y,
                a,
                b,
                c,
                f,
                0,
                0,
                n,
            )
        }),
{
    let x = aligned(xs, common_scale(xs, ys));
    let y = aligned(ys, common_scale(xs, ys));
    let n = xs.len() as int;
    let nd = slope_denominator(x);
    let nn = slope_numerator(x, y);
    let a = n * nd;
    let b = n * nn;
    let c = intercept_numerator(x, y);
    lemma_residual_sums(x, y, a, b, c, n);
    lemma_moved_square_sum(x, y, a, b, c, f, p, q, n);
    let (sx, sy, sxy, sxx) = (sum_to(x, n), sum_to(y, n), dot_to(x, y, n), dot_to(x, x, n));
    assert(residual_sum(x, y, a, b, c, n) == a * sy - b * sx - c * n);
    assert(residual_moment(x, y, a, b, c, n) == a * sxy - b * sxx - c * sx);
    assert(nn == n * sxy - sx * sy);
    assert(nd == n * sxx - sx * sx);
    assert(c == sy * nd - nn * sx);
    assert((n * nd) * sy == (sy * nd) * n) by (nonlinear_arith);
    assert((n * nn) * sx == (nn * sx) * n) by (nonlinear_arith);
    assert((sy * nd - nn * sx) * n == (sy * nd) * n - (nn * sx) * n) by (nonlinear_arith);
    assert((n * nd) * sxy == nd * (n * sxy)) by (nonlinear_arith);
    assert((n * nn) * sxx == nn * (n * sxx)) by (nonlinear_arith);
    assert((sy * nd - nn * sx) * sx == nd * (sx * sy) - nn * (sx * sx)) by (nonlinear_arith);
    assert(nd * (n * sxy) - nd * (sx * sy) == nd * (n * sxy - sx * sy)) by (nonlinear_arith);
    assert(nn * (n * sxx) - nn * (sx * sx) == nn * (n * sxx - sx * sx)) by (nonlinear_arith);
    assert(nd * nn == nn * nd) by (nonlinear_arith);
    assert(p * 0 + q * 0 == 0);
    assert(2 * f * 0 == 0);
}

/// Σ_{i<k} (n x[i] - s)²: the spread of the points around s / n, scaled.
pub open spec fn spread_to(x: Seq<int>, n: int, s: int, k: int) -> int
    decreases k,
{
    if k <= 0 {
        0
    } else {
        spread_to(x, n, s, k - 1) + (n * x[k - 1] - s) * (n * x[k - 1] - s)
    }
}

/// All of x[0..n] are the same number.
pub open spec fn all_equal(x: Seq<int>, n: int) -> bool {
    forall|i: int, j: int| 0 <= i < n && 0 <= j < n ==> x[i] == x[j]
}

proof fn lemma_spread_expansion(x: Seq<int>, n: int, s: int, k: int)
    requires
        0 <= k <= x.len(),
    ensures
        spread_to(x, n, s, k) == n * n * dot_to(x, x, k) - 2 * n * s * sum_to(x, k) + k * (s * s),
        spread_to(x, n, s, k) >= 0,
        spread_to(x, n, s, k) == 0 ==> forall|i: int| 0 <= i < k ==> n * x[i] == s,
    decreases k,
{
    if k > 0 {
        lemma_spread_expansion(x, n, s, k - 1);
        let xi = x[k - 1];
        let (sx, sxx) = (sum_to(x, k - 1), dot_to(x, x, k - 1));
        let e = n * xi - s;
        assert(e * e == n * n * (xi * xi) - 2 * n * s * xi + s * s) by (nonlinear_arith)
            requires
                e == n * xi - s,
        ;
        assert(n * n * (sxx + xi * xi) == n * n * sxx + n * n * (xi * xi)) by (nonlinear_arith);
        assert(2 * n * s * (sx + xi) == 2 * n * s * sx + 2 * n * s * xi) by (nonlinear_arith);
        assert(k * (s * s) == (k - 1) * (s * s) + s * s) by (nonlinear_arith);
        assert(e * e >= 0) by (nonlinear_arith);
        if spread_to(x, n, s, k) == 0 {
            assert(e * e == 0);
            assert(e == 0) by (nonlinear_arith)
                requires
                    e * e == 0,
            ;
        }
    } else {
        assert(k == 0);
        assert(k * (s * s) == 0) by (nonlinear_arith)
            requires
                k == 0,
        ;
    }
}

proof fn lemma_constant_sums(x: Seq<int>, c: int, k: int)
    requires
        0 <= k <= x.len(),
        forall|i: int| 0 <= i < k ==> x[i] == c,
    ensures
        sum_to(x, k) == k * c,
        dot_to(x, x, k) == k * (c * c),
    decreases k,
{
    if k > 0 {
        lemma_constant_sums(x, c, k - 1);
        assert(k * c == (k - 1) * c + c) by (nonlinear_arith);
        assert(k * (c * c) == (k - 1) * (c * c) + c * c) by (nonlinear_arith);
    } else {
        assert(k * c == 0 && k * (c * c) == 0) by (nonlinear_arith)
            requires
                k == 0,
        ;
    }
}

/// n Σx² - (Σx)² is zero exactly when all n values are the same: no line
/// fits a domain of one value, and any other domain has one best line.
pub proof fn lemma_degenerate_iff_constant(x: Seq<int>)
    requires
        x.len() > 0,
    ensures
        slope_denominator(x) >= 0,
        slope_denominator(x) == 0 <==> all_equal(x, x.len() as int),
{
    let n = x.len() as int;
    let s = sum_to(x, n);
    let q = dot_to(x, x, n);
    lemma_spread_expansion(x, n, s, n);
    assert(n * n * q - 2 * n * s * s + n * (s * s) == n * (n * q - s * s)) by (nonlinear_arith);
    let d = slope_denominator(x);
    assert(d == n * q - s * s);
    assert(n * d >= 0);
    assert(d >= 0) by (nonlinear_arith)
        requires
            n > 0,
            n * d >= 0,
    ;
    if d == 0 {
        assert(n * d == 0);
        assert forall|i: int, j: int| 0 <= i < n && 0 <= j < n implies x[i] == x[j] by {
            assert(n * x[i] == s);
            assert(n * x[j] == s);
            assert(x[i] == x[j]) by (nonlinear_arith)
                requires
                    n > 0,
                    n * x[i] == n * x[j],
            ;
        }
    }
    if all_equal(x, n) {
        let c = x[0];
        lemma_constant_sums(x, c, n);
        assert(n * (n * (c * c)) == (n * c) * (n * c)) by (nonlinear_arith);
    }
}

/// Fitting the same points twice gives the same line, to the last digit.
pub proof fn lemma_regression_unique(
    xs: Seq<Dec>,
    ys: Seq<Dec>,
    m1: Dec,
    b1: Dec,
    m2: Dec,
    b2: Dec,
)
    requires
        is_regression(xs, ys, m1@, b1@),
        is_regression(xs, ys, m2@, b2@),
    ensures
        m1 == m2,
        b1 == b2,
{
}

proof fn lemma_sums_fit_prefix(x: Seq<int>, y: Seq<int>, j: int, k: int)
    requires
        0 <= j <= k,
        sums_fit(x, y, k),
    ensures
        sums_fit(x, y, j),
    decreases k - j,
{
    if j < k {
        lemma_sums_fit_prefix(x, y, j, k - 1);
    }
}

/// Written at a scale sc no smaller than its own, a decimal is its value in
/// units of 10^-28 divided by 10^(28 - sc).
proof fn lemma_aligned_units(d: Dec, sc: int)
    requires
        d.scale <= sc <= MAX_SCALE,
    ensures
        units(d@) == (d.mantissa * pow10((sc - d.scale) as nat)) * pow10((MAX_SCALE - sc) as nat),
        pow10((MAX_SCALE - sc) as nat) > 0,
{
    let a = pow10((sc - d.scale) as nat);
    let b = pow10((MAX_SCALE - sc) as nat);
    lemma_pow10_add((sc - d.scale) as nat, (MAX_SCALE - sc) as nat);
    lemma_pow10_add((MAX_SCALE - sc) as nat, 0);
    assert((sc - d.scale) as nat + (MAX_SCALE - sc) as nat == (MAX_SCALE - d.scale) as nat);
    let m = d.mantissa as int;
    assert(m * (a * b) == (m * a) * b) by (nonlinear_arith);
}

/// Two decimals written at one scale are equal exactly when their values are.
proof fn lemma_aligned_equal(d: Dec, e: Dec, sc: int)
    requires
        d.scale <= sc <= MAX_SCALE,
        e.scale <= sc <= MAX_SCALE,
    ensures
        (d.mantissa * pow10((sc - d.scale) as nat) == e.mantissa * pow10((sc - e.scale) as nat))
            <==> units(d@) == units(e@),
{
    lemma_aligned_units(d, sc);
    lemma_aligned_units(e, sc);
    let p = pow10((MAX_SCALE - sc) as nat);
    let u = d.mantissa * pow10((sc - d.scale) as nat);
    let v = e.mantissa * pow10((sc - e.scale) as nat);
    assert(u * p == v * p ==> u == v) by (nonlinear_arith)
        requires
            p > 0,
    ;
}

/// The first index whose value differs from that of `s[0]`, or the length.
fn first_different(s: &Vec<Dec>) -> (r: usize)
    requires
        s.len() > 0,
        forall|i: int| 0 <= i < s.len() ==> (#[trigger] s[i]).wf(),
    ensures
        1 <= r <= s.len(),
        forall|j: int| 0 <= j < r ==> units((#[trigger] s[j])@) == units(s[0]@),
        r < s.len() ==> units(s[r as int]@) != units(s[0]@),
{
    let mut k: usize = 1;
    while k < s.len()
        invariant
            1 <= k <= s.len(),
            forall|i: int| 0 <= i < s.len() ==> (#[trigger] s[i]).wf(),
            forall|j: int| 0 <= j < k ==> units((#[trigger] s[j])@) == units(s[0]@),
        decreases s.len() - k,
    {
        if less_than(&s[k], &s[0]) || less_than(&s[0], &s[k]) {
            return k;
        }
        k = k + 1;
    }
    k
}

/// The mantissa of `d` written at scale `sc`, when it fits.
fn aligned_mantissa(d: &Dec, sc: u32) -> (r: Option<i128>)
    requires
        d.scale <= sc <= MAX_SCALE,
    ensures
        ({
            let x = d.mantissa * pow10((sc - d.scale) as nat);
            &&& r is Some <==> i128::MIN <= x <= i128::MAX
            &&& r matches Some(v) ==> v == x
        }),
{
    let p = pow10_i128(sc - d.scale);
    d.mantissa.checked_mul(p)
}

/// Largest scale in `s`.
fn max_scale(s: &Vec<Dec>) -> (r: u32)
    requires
        forall|i: int| 0 <= i < s.len() ==> (#[trigger] s[i]).wf(),
    ensures
        r == max_scale_to(s@, s.len() as int),
        r <= MAX_SCALE,
        forall|i: int| 0 <= i < s.len() ==> (#[trigger] s[i]).scale <= r,
{
    let mut m: u32 = 0;
    let mut i: usize = 0;
    while i < s.len()
        invariant
            i <= s.len(),
            forall|j: int| 0 <= j < s.len() ==> (#[trigger] s[j]).wf(),
            m == max_scale_to(s@, i as int),
            m <= MAX_SCALE,
            forall|j: int| 0 <= j < i ==> (#[trigger] s[j]).scale <= m,
        decreases s.len() - i,
    {
        if s[i].scale > m {
            m = s[i].scale;
        }
        i = i + 1;
    }
    m
}

pub struct Linreg {}

impl Linreg {
    /// The least-squares line `(slope, intercept)` through the points
    /// `(domain[i], range[i])`.
    pub fn linear_regress(domain: &Vec<Dec>, range: &Vec<Dec>) -> (r: Result<(Dec, Dec), MathError>)
        requires
            forall|i: int| 0 <= i < domain.len() ==> (#[trigger] domain[i]).wf(),
            forall|i: int| 0 <= i < range.len() ==> (#[trigger] range[i]).wf(),
        ensures
            (domain.len() == 0 || range.len() == 0) <==> r == Err::<(Dec, Dec), MathError>(
                MathError::EmptySeries,
            ),
            (domain.len() > 0 && range.len() > 0 && domain.len() != range.len()) <==> r == Err::<
                (Dec, Dec),
                MathError,
            >(MathError::LengthMismatch),
            (paired(domain@, range@) && constant_values(domain@)) <==> r == Err::<
                (Dec, Dec),
                MathError,
            >(MathError::DegenerateInput),
            regression_ok(domain@, range@) <==> r is Ok,
            (paired(domain@, range@) && !constant_values(domain@) && !regression_ok(
                domain@,
                range@,
            )) <==> r == Err::<(Dec, Dec), MathError>(MathError::Overflow),
            r matches Ok((m, b)) ==> is_regression(domain@, range@, m@, b@) && m.wf() && b.wf(),
    {
        let n = domain.len();
        if n == 0 || range.len() == 0 {
            return Err(MathError::EmptySeries);
        }
        if n != range.len() {
            return Err(MathError::LengthMismatch);
        }
        let diff = first_different(domain);
        if diff == n {
            return Err(MathError::DegenerateInput);
        }
        let sx_scale = max_scale(domain);
        let sy_scale = max_scale(range);
        let sc = if sx_scale > sy_scale {
            sx_scale
        } else {
            sy_scale
        };
        let ghost x = aligned(domain@, sc as int);
        let ghost y = aligned(range@, sc as int);
        proof {
            lemma_aligned_equal(domain[diff as int], domain[0], sc as int);
            assert(x[diff as int] != x[0]);
            assert(x.len() == n);
            lemma_degenerate_iff_constant(x);
            assert(!all_equal(x, n as int));
        }
        let mut sx: i128 = 0;
        let mut sy: i128 = 0;
        let mut sxy: i128 = 0;
        let mut sxx: i128 = 0;
        let mut i: usize = 0;
        while i < n
            invariant
                i <= n == domain.len() == range.len(),
                sc == common_scale(domain@, range@),
                sc <= MAX_SCALE,
                forall|j: int| 0 <= j < n ==> (#[trigger] domain[j]).scale <= sc,
                forall|j: int| 0 <= j < n ==> (#[trigger] range[j]).scale <= sc,
                x == aligned(domain@, sc as int),
                y == aligned(range@, sc as int),
                x.len() == n,
                y.len() == n,
                sums_fit(x, y, i as int),
                n > 0,
                !constant_values(domain@),
                !all_equal(x, n as int),
                sx == sum_to(x, i as int),
                sy == sum_to(y, i as int),
                sxy == dot_to(x, y, i as int),
                sxx == dot_to(x, x, i as int),
            decreases n - i,
        {
            proof {
                if sums_fit(x, y, n as int) {
                    lemma_sums_fit_prefix(x, y, i as int + 1, n as int);
                    assert(step_fits(x, y, i as int));
                }
                assert(sums_fit(x, y, n as int) ==> step_fits(x, y, i as int));
                assert(sum_to(x, i as int + 1) == sum_to(x, i as int) + x[i as int]);
                assert(sum_to(y, i as int + 1) == sum_to(y, i as int) + y[i as int]);
                assert(dot_to(x, y, i as int + 1) == dot_to(x, y, i as int) + x[i as int] * y[i as int]);
                assert(dot_to(x, x, i as int + 1) == dot_to(x, x, i as int) + x[i as int] * x[i as int]);
            }
            let xi = match aligned_mantissa(&domain[i], sc) {
                Some(v) => v,
                None => return Err(MathError::Overflow),
            };
            let yi = match aligned_mantissa(&range[i], sc) {
                Some(v) => v,
                None => return Err(MathError::Overflow),
            };
            assert(xi == x[i as int] && yi == y[i as int]);
            let nsx = match sx.checked_add(xi) {
                Some(v) => v,
                None => return Err(MathError::Overflow),
            };
            let nsy = match sy.checked_add(yi) {
                Some(v) => v,
                None => return Err(MathError::Overflow),
            };
            let pxy = match xi.checked_mul(yi) {
                Some(v) => v,
                None => return Err(MathError::Overflow),
            };
            let pxx = match xi.checked_mul(xi) {
                Some(v) => v,
                None => return Err(MathError::Overflow),
            };
            let nsxy = match sxy.checked_add(pxy) {
                Some(v) => v,
                None => return Err(MathError::Overflow),
            };
            let nsxx = match sxx.checked_add(pxx) {
                Some(v) => v,
                None => return Err(MathError::Overflow),
            };
            sx = nsx;
            sy = nsy;
            sxy = nsxy;
            sxx = nsxx;
            i = i + 1;
        }
        let nn = n as i128;
        let num = match (nn.checked_mul(sxy), sx.checked_mul(sy)) {
            (Some(a), Some(b)) => match a.checked_sub(b) {
                Some(v) => v,
                None => return Err(MathError::Overflow),
            },
            _ => return Err(MathError::Overflow),
        };
        let den = match (nn.checked_mul(sxx), sx.checked_mul(sx)) {
            (Some(a), Some(b)) => match a.checked_sub(b) {
                Some(v) => v,
                None => return Err(MathError::Overflow),
            },
            _ => return Err(MathError::Overflow),
        };
        assert(num == slope_numerator(x, y) && den == slope_denominator(x));
        if num < -MAX_MANTISSA || num > MAX_MANTISSA || den < -MAX_MANTISSA || den > MAX_MANTISSA {
            return Err(MathError::Overflow);
        }
        let inum = match (sy.checked_mul(den), num.checked_mul(sx)) {
            (Some(a), Some(b)) => match a.checked_sub(b) {
                Some(v) => v,
                None => return Err(MathError::Overflow),
            },
            _ => return Err(MathError::Overflow),
        };
        assert(inum == intercept_numerator(x, y));
        if inum < -MAX_MANTISSA || inum > MAX_MANTISSA {
            return Err(MathError::Overflow);
        }
        let nden = match nn.checked_mul(den) {
            Some(v) => v,
            None => return Err(MathError::Overflow),
        };
        if nden < -MAX_MANTISSA || nden > MAX_MANTISSA {
            return Err(MathError::Overflow);
        }
        assert(regression_fits(domain@, range@));
        let slope = match checked_div(&Dec { mantissa: num, scale: 0 }, &Dec { mantissa: den, scale: 0 }) {
            Some(v) => v,
            None => return Err(MathError::Overflow),
        };
        let intercept = match checked_div(
            &Dec { mantissa: inum, scale: sc },
            &Dec { mantissa: nden, scale: 0 },
        ) {
            Some(v) => v,
            None => return Err(MathError::Overflow),
        };
        Ok((slope, intercept))
    }
}

} // verus!

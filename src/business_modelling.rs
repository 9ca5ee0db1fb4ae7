//! A business model from a demand curve and costs: expense, revenue and
//! profit as functions of price, their maxima and breakeven prices, and the
//! point series that charts of them draw.
use vstd::prelude::*;

use crate::decimal::{
    checked_add, checked_div, checked_mul, checked_sub, decimal_difference, decimal_product,
    decimal_quotient, decimal_sum, less_than, negate, pow10, split_whole, sqrt_floor, sqrt_scale,
    trunc_of, value_less, Dec,
};
use crate::error::MathError;
use crate::linreg::{
    aligned, common_scale, intercept_quotient, is_regression, paired, slope_denominator,
    constant_values, regression_ok, slope_quotient, Linreg,
};

verus! {

/// Widest span of whole prices that a chart line is sampled over.
pub const MAX_SAMPLE: i128 = 2147483647;

/// m x + b.
pub open spec fn line_at(m: (int, int), b: (int, int), x: (int, int)) -> Option<(int, int)> {
    match decimal_product(m, x) {
        Some(p) => decimal_sum(p, b),
        None => None,
    }
}

/// a x² + b x + c.
pub open spec fn quadratic_at(a: (int, int), b: (int, int), c: (int, int), x: (int, int)) -> Option<
    (int, int),
> {
    match decimal_product(x, x) {
        Some(xx) => match (decimal_product(a, xx), decimal_product(b, x)) {
            (Some(p), Some(q)) => match decimal_sum(p, q) {
                Some(s) => decimal_sum(s, c),
                None => None,
            },
            _ => None,
        },
        None => None,
    }
}

/// The vertex of a x² + b x + c: the price -b / (2a) and the value there.
pub open spec fn vertex_of(a: (int, int), b: (int, int), c: (int, int)) -> Option<
    ((int, int), (int, int)),
> {
    match decimal_product((2, 0), a) {
        Some(ta) => match decimal_quotient((-b.0, b.1), ta) {
            Some(p) => match quadratic_at(a, b, c, p) {
                Some(v) => Some((p, v)),
                None => None,
            },
            None => None,
        },
        None => None,
    }
}

/// b² - 4 a c.
pub open spec fn discriminant_of(a: (int, int), b: (int, int), c: (int, int)) -> Option<(int, int)> {
    match (decimal_product(b, b), decimal_product((4, 0), a)) {
        (Some(bb), Some(fa)) => match decimal_product(fa, c) {
            Some(fac) => decimal_difference(bb, fac),
            None => None,
        },
        _ => None,
    }
}

/// `s` is the square root of `d`, rounded down at the scale that
/// `sqrt_floor` gives.
pub open spec fn is_floor_sqrt(d: (int, int), s: (int, int)) -> bool {
    let m = d.0 * pow10((2 * sqrt_scale(d) - d.1) as nat);
    &&& s.1 == sqrt_scale(d)
    &&& s.0 >= 0
    &&& s.0 * s.0 <= m < (s.0 + 1) * (s.0 + 1)
}

/// The two roots (-b - s) / (2a) and (-b + s) / (2a), where s is the
/// square root of the discriminant.
pub open spec fn roots_of(a: (int, int), b: (int, int), s: (int, int)) -> Option<
    ((int, int), (int, int)),
> {
    match (
        decimal_product((2, 0), a),
        decimal_difference((-b.0, b.1), s),
        decimal_sum((-b.0, b.1), s),
    ) {
        (Some(ta), Some(lo), Some(hi)) => match (decimal_quotient(lo, ta), decimal_quotient(hi, ta)) {
            (Some(x), Some(y)) => Some((x, y)),
            _ => None,
        },
        _ => None,
    }
}

/// `x` and `y` are the roots of a p² + b p + c, from the square root of
/// its discriminant.
pub open spec fn are_breakeven_roots(
    a: (int, int),
    b: (int, int),
    c: (int, int),
    x: (int, int),
    y: (int, int),
) -> bool {
    &&& discriminant_of(a, b, c) is Some
    &&& exists|s: (int, int)|
        #[trigger] is_floor_sqrt(discriminant_of(a, b, c)->Some_0, s) && roots_of(a, b, s) == Some(
            (x, y),
        )
}

/// A decimal operation on the way to the roots of a p² + b p + c fails.
pub open spec fn breakeven_fails(a: (int, int), b: (int, int), c: (int, int)) -> bool {
    ||| discriminant_of(a, b, c) is None
    ||| exists|s: (int, int)|
        #[trigger] is_floor_sqrt(discriminant_of(a, b, c)->Some_0, s) && roots_of(a, b, s) is None
}

/// There is one rounded-down square root.
proof fn lemma_floor_sqrt_unique(d: (int, int), s1: (int, int), s2: (int, int))
    requires
        is_floor_sqrt(d, s1),
        is_floor_sqrt(d, s2),
    ensures
        s1 == s2,
{
    let m = d.0 * pow10((2 * sqrt_scale(d) - d.1) as nat);
    let (x, y) = (s1.0, s2.0);
    if x < y {
        assert((x + 1) * (x + 1) <= y * y) by (nonlinear_arith)
            requires
                0 <= x < y,
        ;
    } else if y < x {
        assert((y + 1) * (y + 1) <= x * x) by (nonlinear_arith)
            requires
                0 <= y < x,
        ;
    }
}

/// Solving the same model for its breakeven prices twice gives the same
/// prices, to the last digit.
pub proof fn lemma_breakeven_unique(
    a: (int, int),
    b: (int, int),
    c: (int, int),
    r1: (Dec, Dec),
    r2: (Dec, Dec),
)
    requires
        are_breakeven_roots(a, b, c, r1.0@, r1.1@),
        are_breakeven_roots(a, b, c, r2.0@, r2.1@),
    ensures
        r1 == r2,
{
    let d = discriminant_of(a, b, c)->Some_0;
    let s1 = choose|s: (int, int)| #[trigger] is_floor_sqrt(d, s) && roots_of(a, b, s) == Some((r1.0@, r1.1@));
    let s2 = choose|s: (int, int)| #[trigger] is_floor_sqrt(d, s) && roots_of(a, b, s) == Some((r2.0@, r2.1@));
    lemma_floor_sqrt_unique(d, s1, s2);
}

/// The points of a x² + b x + c at every whole x in 0 ..= hi.
pub open spec fn is_sampled_curve(
    a: (int, int),
    b: (int, int),
    c: (int, int),
    hi: int,
    curve: Seq<(Dec, Dec)>,
) -> bool {
    &&& curve.len() == hi + 1
    &&& forall|k: int|
        0 <= k < curve.len() ==> (#[trigger] curve[k]).0@ == (k, 0int) && quadratic_at(a, b, c, (k, 0int))
            == Some(curve[k].1@)
}

/// The points of a line m x + b: first at `first`, then at every whole x
/// in lo + 1 ..= hi.
pub open spec fn is_sampled_line(
    m: (int, int),
    b: (int, int),
    first: (int, int),
    lo: int,
    hi: int,
    line: Seq<(Dec, Dec)>,
) -> bool {
    &&& line.len() == 1 + (if hi > lo { hi - lo } else { 0 })
    &&& line[0].0@ == first
    &&& line_at(m, b, first) == Some(line[0].1@)
    &&& forall|k: int|
        1 <= k < line.len() ==> (#[trigger] line[k]).0@ == (lo + k, 0int) && line_at(m, b, (lo + k, 0int))
            == Some(line[k].1@)
}

/// Every point of the line m x + b sampled at `first` and at the whole x in
/// lo + 1 ..= hi has a result.
pub open spec fn line_samples_exist(m: (int, int), b: (int, int), first: (int, int), lo: int, hi: int) -> bool {
    &&& line_at(m, b, first) is Some
    &&& forall|x: int| lo < x <= hi ==> (#[trigger] line_at(m, b, (x, 0int))) is Some
}

/// Every point of a x² + b x + c at the whole x in 0 ..= hi has a result.
pub open spec fn curve_samples_exist(a: (int, int), b: (int, int), c: (int, int), hi: int) -> bool {
    forall|x: int| 0 <= x <= hi ==> (#[trigger] quadratic_at(a, b, c, (x, 0int))) is Some
}

/// Both coordinates of every point are valid decimals.
pub open spec fn points_valid(s: Seq<(Dec, Dec)>) -> bool {
    forall|k: int| 0 <= k < s.len() ==> (#[trigger] s[k]).0.wf() && s[k].1.wf()
}

/// The value of `s[0..k]` that is largest, the first of equal ones.
pub open spec fn max_to(s: Seq<Dec>, k: int) -> Dec
    decreases k,
{
    if k <= 1 {
        s[0]
    } else {
        let m = max_to(s, k - 1);
        if value_less(m@, s[k - 1]@) {
            s[k - 1]
        } else {
            m
        }
    }
}

/// Every decimal operation that derives the model from the demand line
/// m p + b and the costs has a result.
pub open spec fn model_derivable(
    fixed_cost: (int, int),
    manufacturing_cost: (int, int),
    m: (int, int),
    b: (int, int),
) -> bool {
    match (decimal_product(manufacturing_cost, m), decimal_product(manufacturing_cost, b)) {
        (Some(em), Some(p)) => decimal_sum(p, fixed_cost) is Some && decimal_difference(b, em) is Some,
        _ => false,
    }
}

/// The business model of these prices, quantities and costs has a result.
pub open spec fn model_ok(
    prices: Seq<Dec>,
    quantity: Seq<Dec>,
    fixed_cost: (int, int),
    manufacturing_cost: (int, int),
) -> bool {
    &&& regression_ok(prices, quantity)
    &&& model_derivable(
        fixed_cost,
        manufacturing_cost,
        slope_quotient(prices, quantity)->Some_0,
        intercept_quotient(prices, quantity)->Some_0,
    )
}

/// The scatterplot of these points has a result: the regression has one,
/// and so does every point of its line from 0 to the largest x, unless
/// that is negative.
pub open spec fn scatterplot_ok(domain: Seq<Dec>, range: Seq<Dec>) -> bool {
    let mx = max_to(domain, domain.len() as int);
    let hi = trunc_of(mx@).0;
    &&& regression_ok(domain, range)
    &&& mx.mantissa < 0 || (hi <= MAX_SAMPLE && line_samples_exist(
        slope_quotient(domain, range)->Some_0,
        intercept_quotient(domain, range)->Some_0,
        (0, 0),
        0,
        hi,
    ))
}

/// Both fits of a demand and supply chart have a result, and so does
/// every point of both lines from the first price to the last.
pub open spec fn demand_supply_ok(prices: Seq<Dec>, purchase: Seq<Dec>, produce: Seq<Dec>) -> bool {
    let first = prices[0];
    let lo = trunc_of(first@).0;
    let hi = trunc_of(prices[prices.len() - 1]@).0;
    &&& regression_ok(prices, purchase)
    &&& regression_ok(prices, produce)
    &&& -MAX_SAMPLE <= lo <= MAX_SAMPLE
    &&& -MAX_SAMPLE <= hi <= MAX_SAMPLE
    &&& line_samples_exist(
        slope_quotient(prices, purchase)->Some_0,
        intercept_quotient(prices, purchase)->Some_0,
        first@,
        lo,
        hi,
    )
    &&& line_samples_exist(
        slope_quotient(prices, produce)->Some_0,
        intercept_quotient(prices, produce)->Some_0,
        first@,
        lo,
        hi,
    )
}

/// How demand compares with supply at a price.
#[derive(Clone, Copy, Debug, PartialEq, Eq, Structural)]
pub enum Market {
    /// Demand is above supply.
    Surplus,
    Equilibrium,
    /// Demand is below supply.
    Shortage,
}

/// Demand, expense, revenue and profit as functions of price p:
/// demand(p) = demand_slope p + demand_intercept,
/// expense(p) = expense_slope p + expense_intercept,
/// revenue(p) = demand_slope p² + demand_intercept p,
/// profit(p) = profit_a p² + profit_b p + profit_c.
pub struct BusinessModel {
    pub demand_slope: Dec,
    pub demand_intercept: Dec,
    pub expense_slope: Dec,
    pub expense_intercept: Dec,
    pub profit_a: Dec,
    pub profit_b: Dec,
    pub profit_c: Dec,
}

impl BusinessModel {
    pub open spec fn wf(self) -> bool {
        &&& self.demand_slope.wf()
        &&& self.demand_intercept.wf()
        &&& self.expense_slope.wf()
        &&& self.expense_intercept.wf()
        &&& self.profit_a.wf()
        &&& self.profit_b.wf()
        &&& self.profit_c.wf()
    }

    /// Expense is manufacturing cost times demand plus fixed cost, and profit
    /// is revenue less expense.
    pub open spec fn derived_from(self, fixed_cost: (int, int), manufacturing_cost: (int, int)) -> bool {
        &&& decimal_product(manufacturing_cost, self.demand_slope@) == Some(self.expense_slope@)
        &&& match decimal_product(manufacturing_cost, self.demand_intercept@) {
            Some(p) => decimal_sum(p, fixed_cost) == Some(self.expense_intercept@),
            None => false,
        }
        &&& self.profit_a == self.demand_slope
        &&& decimal_difference(self.demand_intercept@, self.expense_slope@) == Some(self.profit_b@)
        &&& self.profit_c@ == (-self.expense_intercept.mantissa, self.expense_intercept.scale as int)
    }

    /// Revenue at `price`: demand_slope price² + demand_intercept price.
    pub fn revenue_at(&self, price: Dec) -> (r: Option<Dec>)
        requires
            self.wf(),
            price.wf(),
        ensures
            crate::decimal::opt_view(r) == quadratic_at(
                self.demand_slope@,
                self.demand_intercept@,
                (0, 0),
                price@,
            ),
    {
        quadratic(&self.demand_slope, &self.demand_intercept, &Dec::zero(), &price)
    }

    /// The price of highest revenue, -b / (2a) for revenue a p² + b p, and
    /// the revenue there.
    pub fn revenue_maximum(&self) -> (r: Option<(Dec, Dec)>)
        requires
            self.wf(),
        ensures
            match vertex_of(self.demand_slope@, self.demand_intercept@, (0, 0)) {
                Some(v) => r matches Some(t) && t.0@ == v.0 && t.1@ == v.1 && t.0.wf() && t.1.wf(),
                None => r is None,
            },
    {
        vertex(&self.demand_slope, &self.demand_intercept, &Dec::zero())
    }

    /// The price of highest profit and the profit there.
    pub fn profit_maximum(&self) -> (r: Option<(Dec, Dec)>)
        requires
            self.wf(),
        ensures
            match vertex_of(self.profit_a@, self.profit_b@, self.profit_c@) {
                Some(v) => r matches Some(t) && t.0@ == v.0 && t.1@ == v.1 && t.0.wf() && t.1.wf(),
                None => r is None,
            },
    {
        vertex(&self.profit_a, &self.profit_b, &self.profit_c)
    }

    /// The two prices where profit is zero, (-b - s) / (2a) first and
    /// (-b + s) / (2a) second, where s is the square root of the
    /// discriminant b² - 4ac rounded down. Fails with
    /// `NoRealSolution` exactly when the discriminant is negative, and with
    /// `Overflow` when a decimal operation fails.
    pub fn breakeven_prices(&self) -> (r: Result<(Dec, Dec), MathError>)
        requires
            self.wf(),
        ensures
            ({
                let (a, b, c) = (self.profit_a@, self.profit_b@, self.profit_c@);
                &&& r == Err::<(Dec, Dec), MathError>(MathError::NoRealSolution) <==> (
                discriminant_of(a, b, c) matches Some(d) && d.0 < 0)
                &&& r matches Ok((x, y)) ==> are_breakeven_roots(a, b, c, x@, y@) && x.wf() && y.wf()
                &&& r is Err ==> r == Err::<(Dec, Dec), MathError>(MathError::NoRealSolution)
                    || r == Err::<(Dec, Dec), MathError>(MathError::Overflow)
                &&& r == Err::<(Dec, Dec), MathError>(MathError::Overflow) ==> breakeven_fails(a, b, c)
            }),
    {
        let a = &self.profit_a;
        let b = &self.profit_b;
        let c = &self.profit_c;
        let d = match (checked_mul(b, b), checked_mul(&Dec::from_u64(4), a)) {
            (Some(bb), Some(fa)) => match checked_mul(&fa, c) {
                Some(fac) => match checked_sub(&bb, &fac) {
                    Some(v) => v,
                    None => return Err(MathError::Overflow),
                },
                None => return Err(MathError::Overflow),
            },
            _ => return Err(MathError::Overflow),
        };
        assert(discriminant_of(a@, b@, c@) == Some(d@));
        assert(discriminant_of(a@, b@, c@)->Some_0 == d@);
        if d.is_negative() {
            return Err(MathError::NoRealSolution);
        }
        let s = sqrt_floor(&d);
        assert(is_floor_sqrt(d@, s@));
        let nb = negate(b);
        let roots = match (
            checked_mul(&Dec::from_u64(2), a),
            checked_sub(&nb, &s),
            checked_add(&nb, &s),
        ) {
            (Some(ta), Some(lo), Some(hi)) => match (checked_div(&lo, &ta), checked_div(&hi, &ta)) {
                (Some(x), Some(y)) => Some((x, y)),
                _ => None,
            },
            _ => None,
        };
        match roots {
            Some(t) => {
                assert(roots_of(a@, b@, s@) == Some((t.0@, t.1@)));
                assert(is_floor_sqrt(discriminant_of(a@, b@, c@)->Some_0, s@));
                assert(are_breakeven_roots(a@, b@, c@, t.0@, t.1@));
                Ok(t)
            },
            None => {
                assert(roots_of(a@, b@, s@) is None);
                assert(is_floor_sqrt(discriminant_of(a@, b@, c@)->Some_0, s@));
                assert(breakeven_fails(a@, b@, c@));
                Err(MathError::Overflow)
            },
        }
    }
}

/// The vertex of a x² + b x + c.
fn vertex(a: &Dec, b: &Dec, c: &Dec) -> (r: Option<(Dec, Dec)>)
    requires
        a.wf(),
        b.wf(),
        c.wf(),
    ensures
        match vertex_of(a@, b@, c@) {
            Some(v) => r matches Some(t) && t.0@ == v.0 && t.1@ == v.1 && t.0.wf() && t.1.wf(),
            None => r is None,
        },
{
    let ta = match checked_mul(&Dec::from_u64(2), a) {
        Some(v) => v,
        None => return None,
    };
    let p = match checked_div(&negate(b), &ta) {
        Some(v) => v,
        None => return None,
    };
    match quadratic(a, b, c, &p) {
        Some(v) => Some((p, v)),
        None => None,
    }
}

/// a x² + b x + c.
fn quadratic(a: &Dec, b: &Dec, c: &Dec, x: &Dec) -> (r: Option<Dec>)
    requires
        a.wf(),
        b.wf(),
        c.wf(),
        x.wf(),
    ensures
        crate::decimal::opt_view(r) == quadratic_at(a@, b@, c@, x@),
        crate::decimal::opt_valid(r),
{
    let xx = match checked_mul(x, x) {
        Some(v) => v,
        None => return None,
    };
    match (checked_mul(a, &xx), checked_mul(b, x)) {
        (Some(p), Some(q)) => match checked_add(&p, &q) {
            Some(s) => checked_add(&s, c),
            None => None,
        },
        _ => None,
    }
}

/// m x + b.
fn line(m: &Dec, b: &Dec, x: &Dec) -> (r: Option<Dec>)
    requires
        m.wf(),
        b.wf(),
        x.wf(),
    ensures
        crate::decimal::opt_view(r) == line_at(m@, b@, x@),
        crate::decimal::opt_valid(r),
{
    match checked_mul(m, x) {
        Some(p) => checked_add(&p, b),
        None => None,
    }
}

/// The points of a x² + b x + c at every whole x in 0 ..= hi; `None` when
/// a decimal operation fails.
fn sample_curve(a: &Dec, b: &Dec, c: &Dec, hi: i128) -> (r: Option<Vec<(Dec, Dec)>>)
    requires
        a.wf(),
        b.wf(),
        c.wf(),
        0 <= hi <= MAX_SAMPLE,
    ensures
        r is Some <==> curve_samples_exist(a@, b@, c@, hi as int),
        r matches Some(v) ==> is_sampled_curve(a@, b@, c@, hi as int, v@) && points_valid(v@),
{
    let mut out: Vec<(Dec, Dec)> = Vec::new();
    let mut x: i128 = 0;
    while x <= hi
        invariant
            a.wf(),
            b.wf(),
            c.wf(),
            0 <= x <= hi + 1,
            hi <= MAX_SAMPLE,
            out.len() == x,
            forall|k: int|
                0 <= k < out.len() ==> (#[trigger] out[k]).0@ == (k, 0int) && quadratic_at(
                    a@,
                    b@,
                    c@,
                    (k, 0int),
                ) == Some(out[k].1@),
            points_valid(out@),
            forall|y: int| 0 <= y < x ==> (#[trigger] quadratic_at(a@, b@, c@, (y, 0int))) is Some,
        decreases hi + 1 - x,
    {
        let xd = Dec { mantissa: x, scale: 0 };
        let y = match quadratic(a, b, c, &xd) {
            Some(v) => v,
            None => {
                assert(quadratic_at(a@, b@, c@, (x as int, 0int)) is None);
                return None;
            },
        };
        out.push((xd, y));
        x = x + 1;
    }
    Some(out)
}

/// The curves of a business-model chart.
pub struct ModelCurves {
    /// Where expense meets the price axis: expense_intercept / |expense_slope|.
    pub price_limit: Dec,
    /// Expense at price zero.
    pub expense_at_zero: Dec,
    /// Expense, revenue and profit at every whole price from 0 to the
    /// price limit.
    pub expense: Vec<(Dec, Dec)>,
    pub revenue: Vec<(Dec, Dec)>,
    pub profit: Vec<(Dec, Dec)>,
}

impl BusinessModel {
    /// |expense_slope|.
    pub open spec fn abs_expense_slope(self) -> (int, int) {
        (
            if self.expense_slope.mantissa < 0 {
                -self.expense_slope.mantissa
            } else {
                self.expense_slope.mantissa as int
            },
            self.expense_slope.scale as int,
        )
    }

    /// The chart's price limit, expense_intercept / |expense_slope|, has a
    /// result that is not negative and within the sampled span, and every
    /// sampled point of the three curves has a result.
    pub open spec fn curves_exist(self) -> bool {
        match decimal_quotient(self.expense_intercept@, self.abs_expense_slope()) {
            Some(l) => {
                let hi = trunc_of(l).0;
                &&& l.0 >= 0
                &&& hi <= MAX_SAMPLE
                &&& line_samples_exist(self.expense_slope@, self.expense_intercept@, (0, 0), 0, hi)
                &&& curve_samples_exist(self.demand_slope@, self.demand_intercept@, (0, 0), hi)
                &&& curve_samples_exist(self.profit_a@, self.profit_b@, self.profit_c@, hi)
            },
            None => false,
        }
    }

    /// The expense, revenue and profit curves of the model, sampled at every
    /// whole price from 0 to where the expense line meets the price axis.
    /// `None` when a decimal operation fails, the expense line is flat, or
    /// the price limit is negative or beyond the sampled span.
    pub fn chart_curves(&self) -> (r: Option<ModelCurves>)
        requires
            self.wf(),
        ensures
            r is Some <==> self.curves_exist(),
            r matches Some(m) ==> {
                let hi = trunc_of(m.price_limit@).0;
                &&& decimal_quotient(self.expense_intercept@, self.abs_expense_slope()) == Some(
                    m.price_limit@,
                )
                &&& m.price_limit.wf()
                &&& m.expense_at_zero == self.expense_intercept
                &&& 0 <= hi
                &&& is_sampled_line(
                    self.expense_slope@,
                    self.expense_intercept@,
                    (0, 0),
                    0,
                    hi,
                    m.expense@,
                )
                &&& is_sampled_curve(
                    self.demand_slope@,
                    self.demand_intercept@,
                    (0, 0),
                    hi,
                    m.revenue@,
                )
                &&& is_sampled_curve(self.profit_a@, self.profit_b@, self.profit_c@, hi, m.profit@)
                &&& points_valid(m.expense@) && points_valid(m.revenue@) && points_valid(m.profit@)
            },
    {
        let em = &self.expense_slope;
        let abs_slope = if em.mantissa < 0 {
            negate(em)
        } else {
            *em
        };
        let limit = match checked_div(&self.expense_intercept, &abs_slope) {
            Some(v) => v,
            None => return None,
        };
        if limit.is_negative() {
            return None;
        }
        let (whole, _) = split_whole(&limit);
        if whole.mantissa > MAX_SAMPLE {
            return None;
        }
        let hi = whole.mantissa;
        let expense = match sample_line(em, &self.expense_intercept, &Dec::zero(), 0, hi) {
            Some(v) => v,
            None => return None,
        };
        let revenue = match sample_curve(&self.demand_slope, &self.demand_intercept, &Dec::zero(), hi) {
            Some(v) => v,
            None => return None,
        };
        let profit = match sample_curve(&self.profit_a, &self.profit_b, &self.profit_c, hi) {
            Some(v) => v,
            None => return None,
        };
        Some(
            ModelCurves {
                price_limit: limit,
                expense_at_zero: self.expense_intercept,
                expense,
                revenue,
                profit,
            },
        )
    }
}

/// The points of the line m x + b at `first` and at every whole x in
/// lo + 1 ..= hi; `None` when a decimal operation fails.
fn sample_line(m: &Dec, b: &Dec, first: &Dec, lo: i128, hi: i128) -> (r: Option<Vec<(Dec, Dec)>>)
    requires
        m.wf(),
        b.wf(),
        first.wf(),
        -MAX_SAMPLE <= lo <= MAX_SAMPLE,
        -MAX_SAMPLE <= hi <= MAX_SAMPLE,
    ensures
        r is Some <==> line_samples_exist(m@, b@, first@, lo as int, hi as int),
        r matches Some(v) ==> is_sampled_line(m@, b@, first@, lo as int, hi as int, v@)
            && points_valid(v@),
{
    let y0 = match line(m, b, first) {
        Some(v) => v,
        None => return None,
    };
    let mut out: Vec<(Dec, Dec)> = Vec::new();
    out.push((*first, y0));
    let mut x: i128 = lo;
    while x < hi
        invariant
            m.wf(),
            b.wf(),
            -MAX_SAMPLE <= lo <= MAX_SAMPLE,
            -MAX_SAMPLE <= hi <= MAX_SAMPLE,
            lo <= x,
            x == lo || x <= hi,
            first.wf(),
            out.len() == 1 + x - lo,
            out[0].0@ == first@,
            line_at(m@, b@, first@) == Some(out[0].1@),
            forall|k: int|
                1 <= k < out.len() ==> (#[trigger] out[k]).0@ == (lo + k, 0int) && line_at(
                    m@,
                    b@,
                    (lo + k, 0int),
                ) == Some(out[k].1@),
            points_valid(out@),
            forall|y: int| lo < y <= x ==> (#[trigger] line_at(m@, b@, (y, 0int))) is Some,
        decreases hi - x,
    {
        x = x + 1;
        let xd = Dec { mantissa: x, scale: 0 };
        let y = match line(m, b, &xd) {
            Some(v) => v,
            None => {
                assert(line_at(m@, b@, (x as int, 0int)) is None);
                return None;
            },
        };
        out.push((xd, y));
    }
    Some(out)
}

/// The points and fitted line of a scatterplot.
pub struct Scatterplot {
    pub points: Vec<(Dec, Dec)>,
    pub slope: Dec,
    pub intercept: Dec,
    /// The fitted line at every whole x from 0 to the largest x of the
    /// domain; empty when that is negative.
    pub line: Vec<(Dec, Dec)>,
}

/// The two fitted lines of a demand and supply chart.
pub struct DemandSupply {
    pub demand_slope: Dec,
    pub demand_intercept: Dec,
    pub supply_slope: Dec,
    pub supply_intercept: Dec,
    /// Each line at the first price and at every whole price after it up to
    /// the last price.
    pub demand_line: Vec<(Dec, Dec)>,
    pub supply_line: Vec<(Dec, Dec)>,
}

/// `v` is a largest value of `s`.
pub open spec fn is_max_of(s: Seq<Dec>, v: Dec) -> bool {
    &&& exists|i: int| 0 <= i < s.len() && s[i] == v
    &&& forall|i: int| 0 <= i < s.len() ==> !value_less(v@, (#[trigger] s[i])@)
}

/// The largest value of a non-empty series.
fn max_value(s: &Vec<Dec>) -> (r: Dec)
    requires
        s.len() > 0,
        forall|i: int| 0 <= i < s.len() ==> (#[trigger] s[i]).wf(),
    ensures
        is_max_of(s@, r),
        r == max_to(s@, s.len() as int),
        r.wf(),
{
    let mut best = s[0];
    let mut i: usize = 1;
    while i < s.len()
        invariant
            1 <= i <= s.len(),
            forall|j: int| 0 <= j < s.len() ==> (#[trigger] s[j]).wf(),
            exists|j: int| 0 <= j < s.len() && s[j] == best,
            forall|j: int| 0 <= j < i ==> !value_less(best@, (#[trigger] s[j])@),
            best == max_to(s@, i as int),
            best.wf(),
        decreases s.len() - i,
    {
        if less_than(&best, &s[i]) {
            best = s[i];
        }
        i = i + 1;
    }
    best
}

pub struct BusinessModelling {}

impl BusinessModelling {
    /// The business model of a demand curve, fitted to quantities
    /// purchased at prices, with a fixed cost and a manufacturing cost per
    /// unit. Fails as the regression does, or with `Overflow` when a decimal
    /// operation fails.
    pub fn business_model(
        prices: &Vec<Dec>,
        quantity_purchase: &Vec<Dec>,
        fixed_cost: Dec,
        manufacturing_cost: Dec,
    ) -> (r: Result<BusinessModel, MathError>)
        requires
            forall|i: int| 0 <= i < prices.len() ==> (#[trigger] prices[i]).wf(),
            forall|i: int| 0 <= i < quantity_purchase.len() ==> (#[trigger] quantity_purchase[i]).wf(),
            fixed_cost.wf(),
            manufacturing_cost.wf(),
        ensures
            (prices.len() == 0 || quantity_purchase.len() == 0) <==> r == Err::<
                BusinessModel,
                MathError,
            >(MathError::EmptySeries),
            (prices.len() > 0 && quantity_purchase.len() > 0 && prices.len()
                != quantity_purchase.len()) <==> r == Err::<BusinessModel, MathError>(
                MathError::LengthMismatch,
            ),
            (paired(prices@, quantity_purchase@) && constant_values(prices@)) <==> r == Err::<
                BusinessModel,
                MathError,
            >(MathError::DegenerateInput),
            model_ok(prices@, quantity_purchase@, fixed_cost@, manufacturing_cost@) <==> r is Ok,
            (paired(prices@, quantity_purchase@) && !constant_values(prices@) && !model_ok(
                prices@,
                quantity_purchase@,
                fixed_cost@,
                manufacturing_cost@,
            )) <==> r == Err::<BusinessModel, MathError>(MathError::Overflow),
            r matches Ok(m) ==> {
                &&& m.wf()
                &&& paired(prices@, quantity_purchase@)
                &&& is_regression(
                    prices@,
                    quantity_purchase@,
                    m.demand_slope@,
                    m.demand_intercept@,
                )
                &&& m.derived_from(fixed_cost@, manufacturing_cost@)
            },
    {
        let (dm, db) = match Linreg::linear_regress(prices, quantity_purchase) {
            Ok(t) => t,
            Err(e) => return Err(e),
        };
        let em = match checked_mul(&manufacturing_cost, &dm) {
            Some(v) => v,
            None => return Err(MathError::Overflow),
        };
        let eb = match checked_mul(&manufacturing_cost, &db) {
            Some(p) => match checked_add(&p, &fixed_cost) {
                Some(v) => v,
                None => return Err(MathError::Overflow),
            },
            None => return Err(MathError::Overflow),
        };
        let pb = match checked_sub(&db, &em) {
            Some(v) => v,
            None => return Err(MathError::Overflow),
        };
        Ok(
            BusinessModel {
                demand_slope: dm,
                demand_intercept: db,
                expense_slope: em,
                expense_intercept: eb,
                profit_a: dm,
                profit_b: pb,
                profit_c: negate(&eb),
            },
        )
    }

    /// The points, fitted line and line samples of a scatterplot.
    pub fn scatterplot_data(domain: &Vec<Dec>, range: &Vec<Dec>) -> (r: Result<Scatterplot, MathError>)
        requires
            forall|i: int| 0 <= i < domain.len() ==> (#[trigger] domain[i]).wf(),
            forall|i: int| 0 <= i < range.len() ==> (#[trigger] range[i]).wf(),
        ensures
            (domain.len() == 0 || range.len() == 0) <==> r == Err::<Scatterplot, MathError>(
                MathError::EmptySeries,
            ),
            (domain.len() > 0 && range.len() > 0 && domain.len() != range.len()) <==> r == Err::<
                Scatterplot,
                MathError,
            >(MathError::LengthMismatch),
            (paired(domain@, range@) && constant_values(domain@)) <==> r == Err::<
                Scatterplot,
                MathError,
            >(MathError::DegenerateInput),
            scatterplot_ok(domain@, range@) <==> r is Ok,
            (paired(domain@, range@) && !constant_values(domain@) && !scatterplot_ok(
                domain@,
                range@,
            )) <==> r == Err::<Scatterplot, MathError>(MathError::Overflow),
            r matches Ok(p) ==> {
                let mx = max_to(domain@, domain.len() as int);
                &&& p.points.len() == domain.len()
                &&& forall|i: int|
                    0 <= i < domain.len() ==> (#[trigger] p.points[i]) == (domain[i], range[i])
                &&& is_regression(domain@, range@, p.slope@, p.intercept@)
                &&& p.slope.wf() && p.intercept.wf()
                &&& points_valid(p.line@)
                &&& if mx.mantissa < 0 {
                    p.line.len() == 0
                } else {
                    is_sampled_line(p.slope@, p.intercept@, (0, 0), 0, trunc_of(mx@).0, p.line@)
                }
            },
    {
        let (m, b) = match Linreg::linear_regress(domain, range) {
            Ok(t) => t,
            Err(e) => return Err(e),
        };
        let mut points: Vec<(Dec, Dec)> = Vec::new();
        let mut i: usize = 0;
        while i < domain.len()
            invariant
                i <= domain.len() == range.len(),
                points.len() == i,
                forall|j: int| 0 <= j < i ==> (#[trigger] points[j]) == (domain[j], range[j]),
            decreases domain.len() - i,
        {
            points.push((domain[i], range[i]));
            i = i + 1;
        }
        let mx = max_value(domain);
        let line = if mx.is_negative() {
            Vec::new()
        } else {
            let (whole, _) = split_whole(&mx);
            if whole.mantissa > MAX_SAMPLE {
                return Err(MathError::Overflow);
            }
            match sample_line(&m, &b, &Dec::zero(), 0, whole.mantissa) {
                Some(v) => v,
                None => return Err(MathError::Overflow),
            }
        };
        Ok(Scatterplot { points, slope: m, intercept: b, line })
    }

    /// The demand and supply lines fitted to quantities purchased and
    /// produced at prices, sampled from the first price to the last.
    pub fn demand_supply_data(
        prices: &Vec<Dec>,
        quantity_purchase: &Vec<Dec>,
        quantity_produce: &Vec<Dec>,
    ) -> (r: Result<DemandSupply, MathError>)
        requires
            forall|i: int| 0 <= i < prices.len() ==> (#[trigger] prices[i]).wf(),
            forall|i: int| 0 <= i < quantity_purchase.len() ==> (#[trigger] quantity_purchase[i]).wf(),
            forall|i: int| 0 <= i < quantity_produce.len() ==> (#[trigger] quantity_produce[i]).wf(),
        ensures
            ({
                let some_empty = prices.len() == 0 || quantity_purchase.len() == 0
                    || quantity_produce.len() == 0;
                let same_len = prices.len() == quantity_purchase.len() && prices.len()
                    == quantity_produce.len();
                &&& some_empty <==> r == Err::<DemandSupply, MathError>(MathError::EmptySeries)
                &&& (!some_empty && !same_len) <==> r == Err::<DemandSupply, MathError>(
                    MathError::LengthMismatch,
                )
                &&& (!some_empty && same_len && constant_values(prices@)) <==> r == Err::<
                    DemandSupply,
                    MathError,
                >(MathError::DegenerateInput)
                &&& demand_supply_ok(prices@, quantity_purchase@, quantity_produce@) <==> r is Ok
                &&& (!some_empty && same_len && !constant_values(prices@) && !demand_supply_ok(
                    prices@,
                    quantity_purchase@,
                    quantity_produce@,
                )) <==> r == Err::<DemandSupply, MathError>(MathError::Overflow)
            }),
            r matches Ok(d) ==> {
                let first = prices[0];
                let last = prices[prices.len() - 1];
                &&& d.wf()
                &&& points_valid(d.demand_line@)
                &&& points_valid(d.supply_line@)
                &&& is_regression(prices@, quantity_purchase@, d.demand_slope@, d.demand_intercept@)
                &&& is_regression(prices@, quantity_produce@, d.supply_slope@, d.supply_intercept@)
                &&& is_sampled_line(
                    d.demand_slope@,
                    d.demand_intercept@,
                    first@,
                    trunc_of(first@).0,
                    trunc_of(last@).0,
                    d.demand_line@,
                )
                &&& is_sampled_line(
                    d.supply_slope@,
                    d.supply_intercept@,
                    first@,
                    trunc_of(first@).0,
                    trunc_of(last@).0,
                    d.supply_line@,
                )
            },
    {
        if prices.len() == 0 || quantity_purchase.len() == 0 || quantity_produce.len() == 0 {
            return Err(MathError::EmptySeries);
        }
        if prices.len() != quantity_purchase.len() || prices.len() != quantity_produce.len() {
            return Err(MathError::LengthMismatch);
        }
        let (dm, db) = match Linreg::linear_regress(prices, quantity_purchase) {
            Ok(t) => t,
            Err(e) => return Err(e),
        };
        let (sm, sb) = match Linreg::linear_regress(prices, quantity_produce) {
            Ok(t) => t,
            Err(e) => return Err(e),
        };
        let first = prices[0];
        let last = prices[prices.len() - 1];
        let (lo, _) = split_whole(&first);
        let (hi, _) = split_whole(&last);
        if lo.mantissa < -MAX_SAMPLE || lo.mantissa > MAX_SAMPLE || hi.mantissa < -MAX_SAMPLE
            || hi.mantissa > MAX_SAMPLE {
            return Err(MathError::Overflow);
        }
        let demand_line = match sample_line(&dm, &db, &first, lo.mantissa, hi.mantissa) {
            Some(v) => v,
            None => return Err(MathError::Overflow),
        };
        let supply_line = match sample_line(&sm, &sb, &first, lo.mantissa, hi.mantissa) {
            Some(v) => v,
            None => return Err(MathError::Overflow),
        };
        Ok(
            DemandSupply {
                demand_slope: dm,
                demand_intercept: db,
                supply_slope: sm,
                supply_intercept: sb,
                demand_line,
                supply_line,
            },
        )
    }
}

impl DemandSupply {
    pub open spec fn wf(self) -> bool {
        self.demand_slope.wf() && self.demand_intercept.wf() && self.supply_slope.wf()
            && self.supply_intercept.wf()
    }

    /// Demand and supply at `price`, and how they compare; `None` when a
    /// decimal operation fails.
    pub fn market_at(&self, price: Dec) -> (r: Option<(Dec, Dec, Market)>)
        requires
            self.wf(),
            price.wf(),
        ensures
            match (
                line_at(self.demand_slope@, self.demand_intercept@, price@),
                line_at(self.supply_slope@, self.supply_intercept@, price@),
            ) {
                (Some(dq), Some(sq)) => r matches Some(t) && t.0@ == dq && t.1@ == sq && t.2 == (
                if value_less(sq, dq) {
                    Market::Surplus
                } else if value_less(dq, sq) {
                    Market::Shortage
                } else {
                    Market::Equilibrium
                }),
                _ => r is None,
            },
    {
        let dq = match line(&self.demand_slope, &self.demand_intercept, &price) {
            Some(v) => v,
            None => return None,
        };
        let sq = match line(&self.supply_slope, &self.supply_intercept, &price) {
            Some(v) => v,
            None => return None,
        };
        let market = if less_than(&sq, &dq) {
            Market::Surplus
        } else if less_than(&dq, &sq) {
            Market::Shortage
        } else {
            Market::Equilibrium
        };
        Some((dq, sq, market))
    }
}

} // verus!

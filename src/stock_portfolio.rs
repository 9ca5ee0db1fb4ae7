//! Gains on a stock that was bought and sold.
use vstd::prelude::*;

use crate::decimal::{
    checked_div, checked_mul, checked_sub, decimal_difference, decimal_product, decimal_quotient,
    opt_valid, opt_view, Dec,
};

verus! {

/// The gain as a percentage of the purchase price.
pub open spec fn gain_percent_of(selling: (int, int), purchase: (int, int)) -> Option<(int, int)> {
    match decimal_difference(selling, purchase) {
        Some(g) => match decimal_quotient(g, purchase) {
            Some(q) => decimal_product(q, (100, 0)),
            None => None,
        },
        None => None,
    }
}

pub struct StockPortfolio {}

impl StockPortfolio {
    /// Selling price less purchase price (negative for a loss); `None` when
    /// the difference is out of range.
    pub fn get_capital_gains(selling_price: Dec, purchase_price: Dec) -> (r: Option<Dec>)
        requires
            selling_price.wf(),
            purchase_price.wf(),
        ensures
            opt_view(r) == decimal_difference(selling_price@, purchase_price@),
            opt_valid(r),
    {
        checked_sub(&selling_price, &purchase_price)
    }

    /// The capital gain as a percentage of the purchase price; `None` for a
    /// zero purchase price or a result out of range.
    pub fn get_capital_gains_percent(selling_price: Dec, purchase_price: Dec) -> (r: Option<Dec>)
        requires
            selling_price.wf(),
            purchase_price.wf(),
        ensures
            opt_view(r) == gain_percent_of(selling_price@, purchase_price@),
            purchase_price.mantissa == 0 ==> r is None,
    {
        let gain = match Self::get_capital_gains(selling_price, purchase_price) {
            Some(g) => g,
            None => return None,
        };
        match checked_div(&gain, &purchase_price) {
            Some(q) => checked_mul(&q, &Dec::from_u64(100)),
            None => None,
        }
    }
}

} // verus!

use std::str::FromStr;

use business_math::decimal::Dec;
use business_math::stock_portfolio::StockPortfolio;
use rust_decimal::Decimal;

fn d(s: &str) -> Dec {
    let v = Decimal::from_str(s).unwrap();
    Dec { mantissa: v.mantissa(), scale: v.scale() }
}

fn value(x: &Dec) -> Decimal {
    Decimal::from_i128_with_scale(x.mantissa, x.scale)
}

#[test]
fn it_gets_capital_gains_and_percent() {
    let capital_gains = StockPortfolio::get_capital_gains(d("1000"), d("500")).unwrap();
    let capital_gains_percent =
        StockPortfolio::get_capital_gains_percent(d("1000"), d("500")).unwrap();

    assert_eq!(value(&capital_gains), Decimal::from(500));
    assert_eq!(value(&capital_gains_percent), Decimal::from(100));
}

#[test]
fn it_gets_capital_losses_and_percent() {
    let capital_gains = StockPortfolio::get_capital_gains(d("500"), d("1000")).unwrap();
    let capital_gains_percent =
        StockPortfolio::get_capital_gains_percent(d("500"), d("1000")).unwrap();

    assert_eq!(value(&capital_gains), Decimal::from(-500));
    assert_eq!(value(&capital_gains_percent), Decimal::from(-50));
}

#[test]
fn capital_gains_percent_of_a_zero_purchase_price_is_absent() {
    assert!(StockPortfolio::get_capital_gains_percent(d("10"), d("0")).is_none());
}

#[test]
fn capital_gains_keep_the_cents() {
    let gain = StockPortfolio::get_capital_gains(d("12.75"), d("10.50")).unwrap();
    assert_eq!(value(&gain), Decimal::from_str("2.25").unwrap());
    let pct = StockPortfolio::get_capital_gains_percent(d("12.75"), d("10.50")).unwrap();
    // 2.25 / 10.50 = 0.2142857142857142857142857143, times 100
    assert_eq!(value(&pct), Decimal::from_str("21.42857142857142857142857143").unwrap());
}

use std::str::FromStr;

use business_math::decimal::Dec;
use business_math::stock_market::{StockData, StockInformation};
use rust_decimal::Decimal;

fn d(s: &str) -> Dec {
    let v = Decimal::from_str(s).unwrap();
    Dec { mantissa: v.mantissa(), scale: v.scale() }
}

fn value(x: &Dec) -> Decimal {
    Decimal::from_i128_with_scale(x.mantissa, x.scale)
}

fn days(closes: &[&str]) -> StockInformation {
    let series = closes
        .iter()
        .enumerate()
        .map(|(i, c)| StockData::new(86_400 * i as i64, d(c), d(c), d(c), d(c)))
        .collect();
    StockInformation::new("Acme".to_string(), "ACM".to_string(), series)
}

#[test]
fn change_series_rounds_to_cents() {
    let info = days(&["100", "103.5", "101"]);
    let changes = info.get_change_of_stock_data_series().unwrap();
    assert_eq!(changes.len(), 3);
    assert_eq!(value(&changes[0].net_change.unwrap()), Decimal::ZERO);
    assert_eq!(value(&changes[0].net_change_percent.unwrap()), Decimal::ZERO);
    assert_eq!(value(&changes[1].net_change.unwrap()), Decimal::from_str("3.50").unwrap());
    assert_eq!(value(&changes[1].net_change_percent.unwrap()), Decimal::from_str("3.50").unwrap());
    assert_eq!(value(&changes[2].net_change.unwrap()), Decimal::from_str("-2.50").unwrap());
    // -2.5 / 103.5 * 100 = -2.4154..., rounded to -2.42
    assert_eq!(value(&changes[2].net_change_percent.unwrap()), Decimal::from_str("-2.42").unwrap());
    assert_eq!(changes[2].net_change_percent.unwrap().scale, 2);
}

#[test]
fn change_against_a_zero_close_has_no_percentage() {
    let info = days(&["0", "5"]);
    let changes = info.get_change_of_stock_data_series().unwrap();
    assert_eq!(value(&changes[1].net_change.unwrap()), Decimal::from(5));
    assert!(changes[1].net_change_percent.is_none());
}

#[test]
fn change_of_a_given_date_is_that_of_the_series() {
    let info = days(&["100", "103.5", "101"]);
    let found = info.get_change_of_stock_data_with_given_date(86_400 * 2).unwrap();
    assert_eq!(value(&found.close), Decimal::from(101));
    assert_eq!(value(&found.net_change.unwrap()), Decimal::from_str("-2.5").unwrap());
    assert!(info.get_change_of_stock_data_with_given_date(1).is_none());
}

#[test]
fn moving_average_rounds_half_to_even() {
    // 1.00 + 1.01 = 2.01, and 2.01 / 2 = 1.005 rounds to the even 1.00
    let info = days(&["1.00", "1.01"]);
    let averages = info.get_moving_averages(2).unwrap();
    assert_eq!(averages.len(), 1);
    assert_eq!(value(&averages[0]), Decimal::from_str("1.00").unwrap());
}

#[test]
fn moving_average_of_window_equal_to_length_has_one_value() {
    let info = days(&["3", "4", "8"]);
    let averages = info.get_moving_averages(3).unwrap();
    assert_eq!(averages.len(), 1);
    assert_eq!(value(&averages[0]), Decimal::from(5));
}

#[test]
fn moving_average_of_zero_window_or_empty_series_is_absent() {
    assert!(days(&["3", "4"]).get_moving_averages(0).is_none());
    assert!(days(&[]).get_moving_averages(1).is_none());
    assert!(days(&["3", "4"]).get_moving_averages(3).is_none());
}

#[test]
fn moving_average_window_of_one_is_the_closes() {
    let info = days(&["3.456", "4", "8.1"]);
    let averages = info.get_moving_averages(1).unwrap();
    let got: Vec<Decimal> = averages.iter().map(value).collect();
    assert_eq!(
        got,
        vec![
            Decimal::from_str("3.46").unwrap(),
            Decimal::from_str("4").unwrap(),
            Decimal::from_str("8.1").unwrap()
        ]
    );
}

#[test]
fn chart_refuses_more_than_three_windows() {
    let info = days(&["1", "2", "3", "4"]);
    assert_eq!(
        info.chart_moving_averages(&vec![1, 2, 3, 4]).err(),
        Some(business_math::error::MathError::TooManyWindows)
    );
    let lines = info.chart_moving_averages(&vec![0, 9]).unwrap();
    assert_eq!(lines.len(), 1);
    assert_eq!(lines[0].0, 9);
    assert_eq!(lines[0].1.len(), 0);
}

#[test]
fn computations_repeat_exactly() {
    let info = days(&["35.02", "35.01", "34.65", "36.09", "35.32", "35.50", "35.03"]);
    assert_eq!(info.get_moving_averages(3), info.get_moving_averages(3));
    let a = StockInformation::get_post_split_data(d("3"), d("2"), d("1001"), d("99.99"));
    let b = StockInformation::get_post_split_data(d("3"), d("2"), d("1001"), d("99.99"));
    assert_eq!(a, b);
}

#[test]
fn post_split_of_a_three_for_two_split() {
    let (shares, price, cash) =
        StockInformation::get_post_split_data(d("3"), d("2"), d("1001"), d("99.99")).unwrap();
    // 1001 * 3 / 2 = 1501.5 shares, 99.99 * 2 / 3 = 66.66 a share, half a share in cash
    assert_eq!(value(&shares), Decimal::from(1501));
    assert_eq!(value(&price), Decimal::from_str("66.66").unwrap());
    assert_eq!(value(&cash), Decimal::from_str("33.33").unwrap());
}

#[test]
fn post_split_with_a_zero_ratio_is_absent() {
    assert!(StockInformation::get_post_split_data(d("0"), d("2"), d("10"), d("5")).is_none());
}

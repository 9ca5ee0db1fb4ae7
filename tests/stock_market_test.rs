use std::str::FromStr;

use business_math::decimal::Dec;
use business_math::error::MathError;
use business_math::stock_market::{StockData, StockInformation};
use chrono::{NaiveDateTime, TimeZone, Utc};
use rand::Rng;
use rust_decimal::prelude::FromPrimitive;
use rust_decimal::Decimal;

fn to_dec(v: Decimal) -> Dec {
    Dec { mantissa: v.mantissa(), scale: v.scale() }
}

fn value(x: &Dec) -> Decimal {
    Decimal::from_i128_with_scale(x.mantissa, x.scale)
}

fn generate_utc_date_from_date_string(date_string: &str) -> i64 {
    let day_one = NaiveDateTime::parse_from_str(date_string, "%m-%d-%Y %H:%M").unwrap();
    Utc.from_utc_datetime(&day_one).timestamp()
}

fn price(v: f64) -> Dec {
    to_dec(Decimal::from_f64(v).unwrap().round_dp(2))
}

fn generate_stock_data(date_string: &str) -> StockData {
    let base_stock_data_series = vec![
        (130.0600, 131.3700, 128.8300, 129.1500),
        (125.7900, 125.8500, 124.5200, 125.0100),
        (124.1000, 125.5800, 123.8300, 125.4400),
        (122.6200, 124.0000, 122.5700, 123.7600),
        (122.1900, 123.5200, 121.3018, 123.3700),
        (121.2400, 121.8500, 120.5400, 121.7700),
        (121.6400, 121.6500, 120.1000, 120.7700),
        (120.9400, 121.5800, 120.5700, 121.0500),
        (120.6400, 120.9800, 120.3700, 120.9500),
        (120.5400, 120.8500, 119.9200, 120.3300),
        (119.7600, 120.3500, 119.5400, 120.1900),
        (118.6300, 119.5400, 118.5800, 119.2800),
        (119.8100, 120.0200, 118.6400, 119.9300),
        (119.3900, 120.2300, 119.3700, 119.8900),
        (120.1000, 120.2300, 118.3800, 119.3600),
        (119.8600, 120.4300, 119.1500, 119.9700),
        (119.0600, 119.4800, 118.5200, 119.1900),
        (118.9500, 119.1085, 118.1000, 119.0200),
        (118.0700, 118.3200, 116.9600, 117.9400),
        (117.4400, 117.5800, 116.1300, 116.9300),
        (117.8750, 118.2100, 115.5215, 116.7700),
        (118.6200, 118.7050, 116.8500, 117.9100),
        (116.5600, 118.0100, 116.3224, 117.6600),
        (119.5000, 119.5900, 117.0400, 117.0500),
        (117.1350, 120.8200, 117.0900, 120.2200),
        (117.3900, 118.7500, 116.7100, 117.5200),
        (118.0900, 118.4400, 116.9900, 117.6500),
        (116.1700, 117.6100, 116.0500, 117.5700),
        (115.3400, 117.2500, 114.5900, 115.9100),
        (114.5400, 115.2000, 114.3300, 114.5900),
    ];

    let n = base_stock_data_series.len();
    let mut rng = rand::thread_rng();

    let high = price(base_stock_data_series[rng.gen_range(0..n)].1);
    let low = price(base_stock_data_series[rng.gen_range(0..n)].2);
    let open = price(base_stock_data_series[rng.gen_range(0..n)].0);
    let close = price(base_stock_data_series[rng.gen_range(0..n)].3);

    StockData::new(generate_utc_date_from_date_string(date_string), high, low, open, close)
}

fn generate_stock_data_series(limit: Option<u8>) -> Vec<StockData> {
    let mut stock_data_series: Vec<StockData> = vec![];
    for number in 0..limit.unwrap_or(7) {
        let number_plus = number + 1;
        let stock_date = if number_plus >= 10 {
            format!("10-{number_plus}-2022 00:00")
        } else {
            format!("10-0{number_plus}-2022 00:00")
        };
        stock_data_series.push(generate_stock_data(&stock_date));
    }
    stock_data_series
}

fn closing_series(closes: &[f64]) -> Vec<StockData> {
    closes
        .iter()
        .map(|c| {
            StockData::new(
                generate_utc_date_from_date_string("10-10-2022 00:00"),
                price(10.00),
                price(10.00),
                price(10.00),
                price(*c),
            )
        })
        .collect()
}

fn info(series: Vec<StockData>) -> StockInformation {
    StockInformation::new("BenCorpo".to_string(), "BNCRP".to_string(), series)
}

#[test]
fn it_creates_a_new_stock_information_with_data_series() {
    let stock_information = info(generate_stock_data_series(Some(7)));
    let stock_data_series_with_change = stock_information.get_change_of_stock_data_series();

    match stock_data_series_with_change {
        Some(stock_data_series_with_change) => assert_eq!(stock_data_series_with_change.len(), 7),
        None => panic!("No stock data series found."),
    }
}

#[test]
fn it_creates_a_new_stock_information_without_data_series() {
    let stock_information = info(vec![]);
    let stock_data_series_with_change = stock_information.get_change_of_stock_data_series();

    assert!(stock_data_series_with_change.is_none());
}

#[test]
fn it_creates_a_new_stock_information_with_data_series_and_finds_specific_stock_data() {
    let stock_information = info(generate_stock_data_series(Some(7)));
    let stock_date = generate_utc_date_from_date_string("10-06-2022 00:00");
    let stock_data = stock_information.get_change_of_stock_data_with_given_date(stock_date);

    match stock_data {
        Some(found) => {
            assert_eq!(found.date, stock_date);
            assert!(found.net_change.is_some());
            assert!(found.net_change_percent.is_some());
        }
        None => panic!("No stock data found."),
    }
}

#[test]
fn it_creates_a_new_stock_information_with_data_series_and_does_not_find_a_specific_stock_data() {
    let stock_information = info(generate_stock_data_series(Some(7)));
    let stock_date = generate_utc_date_from_date_string("10-25-2022 00:00");
    let stock_data = stock_information.get_change_of_stock_data_with_given_date(stock_date);

    assert!(stock_data.is_none(), "Stock data found.");
}

#[test]
fn it_creates_a_new_stock_information_with_data_series_and_gets_moving_averages() {
    let stock_information =
        info(closing_series(&[121.00, 122.00, 120.00, 119.00, 124.00, 128.00, 126.00]));

    let moving_averages = stock_information.get_moving_averages(4);

    match moving_averages {
        Some(moving_averages) => {
            assert_eq!(moving_averages.len(), 4);
            assert_eq!(value(&moving_averages[0]), Decimal::from_f64(120.50).unwrap().round_dp(2));
            assert_eq!(value(&moving_averages[1]), Decimal::from_f64(121.25).unwrap().round_dp(2));
            assert_eq!(value(&moving_averages[2]), Decimal::from_f64(122.75).unwrap().round_dp(2));
            assert_eq!(value(&moving_averages[3]), Decimal::from_f64(124.25).unwrap().round_dp(2));
        }
        None => panic!("No moving averages found!"),
    }
}

#[test]
fn it_creates_a_new_stock_information_with_data_series_and_gets_moving_averages_two() {
    let stock_information = info(closing_series(&[
        35.02, 35.01, 34.65, 36.09, 35.32, 35.50, 35.03, 35.79, 37.07, 36.05,
    ]));

    let moving_averages = stock_information.get_moving_averages(5);
    match moving_averages {
        Some(moving_averages) => {
            assert_eq!(moving_averages.len(), 6);
            assert_eq!(value(&moving_averages[0]), Decimal::from_f64(35.22).unwrap().round_dp(2));
            assert_eq!(value(&moving_averages[1]), Decimal::from_f64(35.32).unwrap().round_dp(2));
            assert_eq!(value(&moving_averages[2]), Decimal::from_f64(35.32).unwrap().round_dp(2));
            assert_eq!(value(&moving_averages[3]), Decimal::from_f64(35.55).unwrap().round_dp(2));
            assert_eq!(value(&moving_averages[4]), Decimal::from_f64(35.75).unwrap().round_dp(2));
            assert_eq!(value(&moving_averages[5]), Decimal::from_f64(35.90).unwrap().round_dp(2));
        }
        None => panic!("No moving averages found!"),
    }
}

#[test]
fn it_creates_a_new_stock_information_with_data_series_and_gets_no_moving_averages() {
    let stock_information = info(generate_stock_data_series(Some(4)));

    let moving_averages = stock_information.get_moving_averages(5);

    assert!(moving_averages.is_none(), "Moving averages found!");
}

#[test]
fn it_creates_a_new_stock_information_with_data_series_and_show_chart_with_moving_average() {
    let stock_information = info(generate_stock_data_series(Some(14)));

    let ma_days = vec![7, 2, 0];
    let chart = stock_information.chart_moving_averages(&ma_days);

    match chart {
        Ok(lines) => {
            assert_eq!(lines.len(), 2);
            assert_eq!(lines[0].0, 7);
            assert_eq!(lines[0].1.len(), 8);
            assert_eq!(lines[1].0, 2);
            assert_eq!(lines[1].1.len(), 13);
            assert_eq!(lines[1].1[0].0, stock_information.stock_data_series[1].date);
        }
        Err(err) => panic!("Error in saving chart {:?}", err),
    }
}

#[test]
fn it_creates_a_new_stock_information_with_data_series_and_does_not_show_chart() {
    let stock_information = info(generate_stock_data_series(Some(0)));

    let ma_days: Vec<u16> = vec![10];
    let chart = stock_information.chart_moving_averages(&ma_days);

    assert_eq!(chart.err(), Some(MathError::InsufficientData));
}

#[test]
fn it_gets_post_split_data() {
    let d = |s: &str| to_dec(Decimal::from_str(s).unwrap());
    let post_split_data =
        StockInformation::get_post_split_data(d("5"), d("4"), d("942"), d("56")).unwrap();

    assert_eq!(value(&post_split_data.0), Decimal::from_str("1177").unwrap());
    assert_eq!(value(&post_split_data.1), Decimal::from_str("44.80").unwrap());
    assert_eq!(value(&post_split_data.2), Decimal::from_str("22.40").unwrap());

    let post_split_data =
        StockInformation::get_post_split_data(d("1"), d("20"), d("580000000"), d("0.64")).unwrap();

    assert_eq!(value(&post_split_data.0), Decimal::from_str("29000000").unwrap());
    assert_eq!(value(&post_split_data.1), Decimal::from_str("12.80").unwrap());
    assert_eq!(value(&post_split_data.2), Decimal::from_str("0").unwrap());
}

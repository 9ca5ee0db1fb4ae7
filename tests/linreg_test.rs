use std::str::FromStr;

use business_math::decimal::Dec;
use business_math::error::MathError;
use business_math::linreg::Linreg;
use rust_decimal::Decimal;

fn d(s: &str) -> Dec {
    let v = Decimal::from_str(s).unwrap();
    Dec { mantissa: v.mantissa(), scale: v.scale() }
}

fn value(x: &Dec) -> Decimal {
    Decimal::from_i128_with_scale(x.mantissa, x.scale)
}

fn series(values: &[&str]) -> Vec<Dec> {
    values.iter().map(|s| d(s)).collect()
}

#[test]
fn it_successfully_computes_linear_regression() {
    let domain = series(&["2.0", "4.0", "6.0", "8.0", "10.0"]);
    let range = series(&["9.0", "14.0", "7.0", "18.0", "27.0"]);

    let result = Linreg::linear_regress(&domain, &range);
    match result {
        Ok((mx, b)) => {
            assert_eq!(value(&mx), d_value("2.0"));
            assert_eq!(value(&b), d_value("3.0"));
        }
        Err(err) => panic!("Error in linear regress {:?}", err),
    }
}

fn d_value(s: &str) -> Decimal {
    Decimal::from_str(s).unwrap()
}

#[test]
fn linreg_test_it_returns_error_because_domain_range_not_same_len() {
    let domain = series(&["2.0", "4.0", "6.0", "8.0"]);
    let range = series(&["9.0", "14.0", "7.0", "18.0", "27.0"]);

    let result = Linreg::linear_regress(&domain, &range);
    match result {
        Ok(_) => panic!("Success"),
        Err(err) => {
            assert_eq!(err, MathError::LengthMismatch);
            assert_eq!(
                err.message(),
                "Range length is not equal to domain length or vice versa"
            );
        }
    }
}

#[test]
fn linreg_test_it_returns_error_because_domain_range_is_empty() {
    let domain: Vec<Dec> = vec![];
    let range = series(&["9.0", "14.0", "7.0", "18.0", "27.0"]);

    let result = Linreg::linear_regress(&domain, &range);
    match result {
        Ok(_) => panic!("Success"),
        Err(err) => assert_eq!(err.message(), "Insufficient series lengths"),
    }

    let domain = series(&["9.0", "14.0", "7.0", "18.0", "27.0"]);
    let range: Vec<Dec> = vec![];

    let result = Linreg::linear_regress(&domain, &range);
    match result {
        Ok(_) => panic!("Success"),
        Err(err) => assert_eq!(err.message(), "Insufficient series lengths"),
    }
}

#[test]
fn regression_of_constant_domain_is_degenerate() {
    let domain = series(&["3", "3", "3.00"]);
    let range = series(&["1", "2", "3"]);
    assert_eq!(
        Linreg::linear_regress(&domain, &range),
        Err(MathError::DegenerateInput)
    );
}

#[test]
fn regression_of_two_points_at_mixed_scales() {
    // y = 0.5 x + 1.25 through (1, 1.75) and (3.0, 2.75)
    let domain = series(&["1", "3.0"]);
    let range = series(&["1.75", "2.75"]);
    let (m, b) = Linreg::linear_regress(&domain, &range).unwrap();
    assert_eq!(value(&m), d_value("0.5"));
    assert_eq!(value(&b), d_value("1.25"));
}

#[test]
fn regression_with_a_repeating_slope_rounds_in_the_division() {
    // slope 1/3: the decimal division keeps 28 digits
    let domain = series(&["0", "3"]);
    let range = series(&["0", "1"]);
    let (m, b) = Linreg::linear_regress(&domain, &range).unwrap();
    assert_eq!(value(&m), d_value("0.3333333333333333333333333333"));
    assert_eq!(value(&b), Decimal::ZERO);
}

#[test]
fn regression_minimises_squared_residuals() {
    let xs = ["2.0", "4.0", "6.0", "8.0", "10.0"];
    let ys = ["9.0", "14.0", "7.0", "18.0", "27.0"];
    let (m, b) = Linreg::linear_regress(&series(&xs), &series(&ys)).unwrap();
    let m: f64 = value(&m).to_string().parse().unwrap();
    let b: f64 = value(&b).to_string().parse().unwrap();
    let pts: Vec<(f64, f64)> = xs
        .iter()
        .zip(ys.iter())
        .map(|(x, y)| (x.parse().unwrap(), y.parse().unwrap()))
        .collect();
    let sse = |m: f64, b: f64| -> f64 { pts.iter().map(|(x, y)| (y - (m * x + b)).powi(2)).sum() };
    let best = sse(m, b);
    let residual_sum: f64 = pts.iter().map(|(x, y)| y - (m * x + b)).sum();
    assert!(residual_sum.abs() < 1e-9);
    for (dm, db) in [(0.1, 0.0), (-0.1, 0.0), (0.0, 0.5), (0.0, -0.5), (0.05, -0.3)] {
        assert!(sse(m + dm, b + db) > best);
    }
}

#[test]
fn regression_is_the_same_when_repeated() {
    let domain = series(&["15.25", "15.50", "15.75", "16.00"]);
    let range = series(&["3456", "3005", "2546", "2188"]);
    let first = Linreg::linear_regress(&domain, &range).unwrap();
    let second = Linreg::linear_regress(&domain, &range).unwrap();
    assert_eq!(first, second);
}

#[test]
fn regression_of_wide_values_at_mixed_scales() {
    // y = 3x - 0.0005 on large x with four decimals in the range
    let domain = series(&["2000.5", "2001.5", "123456789.25"]);
    let range = series(&["6001.4995", "6004.4995", "370370367.7495"]);
    let (m, b) = Linreg::linear_regress(&domain, &range).unwrap();
    assert_eq!(value(&m), d_value("3"));
    assert_eq!(value(&b), d_value("-0.0005"));
}

#[test]
fn regression_of_values_equal_at_different_scales_is_degenerate() {
    let domain = series(&["1.5", "1.50", "1.500"]);
    let range = series(&["1", "2", "4"]);
    assert_eq!(Linreg::linear_regress(&domain, &range), Err(MathError::DegenerateInput));
}

use std::str::FromStr;

use business_math::business_organization::{Corporation, Owner};
use business_math::decimal::Dec;
use rust_decimal::Decimal;

fn d(s: &str) -> Dec {
    let v = Decimal::from_str(s).unwrap();
    Dec { mantissa: v.mantissa(), scale: v.scale() }
}

fn value(x: &Dec) -> Decimal {
    Decimal::from_i128_with_scale(x.mantissa, x.scale)
}

fn three_owners() -> Vec<Owner> {
    let mark = Owner::new("Mark".to_string(), d("250.0"));
    let benedict = Owner::new("Benedict".to_string(), d("200.0"));
    let ben = Owner::new("Ben".to_string(), d("150.25"));
    vec![mark, benedict, ben]
}

#[test]
fn it_creates_a_new_organization_with_owners() {
    let owners = three_owners();
    let organization =
        Corporation::new(owners, Some("KamoteCorp".to_string()), Some(100_000)).unwrap();

    assert_eq!(organization.owners.len(), 3);
    assert_eq!(organization.name, "KamoteCorp");
}

#[test]
fn it_creates_a_new_organization_and_computes_total_investment() {
    let organization = Corporation::new(three_owners(), None, Some(100_000)).unwrap();

    assert_eq!(value(&organization.total_investment), Decimal::from_str("600.25").unwrap());
    assert_eq!(organization.name, "");
}

#[test]
fn it_creates_a_new_organization_and_gets_ownership_percentage_of_owner() {
    let organization = Corporation::new(three_owners(), None, Some(100_000)).unwrap();

    let ownership_percentage = organization.get_owner_ownership_percentage_by_investment("Mark");

    assert_eq!(ownership_percentage, 42);
}

#[test]
fn it_creates_a_new_organization_and_tries_to_get_ownership_percentage_of_unregistered_owner() {
    let organization = Corporation::new(three_owners(), None, Some(100_000)).unwrap();

    let ownership_percentage = organization.get_owner_ownership_percentage_by_investment("MEMA");

    assert_eq!(ownership_percentage, 0);
}

#[test]
fn it_creates_a_new_organization_and_gets_owner_shares_by_ownership_percentage() {
    let organization = Corporation::new(three_owners(), None, Some(100_000)).unwrap();

    let owner_shares = organization.get_owner_shares_by_ownership_percentage("Mark");

    assert_eq!(owner_shares, 42000);
}

#[test]
fn it_creates_a_new_organization_and_gets_owner_ownership_percentages() {
    let organization = Corporation::new(three_owners(), None, Some(100_000)).unwrap();

    let owner_ownership_percentages = organization.get_owners_ownership_percentages();

    assert_eq!(owner_ownership_percentages.len(), 3);
    assert_eq!(owner_ownership_percentages[0].name, "Mark");
    assert_eq!(owner_ownership_percentages[0].percentage, 42);
    assert_eq!(owner_ownership_percentages[1].name, "Benedict");
    assert_eq!(owner_ownership_percentages[1].percentage, 33);
    assert_eq!(owner_ownership_percentages[2].name, "Ben");
    assert_eq!(owner_ownership_percentages[2].percentage, 25);
}

#[test]
fn it_creates_a_new_organization_and_detects_major_and_not_major_shareholder() {
    let mut owners = three_owners();
    owners.push(Owner::new("Hello".to_string(), d("500.25")));

    let organization = Corporation::new(owners, None, Some(100_000)).unwrap();

    assert_eq!(organization.is_owner_majority_shareholder("Mark"), false);
    assert_eq!(organization.is_owner_majority_shareholder("Ben"), false);
    assert_eq!(organization.is_owner_majority_shareholder("Benedict"), false);
    assert_eq!(organization.is_owner_majority_shareholder("Wala"), false);
    // Hello is the largest holder with 45% of 1100.50, short of a majority.
    assert_eq!(organization.get_owner_ownership_percentage_by_investment("Hello"), 45);
    assert_eq!(organization.is_owner_majority_shareholder("Hello"), false);
}

#[test]
fn an_owner_with_half_the_investment_is_a_majority_shareholder() {
    let owners = vec![
        Owner::new("Ana".to_string(), d("50")),
        Owner::new("Bo".to_string(), d("30.5")),
        Owner::new("Cy".to_string(), d("19.5")),
    ];
    let organization = Corporation::new(owners, None, None).unwrap();
    assert_eq!(organization.total_shares, 0);
    assert_eq!(organization.get_owner_ownership_percentage_by_investment("Ana"), 50);
    assert!(organization.is_owner_majority_shareholder("Ana"));
    assert!(!organization.is_owner_majority_shareholder("Bo"));
    // 30.5% and 19.5% round half away from zero
    assert_eq!(organization.get_owner_ownership_percentage_by_investment("Bo"), 31);
    assert_eq!(organization.get_owner_ownership_percentage_by_investment("Cy"), 20);
    assert_eq!(organization.get_owner_shares_by_ownership_percentage("Ana"), 0);
}

#[test]
fn shares_use_the_rounded_percentage() {
    let owners = vec![
        Owner::new("Ana".to_string(), d("1")),
        Owner::new("Bo".to_string(), d("2")),
    ];
    let organization = Corporation::new(owners, None, Some(999)).unwrap();
    // 33.33..% rounds to 33, and 33 * 999 / 100 = 329.67 rounds down
    assert_eq!(organization.get_owner_ownership_percentage_by_investment("Ana"), 33);
    assert_eq!(organization.get_owner_shares_by_ownership_percentage("Ana"), 329);
    assert_eq!(organization.get_owner_shares_by_ownership_percentage("Bo"), 669);
}

#[test]
fn shares_of_the_largest_share_count_do_not_overflow() {
    let owners = vec![Owner::new("Solo".to_string(), d("7"))];
    let organization = Corporation::new(owners, None, Some(u64::MAX)).unwrap();
    assert_eq!(organization.get_owner_ownership_percentage_by_investment("Solo"), 100);
    assert_eq!(organization.get_owner_shares_by_ownership_percentage("Solo"), u64::MAX);
}

#[test]
fn a_total_beyond_the_decimal_range_is_refused() {
    let big = Dec { mantissa: 79228162514264337593543950335, scale: 0 };
    let owners = vec![
        Owner::new("A".to_string(), big),
        Owner::new("B".to_string(), d("1")),
    ];
    assert!(Corporation::new(owners, None, None).is_err());
}

#[test]
fn the_first_owner_of_a_repeated_name_counts() {
    let owners = vec![
        Owner::new("Ana".to_string(), d("10")),
        Owner::new("Ana".to_string(), d("30")),
    ];
    let organization = Corporation::new(owners, None, Some(100)).unwrap();
    assert_eq!(organization.get_owner_ownership_percentage_by_investment("Ana"), 25);
}

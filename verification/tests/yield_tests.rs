use bingo::yield_calc::{YieldCalculator, SCALE};

#[test]
fn test_index_at_issue() {
    let issue_time = 0u64;
    let maturity_time = issue_time + 90 * 24 * 3600;
    let subscription_price = 980_000i128;

    let index = YieldCalculator::calculate_index(
        1_000_000,
        subscription_price,
        issue_time,
        maturity_time,
        issue_time,
    );

    assert_eq!(index, subscription_price);
}

#[test]
fn test_index_at_maturity() {
    let issue_time = 1000u64;
    let maturity_time = issue_time + 90 * 24 * 3600;

    let index = YieldCalculator::calculate_index(
        1_000_000,
        980_000,
        issue_time,
        maturity_time,
        maturity_time,
    );

    assert_eq!(index, SCALE);
}

#[test]
fn test_index_halfway() {
    let issue_time = 1000u64;
    let duration = 90 * 24 * 3600u64;
    let maturity_time = issue_time + duration;
    let halfway = issue_time + duration / 2;
    let par_value = 1_000_000i128;
    let subscription_price = 980_000i128;

    let index = YieldCalculator::calculate_index(
        par_value,
        subscription_price,
        issue_time,
        maturity_time,
        halfway,
    );

    let expected = subscription_price + (par_value - subscription_price) / 2;
    assert_eq!(index, expected);
}

#[test]
fn test_calculate_shares() {
    let usdc_amount = 980_000i128;
    let current_index = 980_000i128;

    let shares = YieldCalculator::calculate_shares(usdc_amount, current_index);

    assert_eq!(shares, SCALE);
}

#[test]
fn test_calculate_position_value() {
    let shares = SCALE;
    let current_index = 990_000i128;

    let value = YieldCalculator::calculate_position_value(shares, current_index);

    assert_eq!(value, 990_000);
}

#[test]
fn test_calculate_redemption_value() {
    let shares = 3 * SCALE;
    let par_value = 1_000_000i128;

    let value = YieldCalculator::calculate_redemption_value(shares, par_value);

    assert_eq!(value, 3_000_000);
}

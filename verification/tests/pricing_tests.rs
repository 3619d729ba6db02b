use bingo::pricing::{calculate_current_price, calculate_minted_par, PAR_UNIT};
use bingo::vault::{Series, SeriesStatus};

const SCALE: i128 = 10_000_000;

fn test_series(issue_price: i128) -> Series {
    Series {
        series_id: 1,
        issue_date: 1000,
        maturity_date: 2000,
        par_unit: PAR_UNIT,
        issue_price,
        cap_par: 1_000_000 * SCALE,
        minted_par: 0,
        user_cap_par: 100_000 * SCALE,
        status: SeriesStatus::Active,
        total_subscriptions_collected: 0,
    }
}

#[test]
fn test_price_at_issue() {
    let series = test_series(95 * SCALE / 100);
    let price = calculate_current_price(&series, 1000);
    assert_eq!(price, 95 * SCALE / 100);
}

#[test]
fn test_price_at_maturity() {
    let series = test_series(95 * SCALE / 100);
    let price = calculate_current_price(&series, 2000);
    assert_eq!(price, PAR_UNIT);
}

#[test]
fn test_price_halfway() {
    let series = test_series(95 * SCALE / 100);
    let price = calculate_current_price(&series, 1500);
    assert_eq!(price, 975 * SCALE / 1000);
}

#[test]
fn test_calculate_minted_par() {
    let pay_amount = 95 * SCALE;
    let current_price = 95 * SCALE / 100;
    let minted = calculate_minted_par(pay_amount, current_price).unwrap();
    assert_eq!(minted, 100 * SCALE);
}

#[test]
fn test_minted_par_unit_payment() {
    // A payment equal to the price buys exactly one par unit.
    let minted = calculate_minted_par(9_500_000, 9_500_000).unwrap();
    assert_eq!(minted, 10_000_000);
}

#[test]
fn test_minted_par_rejects_nonpositive_price() {
    assert_eq!(calculate_minted_par(100, 0), None);
    assert_eq!(calculate_minted_par(100, -1), None);
}

#[test]
fn test_minted_par_rejects_overflow() {
    assert_eq!(calculate_minted_par(i128::MAX, 9_500_000), None);
}

#[test]
fn test_price_before_issue_is_issue_price() {
    let series = test_series(9_800_000);
    assert_eq!(calculate_current_price(&series, 0), 9_800_000);
    assert_eq!(calculate_current_price(&series, 999), 9_800_000);
}

#[test]
fn test_price_after_maturity_is_par() {
    let series = test_series(9_800_000);
    assert_eq!(calculate_current_price(&series, 2001), PAR_UNIT);
    assert_eq!(calculate_current_price(&series, u64::MAX), PAR_UNIT);
}

#[test]
fn test_price_accretes_midway() {
    // Linear accretion from 0.98 to 1.00 over [1000, 2000].
    let series = test_series(9_800_000);
    assert_eq!(calculate_current_price(&series, 1500), 9_900_000);
    assert_eq!(calculate_current_price(&series, 1250), 9_850_000);
    assert_eq!(calculate_current_price(&series, 1750), 9_950_000);
}

#[test]
fn test_price_monotone_and_bounded() {
    let series = test_series(9_800_000);
    let mut last = calculate_current_price(&series, 0);
    let times: [u64; 9] = [0, 500, 1000, 1001, 1499, 1500, 1999, 2000, 3000];
    for t in times {
        let p = calculate_current_price(&series, t);
        assert!(p >= last);
        assert!(p >= series.issue_price);
        assert!(p <= PAR_UNIT);
        last = p;
    }
}

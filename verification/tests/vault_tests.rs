use bingo::bill_token::BTBillToken;
use bingo::pricing::PAR_UNIT;
use bingo::vault::{BingoVault, Error, SeriesStatus};

const SCALE: i128 = 10_000_000;

const ADMIN: u64 = 1;
const USER1: u64 = 10;
const USER2: u64 = 11;

#[test]
fn test_full_series_lifecycle() {
    let mut vault = BingoVault::new();

    let series_id = 1u32;
    let issue_date = 1000u64;
    let maturity_date = 2000u64;
    let issue_price = 9_800_000i128;
    let cap_par = 1_000_000i128 * SCALE;
    let user_cap_par = 100_000i128 * SCALE;

    vault
        .create_series(series_id, issue_date, maturity_date, issue_price, cap_par, user_cap_par)
        .unwrap();
    vault.activate_series(series_id).unwrap();

    let series = vault.get_series(series_id).unwrap();
    assert_eq!(series.series_id, series_id);
    assert_eq!(series.status, SeriesStatus::Active);
}

#[test]
fn test_subscribe_respects_series_cap() {
    let mut vault = BingoVault::new();
    let mut token = BTBillToken::new(ADMIN);

    let series_id = 1u32;
    let cap_par = 1000i128 * SCALE;
    let user_cap_par = 1000i128 * SCALE;
    let now = 1000u64;

    vault.create_series(series_id, 1000, 2000, 9_800_000, cap_par, user_cap_par).unwrap();
    vault.activate_series(series_id).unwrap();

    // Too much at once: minting would exceed the cap.
    let pay_amount = 1000i128 * SCALE;
    let result = vault.subscribe(&mut token, USER1, series_id, pay_amount, now);
    assert!(result.is_err());

    // Exactly the cap.
    let exact_pay = (cap_par * 9_800_000) / PAR_UNIT;
    vault.subscribe(&mut token, USER1, series_id, exact_pay, now).unwrap();
    assert_eq!(vault.get_series(series_id).unwrap().minted_par, cap_par);

    // Any further positive amount fails on capacity.
    let result2 = vault.subscribe(&mut token, USER1, series_id, 100i128 * SCALE, now);
    assert_eq!(result2, Err(Error::ExceedsSeriesCap));
}

#[test]
fn test_subscribe_respects_user_cap() {
    let mut vault = BingoVault::new();
    let mut token = BTBillToken::new(ADMIN);

    let series_id = 1u32;
    let cap_par = 100_000i128 * SCALE;
    let user_cap_par = 1_000i128 * SCALE;
    let now = 1000u64;

    vault.create_series(series_id, 1000, 2000, 9_800_000, cap_par, user_cap_par).unwrap();
    vault.activate_series(series_id).unwrap();

    let pay_for_cap = (user_cap_par * 9_800_000) / PAR_UNIT;
    vault.subscribe(&mut token, USER1, series_id, pay_for_cap, now).unwrap();

    let result = vault.subscribe(&mut token, USER1, series_id, 100i128 * SCALE, now);
    assert_eq!(result, Err(Error::ExceedsUserCap));
}

#[test]
fn test_price_accretion() {
    let mut vault = BingoVault::new();

    let series_id = 1u32;
    let issue_price = 9_800_000i128;
    vault
        .create_series(series_id, 1000, 2000, issue_price, 1_000_000i128 * SCALE, 100_000i128
            * SCALE)
        .unwrap();

    let price_at_issue = vault.current_price(series_id, 1000).unwrap();
    assert_eq!(price_at_issue, issue_price);

    let price_at_mid = vault.current_price(series_id, 1500).unwrap();
    let expected_mid = issue_price + (PAR_UNIT - issue_price) / 2;
    assert_eq!(price_at_mid, expected_mid);

    let price_at_maturity = vault.current_price(series_id, 2000).unwrap();
    assert_eq!(price_at_maturity, PAR_UNIT);
}

#[test]
fn test_redeem_only_after_maturity() {
    let mut vault = BingoVault::new();
    let mut token = BTBillToken::new(ADMIN);

    let series_id = 1u32;
    vault
        .create_series(series_id, 1000, 2000, 9_800_000, 100_000i128 * SCALE, 10_000i128 * SCALE)
        .unwrap();
    vault.activate_series(series_id).unwrap();

    vault.subscribe(&mut token, USER1, series_id, 1000i128 * SCALE, 1000).unwrap();

    let result = vault.redeem(&mut token, USER1, series_id, 100i128 * SCALE, 1000);
    assert!(result.is_err());

    vault.redeem(&mut token, USER1, series_id, 100i128 * SCALE, 2000).unwrap();
}

#[test]
fn test_create_series_rejects_bad_params() {
    let mut vault = BingoVault::new();
    // Maturity before issue.
    assert_eq!(
        vault.create_series(1, 2000, 1000, 9_800_000, SCALE, SCALE),
        Err(Error::InvalidTimestamp)
    );
    // Price outside (0, par].
    assert_eq!(
        vault.create_series(1, 1000, 2000, 0, SCALE, SCALE),
        Err(Error::InvalidIssuePrice)
    );
    assert_eq!(
        vault.create_series(1, 1000, 2000, PAR_UNIT + 1, SCALE, SCALE),
        Err(Error::InvalidIssuePrice)
    );
    // Caps inverted or non-positive.
    assert_eq!(
        vault.create_series(1, 1000, 2000, 9_800_000, 0, SCALE),
        Err(Error::InvalidCapAmounts)
    );
    assert_eq!(
        vault.create_series(1, 1000, 2000, 9_800_000, SCALE, 2 * SCALE),
        Err(Error::InvalidCapAmounts)
    );
    // A duplicate id.
    vault.create_series(1, 1000, 2000, 9_800_000, SCALE, SCALE).unwrap();
    assert_eq!(
        vault.create_series(1, 1000, 2000, 9_800_000, SCALE, SCALE),
        Err(Error::SeriesAlreadyExists)
    );
}

#[test]
fn test_activate_requires_upcoming() {
    let mut vault = BingoVault::new();
    assert_eq!(vault.activate_series(7), Err(Error::SeriesNotFound));
    vault.create_series(7, 1000, 2000, 9_800_000, SCALE, SCALE).unwrap();
    vault.activate_series(7).unwrap();
    assert_eq!(vault.activate_series(7), Err(Error::InvalidStatus));
}

#[test]
fn test_subscribe_error_order() {
    let mut vault = BingoVault::new();
    let mut token = BTBillToken::new(ADMIN);

    assert_eq!(
        vault.subscribe(&mut token, USER1, 1, 0, 1000),
        Err(Error::InvalidAmount)
    );
    assert_eq!(
        vault.subscribe(&mut token, USER1, 1, 100, 1000),
        Err(Error::SeriesNotFound)
    );
    vault.create_series(1, 1000, 2000, 9_800_000, SCALE, SCALE).unwrap();
    assert_eq!(
        vault.subscribe(&mut token, USER1, 1, 100, 1000),
        Err(Error::SeriesNotActive)
    );
}

#[test]
fn test_mature_series_is_idempotent_error() {
    // Maturing twice never applies effects twice: the second call is a
    // no-op InvalidStatus error.
    let mut vault = BingoVault::new();
    vault.create_series(1, 1000, 2000, 9_800_000, SCALE, SCALE).unwrap();
    vault.activate_series(1).unwrap();

    assert_eq!(vault.mature_series(1, 1999), Err(Error::SeriesNotMatured));
    vault.mature_series(1, 2000).unwrap();
    assert_eq!(vault.get_series(1).unwrap().status, SeriesStatus::Matured);

    assert_eq!(vault.mature_series(1, 2000), Err(Error::InvalidStatus));
    assert_eq!(vault.get_series(1).unwrap().status, SeriesStatus::Matured);

    assert_eq!(vault.mature_series(2, 2000), Err(Error::SeriesNotFound));
}

#[test]
fn test_subscription_updates_accounting_and_position() {
    let mut vault = BingoVault::new();
    let mut token = BTBillToken::new(ADMIN);

    vault
        .create_series(1, 1000, 2000, 9_800_000, 1_000_000i128 * SCALE, 100_000i128 * SCALE)
        .unwrap();
    vault.activate_series(1).unwrap();

    let pay = 9_800i128 * SCALE;
    vault.subscribe(&mut token, USER1, 1, pay, 1000).unwrap();
    // At the issue price of 0.98, 9,800 units of cash buy 10,000 par.
    let minted = 10_000i128 * SCALE;

    assert_eq!(vault.get_user_position(1, USER1).subscribed_par, minted);
    assert_eq!(vault.get_user_position(1, USER2).subscribed_par, 0);
    assert_eq!(token.balance_of(1, USER1), minted);

    let acc = vault.get_protocol_accounting();
    assert_eq!(acc.total_subscriptions_collected, pay);
    assert_eq!(acc.total_par_minted, minted);
    assert_eq!(acc.total_lent, 0);
    assert_eq!(acc.total_repo_revenue, 0);
    assert_eq!(acc.total_defaults, 0);

    let series = vault.get_series(1).unwrap();
    assert_eq!(series.minted_par, minted);
    assert_eq!(series.total_subscriptions_collected, pay);

    // Early liability exceeds collected cash: profit is negative.
    assert_eq!(vault.calculate_protocol_profit(), pay - minted);
    // The whole collected balance is available for lending.
    assert_eq!(vault.calculate_available_for_lending(), pay);
}

#[test]
fn test_redeem_burns_exactly() {
    let mut vault = BingoVault::new();
    let mut token = BTBillToken::new(ADMIN);

    vault
        .create_series(1, 1000, 2000, 9_800_000, 1_000_000i128 * SCALE, 100_000i128 * SCALE)
        .unwrap();
    vault.activate_series(1).unwrap();
    vault.subscribe(&mut token, USER1, 1, 9_800i128 * SCALE, 1000).unwrap();
    let balance = token.balance_of(1, USER1);

    assert_eq!(
        vault.redeem(&mut token, USER1, 1, 0, 2500),
        Err(Error::InvalidAmount)
    );
    assert_eq!(
        vault.redeem(&mut token, USER1, 1, balance + 1, 2500),
        Err(Error::InsufficientBalance)
    );
    vault.redeem(&mut token, USER1, 1, balance, 2500).unwrap();
    assert_eq!(token.balance_of(1, USER1), 0);
}

use bingo::bill_token::BTBillToken;
use bingo::repo::{calculate_max_cash, calculate_repurchase, Error, RepoMarket, RepoStatus};
use bingo::vault::BingoVault;

const SCALE: i128 = 10_000_000;

const ADMIN: u64 = 1;
const TREASURY: u64 = 2;
const USER1: u64 = 10;
const USER2: u64 = 11;
const CUSTODY: u64 = 100;

#[test]
fn test_calculate_max_cash() {
    let collateral_par = 10_000 * 10_000_000;
    let mark_price = 99 * 10_000_000 / 100;
    let haircut_bps = 300;

    let max_cash = calculate_max_cash(collateral_par, mark_price, haircut_bps).unwrap();

    assert_eq!(max_cash, 9603 * 10_000_000);
}

#[test]
fn test_calculate_repurchase() {
    let cash_out = 9_000 * 10_000_000;
    let spread_bps = 200;

    let repurchase = calculate_repurchase(cash_out, spread_bps).unwrap();

    assert_eq!(repurchase, 9180 * 10_000_000);
}

#[test]
fn test_zero_haircut() {
    let collateral_par = 10_000 * 10_000_000;
    let mark_price = 10_000_000;
    let haircut_bps = 0;

    let max_cash = calculate_max_cash(collateral_par, mark_price, haircut_bps).unwrap();

    assert_eq!(max_cash, 10_000 * 10_000_000);
}

#[test]
fn test_high_haircut() {
    let collateral_par = 10_000 * 10_000_000;
    let mark_price = 10_000_000;
    let haircut_bps = 5000;

    let max_cash = calculate_max_cash(collateral_par, mark_price, haircut_bps).unwrap();

    assert_eq!(max_cash, 5_000 * 10_000_000);
}

fn setup(
    issue_price: i128,
    maturity_date: u64,
) -> (BingoVault, BTBillToken, RepoMarket) {
    let mut vault = BingoVault::new();
    let mut token = BTBillToken::new(ADMIN);
    let repo = RepoMarket::new(CUSTODY, TREASURY, 300, 200);

    token.add_operator(ADMIN).unwrap();
    vault
        .create_series(1, 1000, maturity_date, issue_price, 1_000_000i128 * SCALE, 100_000i128
            * SCALE)
        .unwrap();
    vault.activate_series(1).unwrap();
    vault.subscribe(&mut token, USER1, 1, 10_000i128 * SCALE, 1000).unwrap();

    (vault, token, repo)
}

#[test]
fn test_repo_open_and_close_happy_path() {
    let (vault, mut token, mut repo) = setup(9_800_000, 3000);

    let user_balance = token.balance_of(1, USER1);
    assert!(user_balance > 0);

    let collateral_par = 5_000i128 * SCALE;
    let desired_cash = 4_500i128 * SCALE;
    let deadline = 2500u64;

    let position_id = repo
        .open_repo(&mut token, &vault, USER1, 1, collateral_par, desired_cash, deadline, 1000)
        .unwrap();
    assert_eq!(position_id, 1);

    repo.close_repo(&mut token, position_id, 2000).unwrap();

    let position = repo.get_position(position_id).unwrap();
    assert_eq!(position.status, RepoStatus::Closed);
}

#[test]
fn test_repo_default_path() {
    let (vault, mut token, mut repo) = setup(9_800_000, 5000);

    let collateral_par = 5_000i128 * SCALE;
    let desired_cash = 4_500i128 * SCALE;
    let deadline = 2000u64;
    let position_id = repo
        .open_repo(&mut token, &vault, USER1, 1, collateral_par, desired_cash, deadline, 1000)
        .unwrap();

    let result = repo.claim_default(&mut token, position_id, 1000);
    assert_eq!(result, Err(Error::DeadlineNotPassed));

    repo.claim_default(&mut token, position_id, 2001).unwrap();

    let position = repo.get_position(position_id).unwrap();
    assert_eq!(position.status, RepoStatus::Defaulted);
}

#[test]
fn test_repo_respects_haircut() {
    let (vault, mut token, mut repo) = setup(10_000_000, 5000);

    let collateral_par = 10_000i128 * SCALE;
    // With a 3% haircut at a 1.0 mark price, max cash is 9,700 units.
    let desired_cash = 9_700i128 * SCALE;

    let position_id = repo
        .open_repo(&mut token, &vault, USER1, 1, collateral_par, desired_cash, 3000, 1000)
        .unwrap();
    assert_eq!(position_id, 1);

    let result = repo.open_repo(
        &mut token,
        &vault,
        USER1,
        1,
        collateral_par,
        9_800i128 * SCALE,
        3000,
        1000,
    );
    assert_eq!(result, Err(Error::ExceedsMaxCash));
}

#[test]
fn test_haircut_boundary_is_exact() {
    // 10,000 units at a 1.0 mark price under a 300 bps haircut lend at
    // most 9,700 units: one unit more is refused.
    let (vault, mut token, mut repo) = setup(10_000_000, 5000);

    let collateral_par = 10_000i128 * SCALE;
    let result = repo.open_repo(
        &mut token,
        &vault,
        USER1,
        1,
        collateral_par,
        9_701i128 * SCALE,
        3000,
        1000,
    );
    assert_eq!(result, Err(Error::ExceedsMaxCash));

    let position_id = repo
        .open_repo(&mut token, &vault, USER1, 1, collateral_par, 9_700i128 * SCALE, 3000, 1000)
        .unwrap();
    let position = repo.get_position(position_id).unwrap();
    assert_eq!(position.cash_out, 9_700i128 * SCALE);
    // Repurchase carries the 2% spread exactly.
    assert_eq!(position.repurchase_amount, 9_894i128 * SCALE);
}

#[test]
fn test_close_then_default_windows() {
    // A position with deadline 2000 may close at 1999; a second position
    // left open cannot be claimed at 1999 but defaults at 2001.
    let (vault, mut token, mut repo) = setup(10_000_000, 3000);

    let first = repo
        .open_repo(&mut token, &vault, USER1, 1, 2_000i128 * SCALE, 1_000i128 * SCALE, 2000, 1000)
        .unwrap();
    let second = repo
        .open_repo(&mut token, &vault, USER1, 1, 2_000i128 * SCALE, 1_000i128 * SCALE, 2000, 1000)
        .unwrap();
    assert_eq!(first, 1);
    assert_eq!(second, 2);

    repo.close_repo(&mut token, first, 1999).unwrap();
    assert_eq!(repo.get_position(first).unwrap().status, RepoStatus::Closed);

    assert_eq!(
        repo.claim_default(&mut token, second, 1999),
        Err(Error::DeadlineNotPassed)
    );
    repo.claim_default(&mut token, second, 2001).unwrap();
    assert_eq!(repo.get_position(second).unwrap().status, RepoStatus::Defaulted);
}

#[test]
fn test_repo_error_paths() {
    let (vault, mut token, mut repo) = setup(10_000_000, 3000);

    assert_eq!(
        repo.open_repo(&mut token, &vault, USER1, 1, 0, 100, 2000, 1000),
        Err(Error::InvalidAmount)
    );
    assert_eq!(
        repo.open_repo(&mut token, &vault, USER1, 1, 100, 0, 2000, 1000),
        Err(Error::InvalidAmount)
    );
    // A deadline past the series' maturity is refused.
    assert_eq!(
        repo.open_repo(&mut token, &vault, USER1, 1, 100, 10, 3001, 1000),
        Err(Error::InvalidDeadline)
    );

    assert_eq!(repo.close_repo(&mut token, 1, 1000), Err(Error::PositionNotFound));
    assert_eq!(repo.get_position(1), Err(Error::PositionNotFound));

    let id = repo
        .open_repo(&mut token, &vault, USER1, 1, 1_000i128 * SCALE, 500i128 * SCALE, 2000, 1000)
        .unwrap();
    assert_eq!(
        repo.close_repo(&mut token, id, 2001),
        Err(Error::DeadlinePassed)
    );
    repo.close_repo(&mut token, id, 2000).unwrap();
    assert_eq!(repo.close_repo(&mut token, id, 2000), Err(Error::InvalidStatus));
    assert_eq!(
        repo.claim_default(&mut token, id, 2001),
        Err(Error::InvalidStatus)
    );
}

#[test]
fn test_repo_collateral_moves() {
    let (vault, mut token, mut repo) = setup(10_000_000, 3000);
    let before = token.balance_of(1, USER1);

    let collateral = 4_000i128 * SCALE;
    let id = repo
        .open_repo(&mut token, &vault, USER1, 1, collateral, 1_000i128 * SCALE, 2000, 1000)
        .unwrap();
    assert_eq!(token.balance_of(1, USER1), before - collateral);
    assert_eq!(token.balance_of(1, CUSTODY), collateral);

    repo.claim_default(&mut token, id, 2500).unwrap();
    assert_eq!(token.balance_of(1, CUSTODY), 0);
    assert_eq!(token.balance_of(1, TREASURY), collateral);
}

#[test]
fn test_complete_integration_flow() {
    let mut vault = BingoVault::new();
    let mut token = BTBillToken::new(ADMIN);
    let mut repo = RepoMarket::new(CUSTODY, TREASURY, 300, 200);

    vault
        .create_series(1, 1000, 10000, 9_500_000, 1_000_000i128 * SCALE, 50_000i128 * SCALE)
        .unwrap();
    vault.activate_series(1).unwrap();

    vault.subscribe(&mut token, USER1, 1, 10_000i128 * SCALE, 1000).unwrap();
    let user1_bt_bills = token.balance_of(1, USER1);
    assert!(user1_bt_bills > 10_000i128 * SCALE);

    let collateral = 5_000i128 * SCALE;
    let cash_request = 4_000i128 * SCALE;
    let repo_id = repo
        .open_repo(&mut token, &vault, USER1, 1, collateral, cash_request, 5000, 1000)
        .unwrap();

    let mid_price = vault.current_price(1, 6000).unwrap();
    assert!(mid_price > 9_500_000i128);
    assert!(mid_price < 10_000_000i128);

    vault.subscribe(&mut token, USER2, 1, 5_000i128 * SCALE, 6000).unwrap();
    let user2_bt_bills = token.balance_of(1, USER2);
    assert!(user2_bt_bills < user1_bt_bills);

    let maturity_price = vault.current_price(1, 10000).unwrap();
    assert_eq!(maturity_price, 10_000_000i128);

    let user2_balance_before = token.balance_of(1, USER2);
    vault.redeem(&mut token, USER2, 1, user2_balance_before, 10000).unwrap();
    assert_eq!(token.balance_of(1, USER2), 0);

    repo.claim_default(&mut token, repo_id, 10000).unwrap();
    let position = repo.get_position(repo_id).unwrap();
    assert_eq!(position.status, RepoStatus::Defaulted);
}

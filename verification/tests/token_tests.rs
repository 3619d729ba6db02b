use bingo::bill_token::{BTBillToken, Error};

const SCALE: i128 = 10_000_000;

const ADMIN: u64 = 1;
const USER1: u64 = 10;
const USER2: u64 = 11;

#[test]
fn test_mint_and_balance() {
    let mut token = BTBillToken::new(ADMIN);
    let series_id = 1u32;
    let amount = 1000i128 * SCALE;

    token.mint(series_id, USER1, amount).unwrap();

    assert_eq!(token.balance_of(series_id, USER1), amount);
}

#[test]
fn test_transfer() {
    let mut token = BTBillToken::new(ADMIN);
    let series_id = 1u32;
    let amount = 1000i128 * SCALE;

    token.mint(series_id, USER1, amount).unwrap();
    token.transfer(series_id, USER1, USER2, 500i128 * SCALE).unwrap();

    assert_eq!(token.balance_of(series_id, USER1), 500i128 * SCALE);
    assert_eq!(token.balance_of(series_id, USER2), 500i128 * SCALE);
}

#[test]
fn test_burn() {
    let mut token = BTBillToken::new(ADMIN);
    let series_id = 1u32;
    let amount = 1000i128 * SCALE;

    token.mint(series_id, USER1, amount).unwrap();
    token.burn(series_id, USER1, 400i128 * SCALE).unwrap();

    assert_eq!(token.balance_of(series_id, USER1), 600i128 * SCALE);
}

#[test]
fn test_insufficient_balance_error() {
    let mut token = BTBillToken::new(ADMIN);
    let series_id = 1u32;
    let amount = 1000i128 * SCALE;

    token.mint(series_id, USER1, amount).unwrap();

    let result = token.transfer(series_id, USER1, USER2, 1500i128 * SCALE);
    assert_eq!(result, Err(Error::InsufficientBalance));
}

#[test]
fn test_mint_rejects_nonpositive_amount() {
    let mut token = BTBillToken::new(ADMIN);
    assert_eq!(token.mint(1, USER1, 0), Err(Error::InvalidAmount));
    assert_eq!(token.mint(1, USER1, -5), Err(Error::InvalidAmount));
    assert_eq!(token.balance_of(1, USER1), 0);
}

#[test]
fn test_burn_rejects_nonpositive_amount() {
    let mut token = BTBillToken::new(ADMIN);
    token.mint(1, USER1, 100).unwrap();
    assert_eq!(token.burn(1, USER1, 0), Err(Error::InvalidAmount));
    assert_eq!(token.burn(1, USER1, -5), Err(Error::InvalidAmount));
}

#[test]
fn test_burn_without_record_is_insufficient() {
    let mut token = BTBillToken::new(ADMIN);
    assert_eq!(token.burn(1, USER1, 1), Err(Error::InsufficientBalance));
}

#[test]
fn test_transfer_rejects_nonpositive_amount() {
    let mut token = BTBillToken::new(ADMIN);
    token.mint(1, USER1, 100).unwrap();
    assert_eq!(token.transfer(1, USER1, USER2, 0), Err(Error::InvalidAmount));
}

#[test]
fn test_mint_overflow_is_invalid_amount() {
    let mut token = BTBillToken::new(ADMIN);
    token.mint(1, USER1, i128::MAX).unwrap();
    assert_eq!(token.mint(1, USER1, 1), Err(Error::InvalidAmount));
    assert_eq!(token.balance_of(1, USER1), i128::MAX);
}

#[test]
fn test_operator_set_add_remove() {
    let mut token = BTBillToken::new(ADMIN);
    assert!(!token.is_operator(USER1));
    token.add_operator(USER1).unwrap();
    token.add_operator(USER1).unwrap();
    assert!(token.is_operator(USER1));
    token.remove_operator(USER1).unwrap();
    assert!(!token.is_operator(USER1));
}

#[test]
fn test_balances_conserved_per_series() {
    // Sum of balances tracks cumulative mint minus cumulative burn.
    let mut token = BTBillToken::new(ADMIN);
    token.mint(1, USER1, 1000).unwrap();
    token.mint(1, USER2, 500).unwrap();
    token.mint(2, USER1, 777).unwrap();
    token.burn(1, USER1, 400).unwrap();
    token.transfer(1, USER1, USER2, 100).unwrap();

    let sum_series_1 = token.balance_of(1, USER1) + token.balance_of(1, USER2);
    assert_eq!(sum_series_1, 1000 + 500 - 400);
    assert_eq!(token.balance_of(1, USER1), 500);
    assert_eq!(token.balance_of(1, USER2), 600);
    assert_eq!(token.balance_of(2, USER1), 777);
}

#[test]
fn test_burn_to_zero_removes_row() {
    let mut token = BTBillToken::new(ADMIN);
    token.mint(1, USER1, 250).unwrap();
    token.burn(1, USER1, 250).unwrap();
    assert_eq!(token.balance_of(1, USER1), 0);
    // A fresh mint starts the balance over.
    token.mint(1, USER1, 40).unwrap();
    assert_eq!(token.balance_of(1, USER1), 40);
}

#[test]
fn test_transfer_whole_balance_moves_row() {
    let mut token = BTBillToken::new(ADMIN);
    token.mint(1, USER1, 300).unwrap();
    token.transfer(1, USER1, USER2, 300).unwrap();
    assert_eq!(token.balance_of(1, USER1), 0);
    assert_eq!(token.balance_of(1, USER2), 300);
}

#[test]
fn test_transfer_to_self_changes_nothing() {
    let mut token = BTBillToken::new(ADMIN);
    token.mint(1, USER1, 300).unwrap();
    token.transfer(1, USER1, USER1, 100).unwrap();
    assert_eq!(token.balance_of(1, USER1), 300);
}

//! Tests of the token collaborator model itself.

use token_staking::token::{TokenBank, TokenError};

#[test]
fn transfer_moves_balance() {
    let mut token = TokenBank::new();
    token.mint(1, 100).unwrap();
    token.transfer(1, 2, 30).unwrap();
    assert_eq!(token.balance_of(1), 70);
    assert_eq!(token.balance_of(2), 30);
}

#[test]
fn transfer_to_self_changes_nothing() {
    let mut token = TokenBank::new();
    token.mint(1, 100).unwrap();
    token.transfer(1, 1, 40).unwrap();
    assert_eq!(token.balance_of(1), 100);
}

#[test]
fn transfer_without_funds_fails() {
    let mut token = TokenBank::new();
    token.mint(1, 10).unwrap();
    assert_eq!(token.transfer(1, 2, 11), Err(TokenError::InsufficientFunds));
    assert_eq!(token.balance_of(1), 10);
    assert_eq!(token.balance_of(2), 0);
}

#[test]
fn transfer_from_spends_allowance() {
    let mut token = TokenBank::new();
    token.mint(1, 100).unwrap();
    token.approve(1, 9, 50);
    assert_eq!(token.allowance(1, 9), 50);
    token.transfer_from(1, 9, 2, 20).unwrap();
    assert_eq!(token.balance_of(1), 80);
    assert_eq!(token.balance_of(2), 20);
    assert_eq!(token.allowance(1, 9), 30);
}

#[test]
fn transfer_from_without_allowance_fails() {
    let mut token = TokenBank::new();
    token.mint(1, 100).unwrap();
    token.approve(1, 9, 5);
    assert_eq!(
        token.transfer_from(1, 9, 2, 6),
        Err(TokenError::InsufficientAllowance)
    );
    assert_eq!(token.balance_of(1), 100);
    assert_eq!(token.allowance(1, 9), 5);
}

#[test]
fn transfer_from_without_funds_keeps_allowance() {
    let mut token = TokenBank::new();
    token.mint(1, 10).unwrap();
    token.approve(1, 9, 100);
    assert_eq!(
        token.transfer_from(1, 9, 2, 11),
        Err(TokenError::InsufficientFunds)
    );
    assert_eq!(token.allowance(1, 9), 100);
    assert_eq!(token.balance_of(1), 10);
}

#[test]
fn recipient_overflow_fails_atomically() {
    let mut token = TokenBank::new();
    token.mint(1, 100).unwrap();
    token.mint(2, u128::MAX - 10).unwrap();
    assert_eq!(token.transfer(1, 2, 11), Err(TokenError::Overflow));
    assert_eq!(token.balance_of(1), 100);
    assert_eq!(token.balance_of(2), u128::MAX - 10);
}

#[test]
fn mint_overflow_fails() {
    let mut token = TokenBank::new();
    token.mint(1, u128::MAX).unwrap();
    assert_eq!(token.mint(1, 1), Err(TokenError::Overflow));
    assert_eq!(token.balance_of(1), u128::MAX);
}

#[test]
fn approve_overwrites() {
    let mut token = TokenBank::new();
    token.approve(1, 9, 50);
    token.approve(1, 9, 7);
    assert_eq!(token.allowance(1, 9), 7);
    assert_eq!(token.allowance(9, 1), 0);
}

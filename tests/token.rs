use a1_token::{A1Token, AccountId, Error};

fn alice() -> AccountId {
    AccountId::from([0x1; 32])
}

#[test]
fn should_initialize_with_correct_supply() {
    let token = A1Token::new_token(alice(), 1000);
    assert_eq!(token.total_supply(), 1000);
}

#[test]
fn should_allow_transfers() {
    let mut token = A1Token::new_token(alice(), 1000);
    let alice = AccountId::from([0x1; 32]);
    let bob = AccountId::from([0x2; 32]);

    let initial_bob_balance: u32 = token.balance_of(bob);
    assert_eq!(initial_bob_balance, 0);

    let initial_alice_balance: u32 = token.balance_of(alice);

    let amount_to_transfer: u32 = 250;
    let success = token.transfer(alice, bob, amount_to_transfer);

    let alice_balance_after: u32 = token.balance_of(alice);
    let bob_balance_after: u32 = token.balance_of(bob);

    assert_eq!(success, Ok(()));
    assert_eq!(alice_balance_after, initial_alice_balance - amount_to_transfer);
    assert_eq!(bob_balance_after, initial_bob_balance + amount_to_transfer);
}

#[test]
fn should_mint_more_supply() {
    let amount_to_mint: u32 = 1000;
    let mut token = A1Token::new_token(alice(), amount_to_mint);
    assert_eq!(token.total_supply(), amount_to_mint);
    assert_eq!(token.mint(alice(), amount_to_mint), Ok(()));
    assert_eq!(token.total_supply(), amount_to_mint + amount_to_mint);

    let bob = AccountId::from([0x2; 32]);
    assert_eq!(token.mint(bob, amount_to_mint), Err(Error::Unauthorized));
}

#[test]
fn should_burn_token() {
    let initial_supply: u32 = 1000;
    let mut token = A1Token::new_token(alice(), initial_supply);

    let amount_to_burn: u32 = 250;
    assert_eq!(token.burn(alice(), amount_to_burn), Ok(()));
    assert_eq!(token.total_supply(), initial_supply - amount_to_burn);

    assert_eq!(token.burn(alice(), initial_supply), Err(Error::InsufficientBalance));
    assert_eq!(token.total_supply(), initial_supply - amount_to_burn);
}

#[test]
fn should_transfer_authority() {
    let alice = AccountId::from([0x1; 32]);
    let bob = AccountId::from([0x2; 32]);
    let jake = AccountId::from([0x3; 32]);

    let initial_supply: u32 = 1000;
    let mut token = A1Token::new_token(alice, initial_supply);

    assert_eq!(token.get_current_authority(), alice);
    assert_eq!(token.transfer_authority(alice, bob), Ok(()));
    assert_eq!(token.get_current_authority(), bob);

    assert_eq!(token.transfer_authority(jake, alice), Err(Error::Unauthorized));
    assert_eq!(token.get_current_authority(), bob);
}

#[test]
fn should_approve_allowances() {
    let alice = AccountId::from([0x1; 32]);
    let bob = AccountId::from([0x2; 32]);

    let initial_supply: u32 = 1000;
    let mut token = A1Token::new_token(alice, initial_supply);

    let amount_to_approve: u32 = 250;
    assert_eq!(token.approve(alice, bob, amount_to_approve), Ok(()));
    assert_eq!(token.allowance(alice, bob), amount_to_approve);
}

#[test]
fn should_transfer_from() {
    let alice = AccountId::from([0x1; 32]);
    let bob = AccountId::from([0x2; 32]);
    let jake = AccountId::from([0x2; 32]);

    let initial_supply: u32 = 1000;
    let mut token = A1Token::new_token(alice, initial_supply);
    assert_eq!(token.balance_of(alice), initial_supply);

    let amount_to_transfer: u32 = 100;
    let _ = token.approve(alice, bob, amount_to_transfer);

    let _ = token.transfer_from(bob, alice, jake, amount_to_transfer);
    assert_eq!(token.balance_of(jake), amount_to_transfer);
}

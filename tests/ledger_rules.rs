use a1_token::{A1Token, AccountId, Approval, Error, Event, LedgerState, Transfer};

fn account(n: u8) -> AccountId {
    AccountId::from([n; 32])
}

#[test]
fn construction_credits_initiator_and_notifies() {
    let i = account(1);
    let mut token = A1Token::new_token(i, 1000);
    assert_eq!(token.total_supply(), 1000);
    assert_eq!(token.balance_of(i), 1000);
    assert_eq!(token.get_current_authority(), i);
    let events = token.take_events();
    assert_eq!(
        events,
        vec![Event::Transfer(Transfer { sender: None, recipient: Some(i), amount: 1000 })]
    );
    assert!(token.take_events().is_empty());
}

#[test]
fn transfer_then_oversized_transfer_fails() {
    let i = account(1);
    let b = account(2);
    let mut token = A1Token::new_token(i, 1000);
    assert_eq!(token.transfer(i, b, 250), Ok(()));
    assert_eq!(token.balance_of(i), 750);
    assert_eq!(token.balance_of(b), 250);
    let _ = token.take_events();
    assert_eq!(token.transfer(i, b, 10000), Err(Error::InsufficientBalance));
    assert_eq!(token.balance_of(i), 750);
    assert_eq!(token.balance_of(b), 250);
    assert!(token.take_events().is_empty());
}

#[test]
fn transfer_emits_notification() {
    let i = account(1);
    let b = account(2);
    let mut token = A1Token::new_token(i, 1000);
    let _ = token.take_events();
    assert_eq!(token.transfer(i, b, 5), Ok(()));
    assert_eq!(
        token.take_events(),
        vec![Event::Transfer(Transfer { sender: Some(i), recipient: Some(b), amount: 5 })]
    );
}

#[test]
fn self_and_zero_transfers_are_noops_that_notify() {
    let i = account(1);
    let b = account(2);
    let mut token = A1Token::new_token(i, 1000);
    let _ = token.take_events();
    assert_eq!(token.transfer(i, i, 400), Ok(()));
    assert_eq!(token.balance_of(i), 1000);
    assert_eq!(token.transfer(i, b, 0), Ok(()));
    assert_eq!(token.balance_of(i), 1000);
    assert_eq!(token.balance_of(b), 0);
    assert_eq!(token.take_events().len(), 2);
    assert_eq!(token.transfer(i, i, 1001), Err(Error::InsufficientBalance));
}

#[test]
fn mint_by_authority_and_refused_for_others() {
    let i = account(1);
    let b = account(2);
    let mut token = A1Token::new_token(i, 1000);
    let _ = token.take_events();
    assert_eq!(token.mint(i, 500), Ok(()));
    assert_eq!(token.total_supply(), 1500);
    assert_eq!(token.balance_of(i), 1500);
    assert_eq!(token.mint(b, 1), Err(Error::Unauthorized));
    assert_eq!(token.total_supply(), 1500);
    assert_eq!(token.balance_of(b), 0);
    assert!(token.take_events().is_empty());
}

#[test]
fn delegated_transfer_consumes_allowance() {
    let i = account(1);
    let b = account(2);
    let c = account(3);
    let mut token = A1Token::new_token(i, 1000);
    let _ = token.take_events();
    assert_eq!(token.approve(i, b, 100), Ok(()));
    assert_eq!(
        token.take_events(),
        vec![Event::Approval(Approval { owner: i, spender: b, amount: 100 })]
    );
    assert_eq!(token.transfer_from(b, i, c, 60), Ok(()));
    assert_eq!(token.allowance(i, b), 40);
    assert_eq!(token.balance_of(c), 60);
    assert_eq!(token.balance_of(i), 940);
    assert_eq!(token.transfer_from(b, i, c, 60), Err(Error::InsufficientAllowance));
    assert_eq!(token.allowance(i, b), 40);
    assert_eq!(token.balance_of(c), 60);
    assert_eq!(token.balance_of(i), 940);
}

#[test]
fn delegated_transfer_short_balance_keeps_allowance() {
    let i = account(1);
    let b = account(2);
    let c = account(3);
    let mut token = A1Token::new_token(i, 50);
    assert_eq!(token.approve(i, b, 100), Ok(()));
    assert_eq!(token.transfer_from(b, i, c, 80), Err(Error::InsufficientBalance));
    assert_eq!(token.allowance(i, b), 100);
    assert_eq!(token.balance_of(i), 50);
    assert_eq!(token.balance_of(c), 0);
}

#[test]
fn approve_replaces_rather_than_adds() {
    let i = account(1);
    let b = account(2);
    let mut token = A1Token::new_token(i, 1000);
    assert_eq!(token.approve(i, b, 70), Ok(()));
    assert_eq!(token.approve(i, b, 30), Ok(()));
    assert_eq!(token.allowance(i, b), 30);
    assert_eq!(token.allowance(b, i), 0);
}

#[test]
fn handover_revokes_old_authority() {
    let i = account(1);
    let b = account(2);
    let mut token = A1Token::new_token(i, 1000);
    assert_eq!(token.transfer_authority(i, b), Ok(()));
    assert_eq!(token.get_current_authority(), b);
    assert_eq!(token.mint(i, 1), Err(Error::Unauthorized));
    assert_eq!(token.transfer_authority(i, i), Err(Error::Unauthorized));
    assert_eq!(token.mint(b, 1), Ok(()));
    assert_eq!(token.balance_of(b), 1);
    assert_eq!(token.total_supply(), 1001);
}

#[test]
fn anyone_may_burn_own_funds() {
    let i = account(1);
    let b = account(2);
    let mut token = A1Token::new_token(i, 1000);
    assert_eq!(token.transfer(i, b, 300), Ok(()));
    let _ = token.take_events();
    assert_eq!(token.burn(b, 300), Ok(()));
    assert_eq!(token.balance_of(b), 0);
    assert_eq!(token.total_supply(), 700);
    assert_eq!(token.burn(b, 1), Err(Error::InsufficientBalance));
    assert!(token.take_events().is_empty());
}

#[test]
fn unwritten_accounts_read_zero() {
    let token = A1Token::new_token(account(1), 1000);
    assert_eq!(token.balance_of(account(9)), 0);
    assert_eq!(token.allowance(account(9), account(8)), 0);
    assert_eq!(token.allowance(account(1), account(1)), 0);
}

#[test]
fn supply_matches_sum_of_balances() {
    let accounts = [account(1), account(2), account(3), account(4)];
    let mut token = A1Token::new_token(accounts[0], 4_000_000_000);
    assert_eq!(token.transfer(accounts[0], accounts[1], 1_000_000_000), Ok(()));
    assert_eq!(token.approve(accounts[1], accounts[2], 500), Ok(()));
    assert_eq!(token.transfer_from(accounts[2], accounts[1], accounts[3], 400), Ok(()));
    assert_eq!(token.burn(accounts[3], 100), Ok(()));
    assert_eq!(token.mint(accounts[0], 294_967_295), Ok(()));
    let sum: u64 = accounts.iter().map(|a| token.balance_of(*a) as u64).sum();
    assert_eq!(sum, token.total_supply() as u64);
    assert_eq!(token.total_supply(), u32::MAX - 100);
}

#[test]
fn accounts_differ_by_any_byte() {
    let mut bytes = [7u8; 32];
    let a = AccountId::from(bytes);
    bytes[31] = 8;
    let b = AccountId::from(bytes);
    assert_ne!(a, b);
    assert_eq!(a, AccountId::from([7u8; 32]));
}

#[test]
fn state_round_trip_keeps_ledger() {
    let i = account(1);
    let b = account(2);
    let mut token = A1Token::new_token(i, 1000);
    assert_eq!(token.transfer(i, b, 300), Ok(()));
    assert_eq!(token.approve(i, b, 40), Ok(()));
    assert_eq!(token.transfer_authority(i, b), Ok(()));
    let state = token.into_state();
    assert_eq!(state.total_supply, 1000);
    assert_eq!(state.mint_authority, b);
    let mut back = A1Token::restore(state).expect("a saved state is valid");
    assert_eq!(back.balance_of(i), 700);
    assert_eq!(back.balance_of(b), 300);
    assert_eq!(back.allowance(i, b), 40);
    assert_eq!(back.get_current_authority(), b);
    assert!(back.take_events().is_empty());
}

#[test]
fn restore_refuses_inconsistent_states() {
    let i = account(1);
    let b = account(2);
    let wrong_sum = LedgerState {
        total_supply: 10,
        balances: vec![(i, 4), (b, 5)],
        allowances: vec![],
        mint_authority: i,
    };
    assert!(!wrong_sum.is_valid());
    assert!(A1Token::restore(wrong_sum).is_none());
    let repeated_account = LedgerState {
        total_supply: 10,
        balances: vec![(i, 5), (i, 5)],
        allowances: vec![],
        mint_authority: i,
    };
    assert!(A1Token::restore(repeated_account).is_none());
    let repeated_pair = LedgerState {
        total_supply: 10,
        balances: vec![(i, 10)],
        allowances: vec![((i, b), 1), ((i, b), 2)],
        mint_authority: i,
    };
    assert!(A1Token::restore(repeated_pair).is_none());
    let oversized = LedgerState {
        total_supply: u32::MAX,
        balances: vec![(i, u32::MAX), (b, 1)],
        allowances: vec![],
        mint_authority: i,
    };
    assert!(A1Token::restore(oversized).is_none());
    let fine = LedgerState {
        total_supply: 10,
        balances: vec![(i, 4), (b, 6)],
        allowances: vec![((i, b), 1), ((b, i), 2)],
        mint_authority: b,
    };
    assert!(fine.is_valid());
    let token = A1Token::restore(fine).expect("consistent state");
    assert_eq!(token.balance_of(b), 6);
    assert_eq!(token.allowance(b, i), 2);
}

use zenith::ids::{AccountId, Party, Payment};
use zenith::vault::{Error, Vault};

fn account(n: u64) -> AccountId {
    AccountId::from_words([n, 0, 0, 0, 0, 0, 0])
}

/// What the listed transfers change `party`'s token balance by.
fn net(payments: &[Payment], party: Party) -> i128 {
    let mut d = 0;
    for p in payments {
        if p.from == party {
            d -= p.amount;
        }
        if p.to == party {
            d += p.amount;
        }
    }
    d
}

struct Harness {
    vault: Vault,
    token: AccountId,
    admin: AccountId,
}

fn setup() -> Harness {
    let admin = account(1);
    let token = account(2);
    let mut vault = Vault::new();
    vault.initialize(admin, token).unwrap();
    Harness { vault, token, admin }
}

#[test]
fn initialize_sets_admin_and_token() {
    let h = setup();
    assert_eq!(h.vault.get_admin(), h.admin);
    assert_eq!(h.vault.get_token(), h.token);
    assert_eq!(h.vault.get_total_escrowed(), 0);
}

#[test]
fn vault_initialize_twice_panics() {
    let mut h = setup();
    assert_eq!(h.vault.initialize(h.admin, h.token), Err(Error::AlreadyInitialized));
    assert_eq!(Error::AlreadyInitialized.code(), 1);
}

#[test]
fn deposit_pulls_funds_and_credits_the_tags_ledger() {
    let mut h = setup();
    let depositor = account(10);
    let minted = 1_000;

    let pay = h.vault.deposit(depositor, 7, 400).unwrap();
    let pays = [pay];

    assert_eq!(h.vault.balance_of(7), 400);
    assert_eq!(h.vault.get_total_escrowed(), 400);
    assert_eq!(minted + net(&pays, Party::Account(depositor)), 600);
    assert_eq!(net(&pays, Party::Contract), 400);
}

#[test]
fn deposit_accumulates_across_multiple_calls_for_the_same_tag() {
    let mut h = setup();
    let depositor = account(10);

    h.vault.deposit(depositor, 7, 100).unwrap();
    h.vault.deposit(depositor, 7, 250).unwrap();

    assert_eq!(h.vault.balance_of(7), 350);
    assert_eq!(h.vault.get_total_escrowed(), 350);
}

#[test]
fn deposit_keeps_different_tags_independent() {
    let mut h = setup();
    let depositor = account(10);

    h.vault.deposit(depositor, 1, 100).unwrap();
    h.vault.deposit(depositor, 2, 250).unwrap();

    assert_eq!(h.vault.balance_of(1), 100);
    assert_eq!(h.vault.balance_of(2), 250);
    assert_eq!(h.vault.get_total_escrowed(), 350);
}

#[test]
fn deposit_rejects_a_non_positive_amount() {
    let mut h = setup();
    let depositor = account(10);
    assert_eq!(h.vault.deposit(depositor, 7, 0), Err(Error::InvalidAmount));
    assert_eq!(Error::InvalidAmount.code(), 2);
    assert_eq!(h.vault.get_total_escrowed(), 0);
}

#[test]
fn withdraw_pays_out_and_debits_the_tags_ledger() {
    let mut h = setup();
    let depositor = account(10);
    h.vault.deposit(depositor, 7, 400).unwrap();

    let payee = account(11);
    let pay = h.vault.withdraw(7, payee, 150).unwrap();

    assert_eq!(h.vault.balance_of(7), 250);
    assert_eq!(h.vault.get_total_escrowed(), 250);
    assert_eq!(net(&[pay], Party::Account(payee)), 150);
}

#[test]
fn withdraw_rejects_more_than_the_tags_own_balance() {
    let mut h = setup();
    let depositor = account(10);
    h.vault.deposit(depositor, 7, 400).unwrap();

    let payee = account(11);
    assert_eq!(h.vault.withdraw(7, payee, 401), Err(Error::InsufficientEscrowBalance));
    assert_eq!(Error::InsufficientEscrowBalance.code(), 3);
    assert_eq!(h.vault.balance_of(7), 400);
}

#[test]
fn withdraw_cannot_drain_another_tags_deposit() {
    let mut h = setup();
    let depositor = account(10);
    h.vault.deposit(depositor, 1, 100).unwrap();
    h.vault.deposit(depositor, 2, 900).unwrap();

    let payee = account(11);
    h.vault.withdraw(1, payee, 100).unwrap();

    assert_eq!(h.vault.balance_of(1), 0);
    assert_eq!(h.vault.balance_of(2), 900);
}

#[test]
fn withdraw_rejects_a_non_positive_amount() {
    let mut h = setup();
    let depositor = account(10);
    h.vault.deposit(depositor, 7, 400).unwrap();
    assert_eq!(h.vault.withdraw(7, depositor, 0), Err(Error::InvalidAmount));
}

#[test]
fn pause_blocks_deposits_and_withdrawals() {
    let mut h = setup();
    h.vault.deposit(account(10), 3, 50).unwrap();
    h.vault.pause();
    assert!(h.vault.is_paused());
    assert_eq!(h.vault.deposit(account(10), 3, 50), Err(Error::ContractPaused));
    assert_eq!(h.vault.withdraw(3, account(10), 50), Err(Error::ContractPaused));
    assert_eq!(h.vault.transfer_tag(3, 4, 50), Err(Error::ContractPaused));
    assert_eq!(Error::ContractPaused.code(), 4);
    h.vault.unpause();
    assert!(!h.vault.is_paused());
    assert!(h.vault.withdraw(3, account(10), 50).is_ok());
}

#[test]
fn multisig_paths_need_an_approval() {
    let mut h = setup();
    h.vault.deposit(account(10), 3, 50).unwrap();
    assert_eq!(h.vault.withdraw_via_multisig(false, 3, account(10), 10), Err(Error::Unauthorized));
    assert_eq!(Error::Unauthorized.code(), 6);
    assert_eq!(h.vault.transfer_tag_via_multisig(false, 3, 4, 10), Err(Error::Unauthorized));
    assert_eq!(h.vault.transfer_admin_via_multisig(false, account(5)), Err(Error::Unauthorized));
    assert_eq!(h.vault.pause_via_multisig(false), Err(Error::Unauthorized));
    assert!(!h.vault.is_paused());

    let pay = h.vault.withdraw_via_multisig(true, 3, account(10), 10).unwrap();
    assert_eq!(pay, Payment { from: Party::Contract, to: Party::Account(account(10)), amount: 10 });
    assert_eq!(h.vault.withdraw_via_multisig(true, 3, account(10), 41), Err(Error::InsufficientEscrowBalance));
    h.vault.transfer_tag_via_multisig(true, 3, 4, 15).unwrap();
    assert_eq!(h.vault.balance_of(3), 25);
    assert_eq!(h.vault.balance_of(4), 15);
    h.vault.transfer_admin_via_multisig(true, account(5)).unwrap();
    assert_eq!(h.vault.get_admin(), account(5));
    h.vault.pause_via_multisig(true).unwrap();
    assert!(h.vault.is_paused());
    assert_eq!(h.vault.withdraw_via_multisig(true, 3, account(10), 1), Err(Error::ContractPaused));
    h.vault.unpause_via_multisig(true).unwrap();
    assert!(!h.vault.is_paused());
}

#[test]
fn transfer_tag_moves_escrow_without_changing_the_total() {
    let mut h = setup();
    h.vault.deposit(account(10), 1, 300).unwrap();
    h.vault.transfer_tag(1, 2, 120).unwrap();
    assert_eq!(h.vault.balance_of(1), 180);
    assert_eq!(h.vault.balance_of(2), 120);
    assert_eq!(h.vault.get_total_escrowed(), 300);
    assert_eq!(h.vault.transfer_tag(1, 2, 181), Err(Error::InsufficientEscrowBalance));
    assert_eq!(h.vault.transfer_tag(1, 2, -5), Err(Error::InvalidAmount));
    // Moving to the same tag leaves it as it was.
    h.vault.transfer_tag(2, 2, 120).unwrap();
    assert_eq!(h.vault.balance_of(2), 120);
    // Moving back restores both tags.
    h.vault.transfer_tag(2, 1, 120).unwrap();
    assert_eq!(h.vault.balance_of(1), 300);
    assert_eq!(h.vault.balance_of(2), 0);
}

#[test]
fn withdrawing_a_deposit_restores_the_ledger() {
    let mut h = setup();
    h.vault.deposit(account(10), 8, 70).unwrap();
    h.vault.deposit(account(10), 9, 30).unwrap();
    h.vault.withdraw(8, account(10), 70).unwrap();
    assert_eq!(h.vault.balance_of(8), 0);
    assert_eq!(h.vault.balance_of(9), 30);
    assert_eq!(h.vault.get_total_escrowed(), 30);
}

#[test]
fn sweep_untagged_recovers_only_the_surplus() {
    let mut h = setup();
    h.vault.deposit(account(10), 1, 500).unwrap();
    // 500 escrowed, 520 actually held: 20 arrived outside deposit.
    let pay = h.vault.sweep_untagged(account(12), 520).unwrap();
    assert_eq!(pay, Payment { from: Party::Contract, to: Party::Account(account(12)), amount: 20 });
    assert_eq!(h.vault.sweep_untagged(account(12), 500), Err(Error::NoUntaggedFunds));
    assert_eq!(Error::NoUntaggedFunds.code(), 5);
    assert_eq!(h.vault.get_total_escrowed(), 500);
}

#[test]
fn the_token_holding_covers_the_total_after_every_call() {
    let mut h = setup();
    let mut held: i128 = 0;
    let p = h.vault.deposit(account(10), 1, 300).unwrap();
    held += net(&[p], Party::Contract);
    assert!(held >= h.vault.get_total_escrowed());
    let p = h.vault.deposit(account(11), 2, 200).unwrap();
    held += net(&[p], Party::Contract);
    h.vault.transfer_tag(1, 2, 100).unwrap();
    assert!(held >= h.vault.get_total_escrowed());
    let p = h.vault.withdraw(2, account(12), 250).unwrap();
    held += net(&[p], Party::Contract);
    assert_eq!(held, 250);
    assert_eq!(h.vault.get_total_escrowed(), 250);
    // A stray transfer in, then a sweep of exactly that surplus.
    held += 40;
    let p = h.vault.sweep_untagged(account(13), held).unwrap();
    held += net(&[p], Party::Contract);
    assert_eq!(held, h.vault.get_total_escrowed());
}

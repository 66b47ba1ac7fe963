use payments_engine::account::Account;
use payments_engine::amount::{parse_amount, round_to_precision_4};
use payments_engine::error::EngineError;
use payments_engine::transaction::Transaction;

fn make_transaction(kind: &str, client: u16, tx: u32, amount: Option<&str>) -> Transaction {
    Transaction {
        kind: kind.to_string(),
        client,
        tx,
        amount: amount.map(|a| parse_amount(a).unwrap()),
    }
}

fn units(s: &str) -> i128 {
    parse_amount(s).unwrap() as i128
}

#[test]
fn invalid_transaction() {
    let mut account = Account::new(0);

    let invalid_transaction = make_transaction("invalid", 0, 0, Some("1.0"));
    assert!(account.apply_transaction(invalid_transaction).is_err());
}

#[test]
fn basic_deposit_and_withdrawal() {
    let mut account = Account::new(0);

    let first_deposit = make_transaction("deposit", 0, 0, Some("1.0"));
    account.apply_transaction(first_deposit).unwrap();
    assert_eq!(account.available(), units("1.0"));
    assert_eq!(account.held(), 0);
    assert_eq!(account.total(), units("1.0"));
    assert_eq!(account.history_len(), 1);

    let second_deposit = make_transaction("deposit", 0, 1, Some("0.5555"));
    account.apply_transaction(second_deposit).unwrap();
    assert_eq!(account.available(), units("1.5555"));
    assert_eq!(account.held(), 0);
    assert_eq!(account.total(), units("1.5555"));
    assert_eq!(account.history_len(), 2);
    assert!(!account.locked());

    let first_withdrawal = make_transaction("withdrawal", 0, 2, Some("1.0"));
    account.apply_transaction(first_withdrawal).unwrap();
    assert_eq!(round_to_precision_4(account.available()), 5555);
    assert_eq!(account.held(), 0);
    assert_eq!(round_to_precision_4(account.total()), 5555);
    assert_eq!(account.history_len(), 3);
    assert!(!account.locked());

    // an insufficient-funds withdrawal is dropped and not recorded
    let second_withdrawal = make_transaction("withdrawal", 0, 3, Some("2.0"));
    account.apply_transaction(second_withdrawal).unwrap();
    assert_eq!(round_to_precision_4(account.available()), 5555);
    assert_eq!(account.held(), 0);
    assert_eq!(round_to_precision_4(account.total()), 5555);
    assert_eq!(account.history_len(), 3);
    assert!(!account.locked());
}

#[test]
fn invalid_deposit_without_amount() {
    let mut account = Account::new(0);

    let invalid_deposit = make_transaction("deposit", 0, 0, None);
    assert!(account.apply_transaction(invalid_deposit).is_err());
}

#[test]
fn invalid_withdrawal_without_amount() {
    let mut account = Account::new(0);

    let invalid_withdrawal = make_transaction("withdrawal", 0, 0, None);
    assert!(account.apply_transaction(invalid_withdrawal).is_err());
}

#[test]
fn valid_disput() {
    let mut account = Account::new(0);

    let deposit = make_transaction("deposit", 0, 0, Some("1.0"));
    account.apply_transaction(deposit).unwrap();

    let dispute = make_transaction("dispute", 0, 0, None);
    account.apply_transaction(dispute).unwrap();

    let double_dispute = make_transaction("dispute", 0, 0, None);
    account.apply_transaction(double_dispute).unwrap();

    assert_eq!(account.available(), 0);
    assert_eq!(account.held(), units("1.0"));
    assert_eq!(account.total(), units("1.0"));
    assert_eq!(account.history_len(), 1);
    assert_eq!(account.disputes_len(), 1);
    assert!(!account.locked());
}

#[test]
fn invalid_dispute() {
    let mut account = Account::new(0);

    let deposit = make_transaction("deposit", 0, 0, Some("1.0"));
    account.apply_transaction(deposit).unwrap();

    let dispute = make_transaction("dispute", 0, 1, None);
    account.apply_transaction(dispute).unwrap();

    assert_eq!(account.available(), units("1.0"));
    assert_eq!(account.held(), 0);
    assert_eq!(account.total(), units("1.0"));
    assert_eq!(account.history_len(), 1);
    assert_eq!(account.disputes_len(), 0);
    assert!(!account.locked());
}

#[test]
fn valid_resolve() {
    let mut account = Account::new(0);

    let deposit = make_transaction("deposit", 0, 0, Some("1.0"));
    account.apply_transaction(deposit).unwrap();

    let dispute = make_transaction("dispute", 0, 0, None);
    account.apply_transaction(dispute).unwrap();

    let resolve = make_transaction("resolve", 0, 0, None);
    account.apply_transaction(resolve).unwrap();

    let double_resolve = make_transaction("resolve", 0, 0, None);
    account.apply_transaction(double_resolve).unwrap();

    assert_eq!(account.available(), units("1.0"));
    assert_eq!(account.held(), 0);
    assert_eq!(account.total(), units("1.0"));
    assert_eq!(account.history_len(), 1);
    assert_eq!(account.disputes_len(), 0);
    assert!(!account.locked());
}

#[test]
fn invalid_resolve() {
    let mut account = Account::new(0);

    let deposit = make_transaction("deposit", 0, 0, Some("1.0"));
    account.apply_transaction(deposit).unwrap();

    let first_resolve = make_transaction("resolve", 0, 0, None);
    account.apply_transaction(first_resolve).unwrap();

    let second_resolve = make_transaction("resolve", 0, 42, None);
    account.apply_transaction(second_resolve).unwrap();

    assert_eq!(account.available(), units("1.0"));
    assert_eq!(account.held(), 0);
    assert_eq!(account.total(), units("1.0"));
    assert_eq!(account.history_len(), 1);
    assert_eq!(account.disputes_len(), 0);
}

#[test]
fn valid_chargeback() {
    let mut account = Account::new(0);

    let deposit = make_transaction("deposit", 0, 0, Some("1.0"));
    account.apply_transaction(deposit).unwrap();

    let dispute = make_transaction("dispute", 0, 0, None);
    account.apply_transaction(dispute).unwrap();

    let chargeback = make_transaction("chargeback", 0, 0, None);
    account.apply_transaction(chargeback).unwrap();

    let double_chargeback = make_transaction("chargeback", 0, 0, None);
    assert_eq!(account.apply_transaction(double_chargeback), Ok(()));

    assert_eq!(account.available(), 0);
    assert_eq!(account.held(), 0);
    assert_eq!(account.total(), 0);
    assert_eq!(account.history_len(), 1);
    assert_eq!(account.disputes_len(), 0);
    assert!(account.locked());

    let deposit_after_lock = make_transaction("deposit", 0, 1, Some("1.0"));
    // Should have no effect
    account.apply_transaction(deposit_after_lock).unwrap();

    assert_eq!(account.available(), 0);
    assert_eq!(account.held(), 0);
    assert_eq!(account.total(), 0);
    assert_eq!(account.history_len(), 1);
    assert_eq!(account.disputes_len(), 0);
    assert!(account.locked());
}

#[test]
fn invalid_chargeback() {
    let mut account = Account::new(0);

    let deposit = make_transaction("deposit", 0, 0, Some("1.0"));
    account.apply_transaction(deposit).unwrap();

    let first_chargeback = make_transaction("chargeback", 0, 0, None);
    account.apply_transaction(first_chargeback).unwrap();

    let second_chargeback = make_transaction("chargeback", 0, 42, None);
    account.apply_transaction(second_chargeback).unwrap();

    assert_eq!(account.available(), units("1.0"));
    assert_eq!(account.held(), 0);
    assert_eq!(account.total(), units("1.0"));
    assert_eq!(account.history_len(), 1);
    assert_eq!(account.disputes_len(), 0);
    assert!(!account.locked());
}

#[test]
fn error_variants_name_the_cause() {
    let mut account = Account::new(3);
    assert_eq!(
        account.apply_transaction(make_transaction("Deposit", 3, 1, Some("1"))),
        Err(EngineError::InvalidRawTransactionType("Deposit".to_string()))
    );
    assert_eq!(
        account.apply_transaction(make_transaction("deposit", 3, 1, None)),
        Err(EngineError::NoAmountInDeposit)
    );
    assert_eq!(
        account.apply_transaction(make_transaction("withdrawal", 3, 1, None)),
        Err(EngineError::NoAmountInWitdrawal)
    );
    assert_eq!(account.available(), 0);
    assert_eq!(account.history_len(), 0);
}

#[test]
fn dispute_twice_equals_once() {
    let mut once = Account::new(1);
    let mut twice = Account::new(1);
    for a in [&mut once, &mut twice] {
        a.apply_transaction(make_transaction("deposit", 1, 1, Some("3.25"))).unwrap();
        a.apply_transaction(make_transaction("dispute", 1, 1, None)).unwrap();
    }
    twice.apply_transaction(make_transaction("dispute", 1, 1, None)).unwrap();
    assert_eq!(once.summary(), twice.summary());
    assert_eq!(once.disputes_len(), twice.disputes_len());
}

#[test]
fn settling_an_undisputed_tx_changes_nothing() {
    let mut account = Account::new(1);
    account.apply_transaction(make_transaction("deposit", 1, 1, Some("2"))).unwrap();
    let before = account.summary();
    account.apply_transaction(make_transaction("resolve", 1, 1, None)).unwrap();
    assert_eq!(account.summary(), before);
    account.apply_transaction(make_transaction("chargeback", 1, 1, None)).unwrap();
    assert_eq!(account.summary(), before);
    assert!(!account.locked());
}

#[test]
fn locked_account_ignores_everything() {
    let mut account = Account::new(1);
    account.apply_transaction(make_transaction("deposit", 1, 1, Some("2"))).unwrap();
    account.apply_transaction(make_transaction("deposit", 1, 2, Some("1"))).unwrap();
    account.apply_transaction(make_transaction("dispute", 1, 1, None)).unwrap();
    account.apply_transaction(make_transaction("chargeback", 1, 1, None)).unwrap();
    let before = account.summary();
    assert!(before.locked);
    assert_eq!(before.available, units("1"));
    account.apply_transaction(make_transaction("withdrawal", 1, 3, Some("1"))).unwrap();
    account.apply_transaction(make_transaction("dispute", 1, 2, None)).unwrap();
    // even a record of unknown kind is absorbed
    account.apply_transaction(make_transaction("bogus", 1, 4, None)).unwrap();
    assert_eq!(account.summary(), before);
}

#[test]
fn withdrawals_keep_available_non_negative() {
    let mut account = Account::new(1);
    account.apply_transaction(make_transaction("deposit", 1, 1, Some("1.5"))).unwrap();
    account.apply_transaction(make_transaction("withdrawal", 1, 2, Some("1.5"))).unwrap();
    assert_eq!(account.available(), 0);
    account.apply_transaction(make_transaction("withdrawal", 1, 3, Some("0.0001"))).unwrap();
    assert_eq!(account.available(), 0);
    assert_eq!(account.total(), account.available() + account.held());
}

#[test]
fn dispute_of_withdrawal_uses_same_formula() {
    let mut account = Account::new(1);
    account.apply_transaction(make_transaction("deposit", 1, 1, Some("5"))).unwrap();
    account.apply_transaction(make_transaction("withdrawal", 1, 2, Some("2"))).unwrap();
    account.apply_transaction(make_transaction("dispute", 1, 2, None)).unwrap();
    assert_eq!(account.available(), units("1"));
    assert_eq!(account.held(), units("2"));
    assert_eq!(account.total(), units("3"));
}

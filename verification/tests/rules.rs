use payments_engine::decimal::Amount;
use payments_engine::engine::PaymentsEngine;
use payments_engine::types::{Account, InputRecord, TransactionType};

const MAX_MANTISSA: i128 = 79_228_162_514_264_337_593_543_950_335;

fn amount(mantissa: i128, scale: u32) -> Amount {
    Amount::from_parts(mantissa, scale).unwrap()
}

fn record(tx_type: TransactionType, client: u16, tx: u32, amount: Option<Amount>) -> InputRecord {
    InputRecord { tx_type, client, tx, amount }
}

fn deposit(client: u16, tx: u32, a: Amount) -> InputRecord {
    record(TransactionType::Deposit, client, tx, Some(a))
}

fn withdrawal(client: u16, tx: u32, a: Amount) -> InputRecord {
    record(TransactionType::Withdrawal, client, tx, Some(a))
}

fn dispute(client: u16, tx: u32) -> InputRecord {
    record(TransactionType::Dispute, client, tx, None)
}

fn resolve(client: u16, tx: u32) -> InputRecord {
    record(TransactionType::Resolve, client, tx, None)
}

fn chargeback(client: u16, tx: u32) -> InputRecord {
    record(TransactionType::Chargeback, client, tx, None)
}

fn account(engine: &PaymentsEngine, client: u16) -> Option<Account> {
    engine.accounts().into_iter().find(|(c, _)| *c == client).map(|(_, a)| a)
}

fn snapshot(engine: &PaymentsEngine) -> Vec<(u16, (i128, u32), (i128, u32), bool)> {
    let mut v: Vec<(u16, (i128, u32), (i128, u32), bool)> = engine
        .accounts()
        .into_iter()
        .map(|(c, a)| {
            let available = (a.available.mantissa(), a.available.scale());
            let held = (a.held.mantissa(), a.held.scale());
            (c, available, held, a.locked)
        })
        .collect();
    v.sort();
    v
}

#[test]
fn dispute_keeps_the_total() {
    let mut engine = PaymentsEngine::new();
    engine.process(deposit(1, 1, amount(100, 1)));
    engine.process(deposit(1, 2, amount(55, 1)));
    engine.process(dispute(1, 2));
    let a = account(&engine, 1).unwrap();
    assert_eq!(a.available, amount(10, 0));
    assert_eq!(a.held, amount(55, 1));
    assert_eq!(a.total(), amount(155, 1));
}

#[test]
fn resolve_keeps_the_total_and_restores_funds() {
    let mut engine = PaymentsEngine::new();
    engine.process(deposit(1, 1, amount(100, 1)));
    engine.process(withdrawal(1, 2, amount(3, 0)));
    engine.process(dispute(1, 1));
    engine.process(resolve(1, 1));
    let a = account(&engine, 1).unwrap();
    assert_eq!(a.available, amount(7, 0));
    assert_eq!(a.held, Amount::zero());
    assert_eq!(a.total(), amount(7, 0));
}

#[test]
fn chargeback_lowers_the_total_and_locks() {
    let mut engine = PaymentsEngine::new();
    engine.process(deposit(1, 1, amount(100, 1)));
    engine.process(deposit(1, 2, amount(5, 0)));
    engine.process(dispute(1, 1));
    engine.process(chargeback(1, 1));
    let a = account(&engine, 1).unwrap();
    assert_eq!(a.available, amount(5, 0));
    assert_eq!(a.held, Amount::zero());
    assert_eq!(a.total(), amount(5, 0));
    assert!(a.locked);
}

#[test]
fn charged_back_deposit_is_final() {
    let mut engine = PaymentsEngine::new();
    engine.process(deposit(1, 1, amount(10, 0)));
    engine.process(dispute(1, 1));
    engine.process(chargeback(1, 1));
    let before = snapshot(&engine);
    engine.process(dispute(1, 1));
    engine.process(resolve(1, 1));
    engine.process(chargeback(1, 1));
    engine.process(deposit(1, 1, amount(3, 0)));
    assert_eq!(snapshot(&engine), before);
}

#[test]
fn locked_account_is_frozen() {
    let mut engine = PaymentsEngine::new();
    engine.process(deposit(1, 1, amount(10, 0)));
    engine.process(deposit(1, 2, amount(4, 0)));
    engine.process(dispute(1, 1));
    engine.process(chargeback(1, 1));
    let before = snapshot(&engine);
    engine.process(deposit(1, 3, amount(1, 0)));
    engine.process(withdrawal(1, 4, amount(1, 0)));
    assert_eq!(snapshot(&engine), before);
    // the frozen deposit was not stored either: it cannot be disputed
    engine.process(dispute(1, 3));
    assert_eq!(snapshot(&engine), before);
}

#[test]
fn non_positive_or_missing_amounts_are_ignored() {
    let mut engine = PaymentsEngine::new();
    engine.process(deposit(1, 1, amount(-5, 0)));
    engine.process(withdrawal(1, 2, amount(0, 2)));
    engine.process(record(TransactionType::Deposit, 1, 3, None));
    engine.process(record(TransactionType::Withdrawal, 1, 4, None));
    assert!(engine.accounts().is_empty());
}

#[test]
fn withdrawal_with_a_deposit_id_is_ignored() {
    let mut engine = PaymentsEngine::new();
    engine.process(deposit(1, 1, amount(10, 0)));
    engine.process(withdrawal(1, 1, amount(4, 0)));
    assert_eq!(account(&engine, 1).unwrap().available, amount(10, 0));
}

#[test]
fn withdrawals_are_not_stored_and_cannot_be_disputed() {
    let mut engine = PaymentsEngine::new();
    engine.process(deposit(1, 1, amount(10, 0)));
    engine.process(withdrawal(1, 2, amount(4, 0)));
    engine.process(dispute(1, 2));
    let a = account(&engine, 1).unwrap();
    assert_eq!(a.available, amount(6, 0));
    assert_eq!(a.held, Amount::zero());
}

#[test]
fn deposit_reusing_a_withdrawal_id_is_ignored() {
    let mut engine = PaymentsEngine::new();
    engine.process(deposit(1, 1, amount(100, 1)));
    engine.process(withdrawal(1, 2, amount(30, 1)));
    engine.deposit(1, 2, Some(amount(50, 1)));
    let a = account(&engine, 1).unwrap();
    assert_eq!(a.available, amount(70, 1));
    assert_eq!(a.held, Amount::zero());
}

#[test]
fn withdrawal_reusing_a_withdrawal_id_is_ignored() {
    let mut engine = PaymentsEngine::new();
    engine.process(deposit(1, 1, amount(100, 1)));
    engine.process(withdrawal(1, 2, amount(30, 1)));
    engine.withdrawal(1, 2, Some(amount(30, 1)));
    assert_eq!(account(&engine, 1).unwrap().available, amount(70, 1));
}

#[test]
fn ids_of_refused_withdrawals_are_seen() {
    let mut engine = PaymentsEngine::new();
    engine.process(withdrawal(1, 1, amount(5, 0)));
    engine.process(deposit(1, 1, amount(5, 0)));
    let a = account(&engine, 1).unwrap();
    assert_eq!(a.available, Amount::zero());
}

#[test]
fn foreign_resolve_and_chargeback_are_ignored() {
    let mut engine = PaymentsEngine::new();
    engine.process(deposit(1, 1, amount(10, 0)));
    engine.process(deposit(2, 2, amount(3, 0)));
    engine.process(dispute(1, 1));
    let before = snapshot(&engine);
    engine.process(resolve(2, 1));
    engine.process(chargeback(2, 1));
    assert_eq!(snapshot(&engine), before);
    assert!(!account(&engine, 1).unwrap().locked);
}

#[test]
fn dispute_does_not_open_an_account() {
    let mut engine = PaymentsEngine::new();
    engine.process(dispute(7, 1));
    engine.process(resolve(7, 1));
    engine.process(chargeback(7, 1));
    assert!(engine.accounts().is_empty());
}

#[test]
fn held_is_the_total_under_dispute() {
    let mut engine = PaymentsEngine::new();
    engine.process(deposit(1, 1, amount(10, 0)));
    engine.process(deposit(1, 2, amount(25, 1)));
    engine.process(deposit(1, 3, amount(1, 2)));
    engine.process(dispute(1, 1));
    engine.process(dispute(1, 3));
    assert_eq!(account(&engine, 1).unwrap().held, amount(1001, 2));
    engine.process(resolve(1, 1));
    assert_eq!(account(&engine, 1).unwrap().held, amount(1, 2));
    engine.process(chargeback(1, 3));
    assert_eq!(account(&engine, 1).unwrap().held, Amount::zero());
}

#[test]
fn accounts_lists_each_client_once() {
    let mut engine = PaymentsEngine::new();
    for client in 1..=5u16 {
        engine.process(deposit(client, client as u32, amount(client as i128, 0)));
        engine.process(deposit(client, 100 + client as u32, amount(1, 0)));
    }
    let mut clients: Vec<u16> = engine.accounts().into_iter().map(|(c, _)| c).collect();
    clients.sort();
    assert_eq!(clients, vec![1, 2, 3, 4, 5]);
    let rows = engine.output_records().unwrap();
    assert_eq!(rows.len(), 5);
    for row in rows {
        assert_eq!(row.total.0, amount(row.client as i128 + 1, 0));
    }
}

#[test]
fn overflowing_deposit_is_ignored() {
    let mut engine = PaymentsEngine::new();
    engine.process(deposit(1, 1, amount(MAX_MANTISSA, 0)));
    let before = snapshot(&engine);
    engine.process(deposit(1, 2, amount(1, 0)));
    assert_eq!(snapshot(&engine), before);
    // the ignored deposit was not seen: its id is still free
    engine.process(withdrawal(1, 3, amount(1, 0)));
    engine.process(deposit(1, 2, amount(1, 0)));
    assert_eq!(account(&engine, 1).unwrap().available, amount(MAX_MANTISSA, 0));
}

#[test]
fn overflowing_dispute_is_ignored() {
    let mut engine = PaymentsEngine::new();
    engine.process(deposit(1, 1, amount(MAX_MANTISSA, 0)));
    engine.process(dispute(1, 1));
    engine.process(deposit(1, 2, amount(MAX_MANTISSA, 0)));
    let before = snapshot(&engine);
    // held would overflow
    engine.process(dispute(1, 2));
    assert_eq!(snapshot(&engine), before);
}

#[test]
fn process_applies_what_fits() {
    let mut engine = PaymentsEngine::new();
    engine.process(deposit(1, 1, amount(20, 1)));
    engine.process(withdrawal(1, 2, amount(5, 1)));
    engine.process(dispute(1, 1));
    let a = account(&engine, 1).unwrap();
    assert_eq!(a.available, amount(-5, 1));
    assert_eq!(a.held, amount(2, 0));
}

#[test]
fn output_text_lists_every_account() {
    let mut engine = PaymentsEngine::new();
    engine.process(deposit(7, 1, amount(15, 1)));
    engine.process(dispute(7, 1));
    assert_eq!(
        engine.output_text().unwrap(),
        "client,available,held,total,locked\n7,0.0000,1.5000,1.5000,false\n"
    );
    assert_eq!(PaymentsEngine::new().output_text().unwrap(), "client,available,held,total,locked\n");
}

#[test]
fn output_text_refuses_unprintable_accounts() {
    let mut engine = PaymentsEngine::new();
    engine.process(deposit(1, 1, amount(MAX_MANTISSA, 0)));
    assert!(engine.output_records().is_some());
    assert!(engine.output_text().is_none());
}

#[test]
fn output_records_refuse_an_overflowing_total() {
    let mut engine = PaymentsEngine::new();
    engine.process(deposit(1, 1, amount(MAX_MANTISSA, 0)));
    engine.process(dispute(1, 1));
    engine.process(deposit(1, 2, amount(MAX_MANTISSA, 0)));
    assert!(engine.output_records().is_none());
}

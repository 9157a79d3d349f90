use payments_engine::decimal::Amount;
use payments_engine::engine::PaymentsEngine;
use payments_engine::types::{csv_header, InputRecord, TransactionType};
use rust_decimal::Decimal;
use std::collections::HashMap;
use std::str::FromStr;

fn transaction_type(name: &str) -> Option<TransactionType> {
    match name {
        "deposit" => Some(TransactionType::Deposit),
        "withdrawal" => Some(TransactionType::Withdrawal),
        "dispute" => Some(TransactionType::Dispute),
        "resolve" => Some(TransactionType::Resolve),
        "chargeback" => Some(TransactionType::Chargeback),
        _ => None,
    }
}

fn parse_record(fields: &csv::StringRecord) -> Option<InputRecord> {
    let tx_type = transaction_type(fields.get(0)?)?;
    let client: u16 = fields.get(1)?.parse().ok()?;
    let tx: u32 = fields.get(2)?.parse().ok()?;
    let amount = match fields.get(3) {
        Some(text) if !text.is_empty() => {
            let d = Decimal::from_str(text).ok()?;
            Some(Amount::from_parts(d.mantissa(), d.scale())?)
        }
        _ => None,
    };
    Some(InputRecord { tx_type, client, tx, amount })
}

/// Runs the engine over CSV input the way the program does, and returns its
/// output text.
fn run_engine(input: &str) -> String {
    let mut reader = csv::ReaderBuilder::new()
        .trim(csv::Trim::All)
        .flexible(true)
        .from_reader(input.as_bytes());
    let mut engine = PaymentsEngine::new();
    for result in reader.records() {
        let fields = result.expect("readable record");
        if let Some(record) = parse_record(&fields) {
            engine.process(record);
        }
    }
    let out = engine.output_text().expect("printable accounts");
    assert!(out.starts_with(&csv_header()));
    out
}

/// Parse CSV output into a map of client_id -> (available, held, total, locked)
fn parse_output(output: &str) -> HashMap<u16, (String, String, String, bool)> {
    let mut map = HashMap::new();
    for line in output.lines().skip(1) {
        if line.trim().is_empty() {
            continue;
        }
        let parts: Vec<&str> = line.split(',').collect();
        assert_eq!(parts.len(), 5, "expected 5 columns, got: {}", line);
        let client: u16 = parts[0].trim().parse().unwrap();
        let available = parts[1].trim().to_string();
        let held = parts[2].trim().to_string();
        let total = parts[3].trim().to_string();
        let locked: bool = parts[4].trim().parse().unwrap();
        map.insert(client, (available, held, total, locked));
    }
    map
}

const SAMPLE: &str = "type, client, tx, amount
deposit, 1, 1, 1.0
deposit, 2, 2, 2.0
deposit, 1, 3, 2.0
withdrawal, 1, 4, 1.5
withdrawal, 2, 5, 3.0
";

const DISPUTE_LIFECYCLE: &str = "type,client,tx,amount
deposit,1,1,100.0
deposit,1,2,50.0
withdrawal,1,3,30.0
dispute,1,1,
resolve,1,1,
";

const CHARGEBACK_LIFECYCLE: &str = "type,client,tx,amount
deposit,1,1,50.0
deposit,1,2,25.0
dispute,1,1,
chargeback,1,1,
deposit,1,3,10.0
withdrawal,1,4,5.0
";

const MULTIPLE_CLIENTS: &str = "type,client,tx,amount
deposit,1,1,100.0
deposit,2,2,200.0
deposit,3,3,300.0
withdrawal,1,4,50.0
withdrawal,2,5,100.0
dispute,3,3,
deposit,2,6,50.0
resolve,3,3,
";

const EMPTY: &str = "type,client,tx,amount
";

const WHITESPACE: &str = "type,   client,  tx,   amount
  deposit  ,   1  ,  1  ,   10.5678
deposit,1,   2,5.0000
  withdrawal,  1,3 ,  2.1234
";

#[test]
fn integration_test_pdf_example() {
    let output = run_engine(SAMPLE);
    let accounts = parse_output(&output);

    assert_eq!(accounts.len(), 2);

    let (avail, held, total, locked) = &accounts[&1];
    assert_eq!(avail, "1.5000");
    assert_eq!(held, "0.0000");
    assert_eq!(total, "1.5000");
    assert!(!locked);

    let (avail, held, total, locked) = &accounts[&2];
    assert_eq!(avail, "2.0000");
    assert_eq!(held, "0.0000");
    assert_eq!(total, "2.0000");
    assert!(!locked);
}

#[test]
fn test_dispute_resolve_lifecycle() {
    let output = run_engine(DISPUTE_LIFECYCLE);
    let accounts = parse_output(&output);

    // deposit 100 + deposit 50 - withdrawal 30 = 120
    // dispute on tx1 (100) then resolve → funds restored
    let (avail, held, total, locked) = &accounts[&1];
    assert_eq!(avail, "120.0000");
    assert_eq!(held, "0.0000");
    assert_eq!(total, "120.0000");
    assert!(!locked);
}

#[test]
fn test_chargeback_freezes_account() {
    let output = run_engine(CHARGEBACK_LIFECYCLE);
    let accounts = parse_output(&output);

    // deposit 50 + deposit 25 = 75 available
    // dispute tx1 (50) → available=25, held=50
    // chargeback tx1 → held=0, total=25, locked=true
    // deposit 10 → rejected (locked)
    // withdrawal 5 → rejected (locked)
    let (avail, held, total, locked) = &accounts[&1];
    assert_eq!(avail, "25.0000");
    assert_eq!(held, "0.0000");
    assert_eq!(total, "25.0000");
    assert!(locked);
}

#[test]
fn test_multiple_clients() {
    let output = run_engine(MULTIPLE_CLIENTS);
    let accounts = parse_output(&output);

    assert_eq!(accounts.len(), 3);

    // Client 1: 100 - 50 = 50
    let (avail, _, total, locked) = &accounts[&1];
    assert_eq!(avail, "50.0000");
    assert_eq!(total, "50.0000");
    assert!(!locked);

    // Client 2: 200 - 100 + 50 = 150
    let (avail, _, total, locked) = &accounts[&2];
    assert_eq!(avail, "150.0000");
    assert_eq!(total, "150.0000");
    assert!(!locked);

    // Client 3: 300, dispute+resolve → back to 300
    let (avail, held, total, locked) = &accounts[&3];
    assert_eq!(avail, "300.0000");
    assert_eq!(held, "0.0000");
    assert_eq!(total, "300.0000");
    assert!(!locked);
}

#[test]
fn test_empty_file() {
    let output = run_engine(EMPTY);
    let accounts = parse_output(&output);
    assert_eq!(accounts.len(), 0);
}

#[test]
fn test_whitespace_handling() {
    let output = run_engine(WHITESPACE);
    let accounts = parse_output(&output);

    // 10.5678 + 5.0000 - 2.1234 = 13.4444
    let (avail, _, total, _) = &accounts[&1];
    assert_eq!(avail, "13.4444");
    assert_eq!(total, "13.4444");
}

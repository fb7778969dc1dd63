use ledger::amount::Amount;
use ledger::csv::{format_account_row, format_amount_into, parse_amount, parse_record};
use ledger::model::{Collect, TransactionError, TransactionType};
use ledger::registry::Registry;
use ledger::transaction::AccountHandler;

fn amt(s: &str) -> Amount {
    parse_amount(s.as_bytes()).unwrap()
}

fn fmt(a: Amount) -> Vec<u8> {
    let mut out: Vec<u8> = Vec::new();
    format_amount_into(&mut out, a);
    out
}

#[test]
fn test_parse_amount_literals() {
    assert_eq!(amt("140.12344").units, 14_012_344_000);
    assert_eq!(amt("0").units, 0);
    assert_eq!(amt("7").units, 700_000_000);
    assert_eq!(amt("0.00000001").units, 1);
    assert!(parse_amount(b"").is_none());
    assert!(parse_amount(b".5").is_none());
    assert!(parse_amount(b"1.").is_none());
    assert!(parse_amount(b"1.123456789").is_none());
    assert!(parse_amount(b"-1").is_none());
    assert!(parse_amount(b"1..2").is_none());
    assert!(parse_amount(b"12x").is_none());
    assert!(parse_amount(b"999999999999999999999").is_none());
}

#[test]
fn test_format_amount_literals() {
    assert_eq!(fmt(amt("0")), b"0".to_vec());
    assert_eq!(fmt(amt("140.1234")), b"140.1234".to_vec());
    assert_eq!(fmt(amt("100.10")), b"100.1".to_vec());
    assert_eq!(fmt(amt("240.26")), b"240.26".to_vec());
    assert_eq!(fmt(amt("0.00000001")), b"0.00000001".to_vec());
}

#[test]
fn test_parse_record_fields() {
    let t = parse_record(b"deposit, 1, 7, 100.12").unwrap();
    assert!(matches!(t.transaction_type, TransactionType::Deposit));
    assert_eq!(t.client, 1);
    assert_eq!(t.tx, 7);
    assert_eq!(t.amount.unwrap(), amt("100.12"));

    let t = parse_record(b"WithDrawal,2,9,40").unwrap();
    assert!(matches!(t.transaction_type, TransactionType::Withdrawal));
    assert_eq!(t.amount.unwrap(), amt("40"));

    let t = parse_record(b"dispute, 1, 7,").unwrap();
    assert!(matches!(t.transaction_type, TransactionType::Dispute));
    assert!(t.amount.is_none());

    let t = parse_record(b"resolve,1,7").unwrap();
    assert!(matches!(t.transaction_type, TransactionType::Resolve));

    let t = parse_record(b"CHARGEBACK,65535,4294967295").unwrap();
    assert!(matches!(t.transaction_type, TransactionType::Chargeback));
    assert_eq!(t.client, 65535);
    assert_eq!(t.tx, 4294967295);
}

#[test]
fn test_parse_record_malformed() {
    assert!(parse_record(b"type,client,tx,amount").is_none());
    assert!(parse_record(b"").is_none());
    assert!(parse_record(b"deposit,1").is_none());
    assert!(parse_record(b"deposit,1,2,3,4").is_none());
    assert!(parse_record(b"deposit,65536,1,1").is_none());
    assert!(parse_record(b"deposit,1,4294967296,1").is_none());
    assert!(parse_record(b"deposit,1,1,1.2.3").is_none());
    assert!(parse_record(b"loan,1,1,1").is_none());
}

#[test]
fn test_handler_missing_amount() {
    let mut h = AccountHandler::new(1);
    let t = parse_record(b"deposit,1,1").unwrap();
    let r = h.handle(&t).unwrap();
    assert!(matches!(r, Err(TransactionError::InvalidOperation)));
}

#[test]
fn test_handler_collect_is_terminal() {
    let mut h = AccountHandler::new(3);
    let t = parse_record(b"deposit,3,1,5.5").unwrap();
    assert!(matches!(h.handle(&t), Some(Ok(()))));
    let snap = h.collect(Collect).unwrap();
    assert_eq!(snap.client(), 3);
    assert_eq!(snap.total(), amt("5.5"));
    assert!(h.collect(Collect).is_none());
}

#[test]
fn test_registry_round_trip() {
    let mut reg = Registry::new();
    let lines: Vec<&[u8]> = vec![
        b"deposit, 1, 1, 100.12",
        b"deposit, 2, 2, 50",
        b"deposit, 1, 3, 140.14",
        b"dispute, 1, 3,",
        b"withdraw-bad-line",
        b"withdrawal, 2, 4, 10",
        b"chargeback, 1, 3,",
    ];
    for line in lines {
        if let Some(t) = parse_record(line) {
            let outcome = reg.route(&t).unwrap();
            let _ = outcome;
        }
    }
    let snaps = reg.collect_all();
    assert_eq!(snaps.len(), 2);
    assert_eq!(snaps[0].client(), 1);
    assert_eq!(snaps[1].client(), 2);
    assert_eq!(snaps[0].available(), amt("100.12"));
    assert_eq!(snaps[0].held(), amt("0"));
    assert_eq!(snaps[0].total(), amt("100.12"));
    assert!(snaps[0].locked());
    assert_eq!(snaps[1].total(), amt("40"));
    assert!(!snaps[1].locked());

    assert_eq!(format_account_row(&snaps[0]), b"1,100.12,0,100.12,true".to_vec());
    assert_eq!(format_account_row(&snaps[1]), b"2,40,0,40,false".to_vec());
}

#[test]
fn test_registry_unknown_tx_is_logged_not_fatal() {
    let mut reg = Registry::new();
    let t = parse_record(b"resolve,9,100").unwrap();
    let r = reg.route(&t).unwrap();
    assert!(matches!(r, Err(TransactionError::TransactionNotFound)));
    let snaps = reg.collect_all();
    assert_eq!(snaps.len(), 1);
    assert_eq!(snaps[0].client(), 9);
    assert_eq!(snaps[0].total(), amt("0"));
}

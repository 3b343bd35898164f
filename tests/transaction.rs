use ledger::decimal::{parse_amount, parse_unsigned};
use ledger::transaction::{Transaction, TransactionType};

#[test]
fn hello_world_test() {
    println!("Hello World Test");
}

#[test]
fn should_parse_valid_transaction_type() {
    let tx_type = TransactionType::parse("deposit");
    assert!(matches!(tx_type.ok().unwrap(), TransactionType::Deposit));
}

#[test]
fn should_return_err_if_invalid_transaction_type() {
    let tx_type = TransactionType::parse("does_not_exist");
    assert!(tx_type.is_err());
}

#[test]
fn shound_return_invalid_if_deposit_has_no_amount() {
    let tx = Transaction {
        transaction_type: TransactionType::Deposit,
        client: 100,
        tx: 100,
        amount: None,
        disputed: false,
    };

    assert!(tx.is_valid() == false);
}

#[test]
fn shound_return_invalid_if_withdrawals_has_no_amount() {
    let tx = Transaction {
        transaction_type: TransactionType::Withdrawal,
        client: 100,
        tx: 100,
        amount: None,
        disputed: false,
    };

    assert!(tx.is_valid() == false);
}

#[test]
fn shound_return_valid_if_deposit_has_no_amount() {
    let tx = Transaction {
        transaction_type: TransactionType::Deposit,
        client: 100,
        tx: 100,
        amount: Some(1005 * 10000),
        disputed: false,
    };

    assert!(tx.is_valid());
}

#[test]
fn every_keyword_parses_and_case_matters() {
    assert_eq!(TransactionType::parse("withdrawal"), Ok(TransactionType::Withdrawal));
    assert_eq!(TransactionType::parse("dispute"), Ok(TransactionType::Dispute));
    assert_eq!(TransactionType::parse("resolve"), Ok(TransactionType::Resolve));
    assert_eq!(TransactionType::parse("chargeback"), Ok(TransactionType::Chargeback));
    assert!(TransactionType::parse("Deposit").is_err());
    assert!(TransactionType::parse("deposit ").is_err());
    assert!(TransactionType::parse("").is_err());
}

#[test]
fn claims_are_valid_without_amount() {
    let tx = Transaction {
        transaction_type: TransactionType::Dispute,
        client: 1,
        tx: 1,
        amount: None,
        disputed: false,
    };
    assert!(tx.is_valid());
}

#[test]
fn set_and_remove_disputed_flag() {
    let mut tx = Transaction {
        transaction_type: TransactionType::Deposit,
        client: 1,
        tx: 1,
        amount: Some(1),
        disputed: false,
    };
    tx.set_disputed();
    assert!(tx.disputed);
    tx.set_disputed();
    assert!(tx.disputed);
    tx.remove_disputed();
    assert!(!tx.disputed);
}

#[test]
fn amounts_parse_to_ten_thousandths() {
    assert_eq!(parse_amount("1.5"), Some(15000));
    assert_eq!(parse_amount("100"), Some(1_000_000));
    assert_eq!(parse_amount("0.0001"), Some(1));
    assert_eq!(parse_amount("2.25"), Some(22500));
    assert_eq!(parse_amount(".5"), Some(5000));
    assert_eq!(parse_amount("7."), Some(70000));
    assert_eq!(parse_amount("922337203685477.5807"), Some(i64::MAX));
    assert_eq!(parse_amount("+5"), Some(50000));
    assert_eq!(parse_amount("+.5"), Some(5000));
}

#[test]
fn extra_fraction_digits_are_truncated() {
    assert_eq!(parse_amount("1.23456"), Some(12345));
    assert_eq!(parse_amount("0.99999999"), Some(9999));
    assert_eq!(parse_amount("922337203685477.58079"), Some(i64::MAX));
    assert_eq!(parse_amount("1.23456x"), None);
}

#[test]
fn malformed_amounts_are_rejected() {
    assert_eq!(parse_amount(""), None);
    assert_eq!(parse_amount("."), None);
    assert_eq!(parse_amount("1.2.3"), None);
    assert_eq!(parse_amount("-1"), None);
    assert_eq!(parse_amount("+"), None);
    assert_eq!(parse_amount("++1"), None);
    assert_eq!(parse_amount("abc"), None);
    assert_eq!(parse_amount("922337203685477.5808"), None);
    assert_eq!(parse_amount("99999999999999999999"), None);
}

#[test]
fn unsigned_ids_parse_within_bounds() {
    assert_eq!(parse_unsigned("65535", 65535), Some(65535));
    assert_eq!(parse_unsigned("65536", 65535), None);
    assert_eq!(parse_unsigned("+42", 65535), Some(42));
    assert_eq!(parse_unsigned("+", 65535), None);
    assert_eq!(parse_unsigned("", 65535), None);
    assert_eq!(parse_unsigned("-1", 65535), None);
    assert_eq!(parse_unsigned("4294967295", 4294967295), Some(4294967295));
    assert_eq!(parse_unsigned("00000000000000000000000007", 10), Some(7));
}

#[test]
fn from_fields_builds_transaction() {
    let t = Transaction::from_fields("deposit", "1", "2", Some("3.5")).unwrap();
    assert_eq!(t.transaction_type, TransactionType::Deposit);
    assert_eq!(t.client, 1);
    assert_eq!(t.tx, 2);
    assert_eq!(t.amount, Some(35000));
    assert!(!t.disputed);
    let t = Transaction::from_fields("deposit", "1", "2", Some("x")).unwrap();
    assert_eq!(t.amount, None);
    assert!(!t.is_valid());
    assert!(Transaction::from_fields("deposit", "x", "2", None).is_err());
    assert!(Transaction::from_fields("nope", "1", "2", None).is_err());
    assert!(Transaction::from_fields("deposit", "1", "70000000000", None).is_err());
}

#[test]
fn record_fields_are_trimmed() {
    let record = csv::StringRecord::from(vec!["withdrawal", " 7 ", " 12 ", " 0.25 "]);
    let t = Transaction::parse(record).unwrap();
    assert_eq!(t.transaction_type, TransactionType::Withdrawal);
    assert_eq!(t.client, 7);
    assert_eq!(t.tx, 12);
    assert_eq!(t.amount, Some(2500));
}

#[test]
fn record_without_amount_field() {
    let record = csv::StringRecord::from(vec!["dispute", "7", "12"]);
    let t = Transaction::parse(record).unwrap();
    assert_eq!(t.transaction_type, TransactionType::Dispute);
    assert_eq!(t.amount, None);
    let record = csv::StringRecord::from(vec!["deposit", "7", "12", "1", "extra"]);
    let t = Transaction::parse(record).unwrap();
    assert_eq!(t.amount, None);
}

#[test]
fn short_or_malformed_records_fail() {
    assert!(Transaction::parse(csv::StringRecord::from(vec!["deposit", "1"])).is_err());
    assert!(Transaction::parse(csv::StringRecord::from(vec!["bogus", "1", "2", "3"])).is_err());
    assert!(Transaction::parse(csv::StringRecord::from(vec!["deposit", "a", "2", "3"])).is_err());
    assert!(Transaction::parse(csv::StringRecord::from(vec!["deposit", "1", "b", "3"])).is_err());
    // the kind is matched without trimming
    assert!(Transaction::parse(csv::StringRecord::from(vec![" deposit", "1", "2", "3"])).is_err());
}

#[test]
fn amounts_split_for_rendering() {
    assert_eq!(ledger::decimal::decimal_parts(705000), (false, 70, 5000));
    assert_eq!(ledger::decimal::decimal_parts(-30001), (true, 3, 1));
    assert_eq!(ledger::decimal::decimal_parts(0), (false, 0, 0));
    assert_eq!(ledger::decimal::decimal_parts(i64::MIN), (true, 922337203685477, 5808));
}

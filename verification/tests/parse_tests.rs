use payments::parse::parse_amount;
use payments::parse_transactions;
use payments::Transaction;
use payments::TransactionType;

pub fn deserialize_single_transaction(serialized_tx: &str) -> Result<Transaction, String> {
    let header: &str = "type,client,tx,amount";
    let csv_file: String = format!("{}\n{}", header, serialized_tx);

    let transactions = parse_transactions(&csv_file).expect("Could not deserialize transaction.");
    for tx in transactions {
        return Ok(tx);
    }
    Err("Did not deserialize any transaction".to_string())
}

#[test]
pub fn test_parse_deposit_transaction() {
    let serialized_tx: &str = "deposit,1,1,1.0";
    let tx: Transaction = deserialize_single_transaction(serialized_tx).unwrap();
    assert_eq!(*tx.get_type(), TransactionType::Deposit);
    assert_eq!(tx.client_id, 1);
    assert_eq!(tx.transaction_id, 1);
    assert_eq!(tx.amount, Some(parse_amount("1.0").unwrap()));
}

#[test]
#[should_panic]
pub fn test_parse_invalid_transaction_type() {
    let serialized_tx: &str = "invalid,1,1,1.0";
    let _ = deserialize_single_transaction(serialized_tx);
}

#[test]
pub fn test_parse_with_spaces() {
    let serialized_tx: &str = "deposit, 1, 1, 1.0";
    let tx: Transaction = deserialize_single_transaction(serialized_tx).unwrap();
    assert_eq!(*tx.get_type(), TransactionType::Deposit);
}

#[test]
pub fn test_parse_no_amount() {
    let serialized_tx: &str = "chargeback, 1, 1,";
    let tx: Transaction = deserialize_single_transaction(serialized_tx).unwrap();
    assert_eq!(*tx.get_type(), TransactionType::Chargeback);
    assert_eq!(tx.amount, None);
    assert_eq!(tx.client_id, 1);
}

#[test]
pub fn test_parse_decimals() {
    let serialized_tx: &str = "withdrawal, 1, 1, 3.5545";
    let tx: Transaction = deserialize_single_transaction(serialized_tx).unwrap();
    assert_eq!(*tx.get_type(), TransactionType::Withdrawal);
    assert_eq!(tx.amount, Some(parse_amount("3.5545").unwrap()));
}

use payments::account::Account;
use payments::amount::Amount;
use payments::parse::parse_amount;
use payments::transaction::Transaction;
use payments::transaction::TransactionType;

fn amount(s: &str) -> Amount {
    parse_amount(s).unwrap()
}

fn units(s: &str) -> i128 {
    amount(s).units() as i128
}

/// Gives an account a starting available balance through a deposit with a
/// transaction id no other record in the test uses.
fn fund(account: &mut Account, s: &str) {
    let tx = Transaction {
        kind: TransactionType::Deposit,
        client_id: 1,
        transaction_id: 999_999,
        amount: Some(amount(s)),
    };
    let _ = account.process_transaction(tx);
}

#[test]
pub fn test_deposit() {
    let mut account = Account::new(1);
    let tx = Transaction {
        kind: TransactionType::Deposit,
        client_id: 1,
        transaction_id: 1,
        amount: Some(amount("100.0")),
    };
    let _ = account.process_transaction(tx);
    assert_eq!(account.available(), units("100.0"));
}

#[test]
pub fn test_duplicate_deposit() {
    let mut account = Account::new(1);
    let tx = Transaction {
        kind: TransactionType::Deposit,
        client_id: 1,
        transaction_id: 1,
        amount: Some(amount("100.0")),
    };
    let _ = account.process_transaction(tx.clone());
    // A transaction that was already processed is ignored.
    let _ = account.process_transaction(tx);
    assert_eq!(account.available(), units("100.0"));
}

#[test]
pub fn test_withdraw() {
    let mut account = Account::new(1);
    fund(&mut account, "100.0");

    let tx = Transaction {
        kind: TransactionType::Withdrawal,
        client_id: 1,
        transaction_id: 1,
        amount: Some(amount("50.0")),
    };
    let _ = account.process_transaction(tx);
    assert_eq!(account.available(), units("50.0"));
}

#[test]
pub fn test_duplicate_withdraw() {
    let mut account = Account::new(1);
    fund(&mut account, "100.0");

    let tx = Transaction {
        kind: TransactionType::Withdrawal,
        client_id: 1,
        transaction_id: 1,
        amount: Some(amount("50.0")),
    };
    let _ = account.process_transaction(tx.clone());
    // A transaction that was already processed is ignored.
    let _ = account.process_transaction(tx);
    assert_eq!(account.available(), units("50.0"));
}

#[test]
pub fn test_withdraw_insufficient_funds() {
    let mut account = Account::new(1);
    fund(&mut account, "100.0");

    let tx = Transaction {
        kind: TransactionType::Withdrawal,
        client_id: 1,
        transaction_id: 1,
        amount: Some(amount("150.0")),
    };
    let _ = account.process_transaction(tx);
    assert_eq!(account.available(), units("100.0"));
}

#[test]
pub fn test_dispute() {
    let mut account = Account::new(1);

    let tx = Transaction {
        kind: TransactionType::Deposit,
        client_id: 1,
        transaction_id: 1,
        amount: Some(amount("150.0")),
    };
    let dispute_tx = Transaction {
        kind: TransactionType::Dispute,
        client_id: 1,
        transaction_id: 1,
        amount: None,
    };
    let _ = account.process_transaction(tx);
    let _ = account.process_transaction(dispute_tx);
    assert_eq!(account.available(), units("0.0"));
    assert_eq!(account.held(), units("150.0"));
}

#[test]
pub fn test_dispute_invalid_transaction() {
    let mut account = Account::new(1);

    let tx = Transaction {
        kind: TransactionType::Deposit,
        client_id: 1,
        transaction_id: 1,
        amount: Some(amount("150.0")),
    };
    let dispute_tx = Transaction {
        kind: TransactionType::Dispute,
        client_id: 1,
        transaction_id: 2,
        amount: None,
    };
    let _ = account.process_transaction(tx);
    let _ = account.process_transaction(dispute_tx);
    assert_eq!(account.available(), units("150.0"));
    assert_eq!(account.held(), units("0.0"));
}

#[test]
pub fn test_resolve() {
    let mut account = Account::new(1);

    let tx = Transaction {
        kind: TransactionType::Deposit,
        client_id: 1,
        transaction_id: 1,
        amount: Some(amount("150.0")),
    };
    let dispute_tx = Transaction {
        kind: TransactionType::Dispute,
        client_id: 1,
        transaction_id: 1,
        amount: Some(amount("150.0")),
    };
    let resolve_tx = Transaction {
        kind: TransactionType::Resolve,
        client_id: 1,
        transaction_id: 1,
        amount: None,
    };
    let _ = account.process_transaction(tx);
    let _ = account.process_transaction(dispute_tx);
    let _ = account.process_transaction(resolve_tx);
    assert_eq!(account.available(), units("150.0"));
    assert_eq!(account.held(), units("0.0"));
}

#[test]
pub fn test_resolve_invalid_transaction() {
    let mut account = Account::new(1);
    fund(&mut account, "100.0");

    let resolve_tx = Transaction {
        kind: TransactionType::Resolve,
        client_id: 1,
        transaction_id: 7,
        amount: None,
    };
    let _ = account.process_transaction(resolve_tx);
    assert_eq!(account.available(), units("100.0"));
    assert_eq!(account.held(), units("0.0"));
}

#[test]
pub fn test_chargeback() {
    let mut account = Account::new(1);

    let tx = Transaction {
        kind: TransactionType::Deposit,
        client_id: 1,
        transaction_id: 1,
        amount: Some(amount("150.0")),
    };
    let dispute_tx = Transaction {
        kind: TransactionType::Dispute,
        client_id: 1,
        transaction_id: 1,
        amount: None,
    };
    let chargeback_tx = Transaction {
        kind: TransactionType::Chargeback,
        client_id: 1,
        transaction_id: 1,
        amount: None,
    };
    let _ = account.process_transaction(tx);
    let _ = account.process_transaction(dispute_tx);
    let _ = account.process_transaction(chargeback_tx);
    assert_eq!(account.available(), units("0.0"));
    assert_eq!(account.held(), units("0.0"));
    assert_eq!(account.locked(), true);
}

#[test]
pub fn test_chargeback_invalid_transaction() {
    let mut account = Account::new(1);
    fund(&mut account, "100.0");

    let chargeback_tx = Transaction {
        kind: TransactionType::Chargeback,
        client_id: 1,
        transaction_id: 1,
        amount: None,
    };
    let _ = account.process_transaction(chargeback_tx);
    assert_eq!(account.available(), units("100.0"));
    assert_eq!(account.held(), units("0.0"));
    assert_eq!(account.locked(), false);
}

#[test]
pub fn test_precision() {
    let mut account = Account::new(1);
    let tenth = amount("0.1");

    for i in 0..1_000_000u32 {
        let deposit_tx = Transaction {
            kind: TransactionType::Deposit,
            client_id: 1,
            transaction_id: i,
            amount: Some(tenth),
        };
        let _ = account.process_transaction(deposit_tx);
    }

    assert_eq!(account.available(), units("100000.0"));
}

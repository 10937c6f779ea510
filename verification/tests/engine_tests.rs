use payments::account::Account;
use payments::amount::Amount;
use payments::parse::parse_amount;
use payments::parse_transactions;
use payments::render_units;
use payments::Bank;
use payments::ParseError;
use payments::Rejection;
use payments::Transaction;
use payments::TransactionType;

fn amount(s: &str) -> Amount {
    parse_amount(s).unwrap()
}

fn units(s: &str) -> i128 {
    amount(s).units() as i128
}

#[test]
fn test_stream_deposit_withdraw() {
    // deposit 100, withdraw 50, then an overdraft that must be rejected
    let input = "type,client,tx,amount\n\
                 deposit,1,1,100.0\n\
                 withdrawal,1,2,50.0\n\
                 withdrawal,1,3,100.0\n";
    let mut bank = Bank::new();
    bank.process_transactions(input).unwrap();
    let account = bank.get_account(1).unwrap();
    assert_eq!(account.available(), units("50.0"));
    assert_eq!(account.held(), 0);
    assert_eq!(account.get_total(), units("50.0"));
    assert!(!account.locked());
    assert_eq!(bank.len(), 1);
}

#[test]
fn test_stream_dispute_resolve() {
    let input = "type,client,tx,amount\n\
                 deposit,2,4,150.0\n\
                 dispute,2,4,\n";
    let mut bank = Bank::new();
    bank.process_transactions(input).unwrap();
    {
        let account = bank.get_account(2).unwrap();
        assert_eq!(account.available(), 0);
        assert_eq!(account.held(), units("150.0"));
        assert_eq!(account.get_total(), units("150.0"));
    }
    bank.process_transactions("type,client,tx,amount\nresolve,2,4,\n").unwrap();
    let account = bank.get_account(2).unwrap();
    assert_eq!(account.available(), units("150.0"));
    assert_eq!(account.held(), 0);
}

#[test]
fn test_stream_chargeback_locks() {
    let input = "type,client,tx,amount\n\
                 deposit,2,4,150.0\n\
                 dispute,2,4,\n\
                 chargeback,2,4,\n\
                 deposit,2,5,10.0\n";
    let mut bank = Bank::new();
    bank.process_transactions(input).unwrap();
    let account = bank.get_account(2).unwrap();
    assert_eq!(account.available(), 0);
    assert_eq!(account.held(), 0);
    assert_eq!(account.get_total(), 0);
    assert!(account.locked());
}

#[test]
fn test_locked_account_rejects() {
    let mut account = Account::new(2);
    let deposit = Transaction {
        kind: TransactionType::Deposit,
        client_id: 2,
        transaction_id: 4,
        amount: Some(amount("150.0")),
    };
    let dispute = Transaction {
        kind: TransactionType::Dispute,
        client_id: 2,
        transaction_id: 4,
        amount: None,
    };
    let chargeback = Transaction {
        kind: TransactionType::Chargeback,
        client_id: 2,
        transaction_id: 4,
        amount: None,
    };
    assert_eq!(account.process_transaction(deposit), Ok(()));
    assert_eq!(account.process_transaction(dispute), Ok(()));
    assert_eq!(account.process_transaction(chargeback), Ok(()));
    let late = Transaction {
        kind: TransactionType::Deposit,
        client_id: 2,
        transaction_id: 5,
        amount: Some(amount("10.0")),
    };
    assert_eq!(account.process_transaction(late), Err(Rejection::AccountLocked));
    assert_eq!(account.available(), 0);
    assert_eq!(account.held(), 0);
}

#[test]
fn test_insufficient_funds_rejection() {
    let mut account = Account::new(1);
    let withdraw = Transaction {
        kind: TransactionType::Withdrawal,
        client_id: 1,
        transaction_id: 1,
        amount: Some(amount("1.0")),
    };
    assert_eq!(account.process_transaction(withdraw), Err(Rejection::InsufficientFunds));
    assert_eq!(account.available(), 0);
}

#[test]
fn test_disputed_withdrawal_can_go_negative() {
    // Disputing a deposit whose funds were already withdrawn leaves the
    // available balance negative; a chargeback then locks in the loss.
    let input = "type,client,tx,amount\n\
                 deposit,7,1,100.0\n\
                 withdrawal,7,2,100.0\n\
                 dispute,7,1,\n\
                 chargeback,7,1,\n";
    let mut bank = Bank::new();
    bank.process_transactions(input).unwrap();
    let account = bank.get_account(7).unwrap();
    assert_eq!(account.available(), -units("100.0"));
    assert_eq!(account.held(), 0);
    assert_eq!(account.get_total(), -units("100.0"));
    assert!(account.locked());
}

#[test]
fn test_total_is_available_plus_held() {
    let input = "type,client,tx,amount\n\
                 deposit,3,1,10.5\n\
                 deposit,3,2,4.25\n\
                 dispute,3,2,\n";
    let mut bank = Bank::new();
    bank.process_transactions(input).unwrap();
    let account = bank.get_account(3).unwrap();
    assert_eq!(account.get_total(), account.available() + account.held());
    assert_eq!(account.available(), units("10.5"));
    assert_eq!(account.held(), units("4.25"));
}

#[test]
fn test_report_output() {
    let input = "type,client,tx,amount\n\
                 deposit,2,1,2.5\n\
                 deposit,1,2,100.0\n\
                 deposit,3,3,1.0\n\
                 dispute,3,3,\n\
                 chargeback,3,3,\n\
                 withdrawal,1,4,0.0001\n";
    let mut bank = Bank::new();
    bank.process_transactions(input).unwrap();
    let report = bank.report();
    assert_eq!(
        report,
        "client, available, held, total, locked\n\
         1, 99.9999, 0, 99.9999, false\n\
         2, 2.5, 0, 2.5, false\n\
         3, 0, 0, 0, true\n"
    );
}

#[test]
fn test_render_units_values() {
    assert_eq!(render_units(0), "0");
    assert_eq!(render_units(units("1.0")), "1");
    assert_eq!(render_units(units("1.5")), "1.5");
    assert_eq!(render_units(units("1.234")), "1.234");
    assert_eq!(render_units(units("3.5545")), "3.5545");
    assert_eq!(render_units(1), "0.0001");
    assert_eq!(render_units(100), "0.01");
    assert_eq!(render_units(-units("1.5")), "-1.5");
    assert_eq!(render_units(-1), "-0.0001");
    assert_eq!(render_units(units("100000.0")), "100000");
}

#[test]
fn test_parse_error_variants() {
    // the reader refuses rows whose field count differs from the header's
    assert_eq!(
        parse_transactions("type,client,tx,amount\ndeposit,1,1\n"),
        Err(ParseError::MalformedInput)
    );
    // a consistent three-field layout reaches the record parser instead
    assert_eq!(
        parse_transactions("type,client,tx\ndeposit,1,1\n"),
        Err(ParseError::WrongFieldCount)
    );
    assert_eq!(
        parse_transactions("type,client,tx,amount\ninvalid,1,1,1.0\n"),
        Err(ParseError::UnknownKind)
    );
    assert_eq!(
        parse_transactions("type,client,tx,amount\ndeposit,65536,1,1.0\n"),
        Err(ParseError::BadClient)
    );
    assert_eq!(
        parse_transactions("type,client,tx,amount\ndeposit,1,tx,1.0\n"),
        Err(ParseError::BadTransactionId)
    );
    assert_eq!(
        parse_transactions("type,client,tx,amount\ndeposit,1,1,1.23456\n"),
        Err(ParseError::BadAmount)
    );
    assert_eq!(
        parse_transactions("type,client,tx,amount\ndeposit,1,1,\n"),
        Err(ParseError::MissingAmount)
    );
}

#[test]
fn test_parse_amount_grammar() {
    assert_eq!(parse_amount("0.1").unwrap().units(), 1_000);
    assert_eq!(parse_amount("3.5545").unwrap().units(), 35_545);
    assert_eq!(parse_amount("100").unwrap().units(), 1_000_000);
    assert_eq!(parse_amount("007.5").unwrap().units(), 75_000);
    assert!(parse_amount("").is_none());
    assert!(parse_amount(".5").is_none());
    assert!(parse_amount("1.").is_none());
    assert!(parse_amount("1.23456").is_none());
    assert!(parse_amount("-1.0").is_none());
    assert!(parse_amount("1.2.3").is_none());
    // the largest representable amount, and one unit over it
    assert_eq!(
        parse_amount("100000000000000").unwrap().units(),
        payments::MAX_AMOUNT_UNITS
    );
    assert!(parse_amount("100000000000000.0001").is_none());
}

#[test]
fn test_is_disputable() {
    let mut tx = Transaction {
        kind: TransactionType::Deposit,
        client_id: 1,
        transaction_id: 1,
        amount: Some(amount("1.0")),
    };
    assert!(tx.is_disputable());
    tx.kind = TransactionType::Withdrawal;
    assert!(tx.is_disputable());
    tx.kind = TransactionType::Dispute;
    assert!(!tx.is_disputable());
    tx.kind = TransactionType::Resolve;
    assert!(!tx.is_disputable());
    tx.kind = TransactionType::Chargeback;
    assert!(!tx.is_disputable());
}

#[test]
fn test_amount_from_units() {
    assert_eq!(Amount::from_units(500).unwrap().units(), 500);
    assert_eq!(Amount::from_units(payments::MAX_AMOUNT_UNITS).unwrap().units(), payments::MAX_AMOUNT_UNITS);
    assert!(Amount::from_units(payments::MAX_AMOUNT_UNITS + 1).is_none());
}

#[test]
fn test_parse_trims_tabs() {
    let txs = parse_transactions("type,client,tx,amount\ndeposit,\t1 , 1,\t2.0 \n").unwrap();
    assert_eq!(txs.len(), 1);
    assert_eq!(txs[0].client_id, 1);
    assert_eq!(txs[0].amount, Some(amount("2.0")));
}

#[test]
fn test_redispute_after_resolve() {
    // a resolved dispute may be reopened, but an open one is not doubled
    let input = "type,client,tx,amount\n\
                 deposit,4,1,60.0\n\
                 dispute,4,1,\n\
                 dispute,4,1,\n\
                 resolve,4,1,\n\
                 dispute,4,1,\n";
    let mut bank = Bank::new();
    bank.process_transactions(input).unwrap();
    let account = bank.get_account(4).unwrap();
    assert_eq!(account.available(), 0);
    assert_eq!(account.held(), units("60.0"));
}

#[test]
fn test_unknown_client_creates_account() {
    let input = "type,client,tx,amount\ndispute,9,1,\n";
    let mut bank = Bank::new();
    bank.process_transactions(input).unwrap();
    let account = bank.get_account(9).unwrap();
    assert_eq!(account.available(), 0);
    assert_eq!(account.get_total(), 0);
    assert!(!account.locked());
}

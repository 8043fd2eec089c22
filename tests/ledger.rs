use std::collections::HashMap;
use tranky_panky::{
    amount_text, handle, parse_amount, process_transaction, synchronize, Client, Clients, Error,
    IOTransaction, IOTransactionType, Transaction,
};

fn deposit(tx: u64, amount: u64) -> Transaction {
    Transaction::Deposit { transaction: tx, amount }
}

fn withdraw(tx: u64, amount: u64) -> Transaction {
    Transaction::Withdrawl { transaction: tx, amount }
}

fn balances(c: &Client) -> (u64, u64, u64, bool) {
    (c.available(), c.held(), c.total(), c.locked())
}

fn run(ops: &[(u16, Transaction)]) -> Result<Clients, Error> {
    let mut clients: Clients = HashMap::new();
    for (client, op) in ops {
        process_transaction(&mut clients, *client, *op)?;
    }
    synchronize(&mut clients)?;
    Ok(clients)
}

#[test]
fn scenario_dispute_then_resolve() {
    let clients = run(&[
        (1, deposit(1, 100)),
        (1, withdraw(2, 40)),
        (1, Transaction::Dispute { transaction: 2 }),
        (1, Transaction::Resolve { transaction: 2 }),
    ])
    .unwrap();
    assert_eq!(balances(&clients[&1]), (100, 0, 100, false));
}

#[test]
fn scenario_dispute_then_chargeback() {
    let clients = run(&[
        (2, deposit(1, 50)),
        (2, withdraw(2, 50)),
        (2, Transaction::Dispute { transaction: 2 }),
        (2, Transaction::Chargeback { transaction: 2 }),
    ])
    .unwrap();
    assert_eq!(balances(&clients[&2]), (0, 0, 0, true));
}

#[test]
fn round_trip_restores_balances() {
    let mut c = Client::new(7);
    c.deposit(10).unwrap();
    c.withdraw(1, 10).unwrap();
    assert_eq!((c.available(), c.held()), (0, 0));
    c.dispute(1).unwrap();
    assert_eq!((c.available(), c.held()), (0, 10));
    c.resolve(1).unwrap();
    c.synchronize();
    assert_eq!(balances(&c), (10, 0, 10, false));
    assert_eq!(c.client(), 7);
}

#[test]
fn chargeback_is_final() {
    let mut c = Client::new(3);
    c.deposit(5).unwrap();
    c.withdraw(2, 5).unwrap();
    c.dispute(2).unwrap();
    c.chargeback(2).unwrap();
    c.synchronize();
    assert_eq!(balances(&c), (0, 0, 0, true));
    assert_eq!(c.deposit(1), Err(Error::AccountLocked { client: 3 }));
    assert_eq!(c.withdraw(9, 1), Err(Error::AccountLocked { client: 3 }));
    assert_eq!(c.dispute(2), Err(Error::AccountLocked { client: 3 }));
    assert_eq!(c.resolve(2), Err(Error::AccountLocked { client: 3 }));
    assert_eq!(c.chargeback(2), Err(Error::AccountLocked { client: 3 }));
    assert_eq!(balances(&c), (0, 0, 0, true));
}

#[test]
fn insufficient_funds_is_skipped() {
    let mut clients: Clients = HashMap::new();
    assert_eq!(process_transaction(&mut clients, 1, deposit(1, 10)), Ok(()));
    assert_eq!(process_transaction(&mut clients, 1, withdraw(3, 100)), Ok(()));
    assert_eq!((clients[&1].available(), clients[&1].held()), (10, 0));
    // The skipped id was not recorded: a withdrawal may use it afterwards.
    assert_eq!(process_transaction(&mut clients, 1, withdraw(3, 10)), Ok(()));
    assert_eq!(clients[&1].available(), 0);
}

#[test]
fn insufficient_funds_is_reported_by_the_account() {
    let mut c = Client::new(1);
    c.deposit(10).unwrap();
    assert_eq!(
        c.withdraw(3, 100),
        Err(Error::InsufficientFunds { requested: 100, current_balance: 10 })
    );
    assert_eq!(c.available(), 10);
}

#[test]
fn duplicate_withdrawal_is_fatal() {
    let mut clients: Clients = HashMap::new();
    process_transaction(&mut clients, 1, deposit(1, 10)).unwrap();
    assert_eq!(process_transaction(&mut clients, 1, withdraw(4, 1)), Ok(()));
    assert_eq!(
        process_transaction(&mut clients, 1, withdraw(4, 1)),
        Err(Error::TransactionIdAlreadyInUse { transaction: 4 })
    );
    assert_eq!(clients[&1].available(), 9);
    let stopped = run(&[(1, deposit(1, 10)), (1, withdraw(4, 1)), (1, withdraw(4, 1))]);
    assert!(matches!(stopped, Err(Error::TransactionIdAlreadyInUse { transaction: 4 })));
}

#[test]
fn disputed_id_cannot_be_withdrawn_again() {
    let mut c = Client::new(1);
    c.deposit(10).unwrap();
    c.withdraw(4, 2).unwrap();
    c.dispute(4).unwrap();
    assert_eq!(c.withdraw(4, 1), Err(Error::TransactionIdAlreadyInUse { transaction: 4 }));
}

#[test]
fn dispute_of_unknown_id_changes_nothing() {
    let mut c = Client::new(1);
    c.deposit(10).unwrap();
    assert_eq!(c.dispute(99), Ok(()));
    assert_eq!((c.available(), c.held()), (10, 0));
    c.withdraw(1, 4).unwrap();
    c.dispute(1).unwrap();
    // Already disputed.
    assert_eq!(c.dispute(1), Ok(()));
    assert_eq!((c.available(), c.held()), (6, 4));
    c.resolve(1).unwrap();
    // Already settled.
    assert_eq!(c.dispute(1), Ok(()));
    assert_eq!((c.available(), c.held()), (10, 0));
}

#[test]
fn resolve_and_chargeback_need_a_dispute() {
    let mut c = Client::new(1);
    c.deposit(10).unwrap();
    c.withdraw(1, 4).unwrap();
    assert_eq!(c.resolve(1), Err(Error::InvalidTransactionId { transaction: 1 }));
    assert_eq!(c.chargeback(1), Err(Error::InvalidTransactionId { transaction: 1 }));
    assert_eq!(c.resolve(8), Err(Error::InvalidTransactionId { transaction: 8 }));
    let mut clients: Clients = HashMap::new();
    assert_eq!(
        process_transaction(&mut clients, 5, Transaction::Resolve { transaction: 1 }),
        Err(Error::InvalidTransactionId { transaction: 1 })
    );
    assert_eq!(
        process_transaction(&mut clients, 5, Transaction::Chargeback { transaction: 1 }),
        Err(Error::InvalidTransactionId { transaction: 1 })
    );
}

#[test]
fn deposit_past_the_largest_amount_overflows() {
    let mut c = Client::new(1);
    c.deposit(u64::MAX).unwrap();
    assert_eq!(c.deposit(1), Err(Error::AmountOverflow));
    assert_eq!(c.available(), u64::MAX);
    c.synchronize();
    assert_eq!(c.total(), u64::MAX);
}

#[test]
fn dispute_past_the_largest_amount_overflows() {
    let mut c = Client::new(1);
    c.deposit(u64::MAX).unwrap();
    c.withdraw(1, 5).unwrap();
    c.deposit(5).unwrap();
    assert_eq!(c.dispute(1), Err(Error::AmountOverflow));
    assert_eq!((c.available(), c.held()), (u64::MAX, 0));
}

#[test]
fn zero_amounts_are_malformed() {
    let mut clients: Clients = HashMap::new();
    assert_eq!(
        process_transaction(&mut clients, 1, deposit(1, 0)),
        Err(Error::CannotConvertFromIOTransaction)
    );
    assert_eq!(
        process_transaction(&mut clients, 1, withdraw(2, 0)),
        Err(Error::CannotConvertFromIOTransaction)
    );
    assert_eq!(clients[&1].available(), 0);
}

#[test]
fn synchronize_sets_every_total() {
    let mut clients: Clients = HashMap::new();
    process_transaction(&mut clients, 1, deposit(1, 30)).unwrap();
    process_transaction(&mut clients, 1, withdraw(2, 10)).unwrap();
    process_transaction(&mut clients, 1, Transaction::Dispute { transaction: 2 }).unwrap();
    process_transaction(&mut clients, 65535, deposit(3, 7)).unwrap();
    process_transaction(&mut clients, 0, deposit(4, 1)).unwrap();
    assert_eq!(clients[&1].total(), 0);
    assert_eq!(synchronize(&mut clients), Ok(()));
    assert_eq!(balances(&clients[&1]), (20, 10, 30, false));
    assert_eq!(balances(&clients[&65535]), (7, 0, 7, false));
    assert_eq!(balances(&clients[&0]), (1, 0, 1, false));
    assert_eq!(clients.len(), 3);
}

#[test]
fn accounts_are_kept_apart() {
    let clients = run(&[(1, deposit(1, 10)), (2, deposit(1, 20)), (1, withdraw(2, 3))]).unwrap();
    assert_eq!(balances(&clients[&1]), (7, 0, 7, false));
    assert_eq!(balances(&clients[&2]), (20, 0, 20, false));
}

#[test]
fn amounts_read_as_fixed_point() {
    assert_eq!(parse_amount("1.5"), Some(15000));
    assert_eq!(parse_amount("12"), Some(120000));
    assert_eq!(parse_amount("0.0001"), Some(1));
    assert_eq!(parse_amount(".5"), Some(5000));
    assert_eq!(parse_amount("3."), Some(30000));
    assert_eq!(parse_amount("007.25"), Some(72500));
    assert_eq!(parse_amount("0"), Some(0));
    assert_eq!(parse_amount("1844674407370955.1615"), Some(u64::MAX));
}

#[test]
fn malformed_amounts_are_refused() {
    assert_eq!(parse_amount(""), None);
    assert_eq!(parse_amount("."), None);
    assert_eq!(parse_amount("-1"), None);
    assert_eq!(parse_amount("+1"), None);
    assert_eq!(parse_amount("1.23456"), None);
    assert_eq!(parse_amount("1.2.3"), None);
    assert_eq!(parse_amount("1e3"), None);
    assert_eq!(parse_amount(" 1"), None);
    assert_eq!(parse_amount("abc"), None);
    assert_eq!(parse_amount("1844674407370955.1616"), None);
    assert_eq!(parse_amount("18446744073709551615"), None);
    assert_eq!(parse_amount("99999999999999999999999"), None);
}

fn record(type_: IOTransactionType, tx: u64, amount: Option<&str>) -> IOTransaction {
    IOTransaction { type_, client: 1, tx, amount: amount.map(|a| a.to_string()) }
}

#[test]
fn records_become_operations() {
    assert_eq!(
        Transaction::try_from(record(IOTransactionType::Deposit, 1, Some("2.5"))),
        Ok(Transaction::Deposit { transaction: 1, amount: 25000 })
    );
    assert_eq!(
        Transaction::try_from(record(IOTransactionType::Withdrawl, 2, Some("1"))),
        Ok(Transaction::Withdrawl { transaction: 2, amount: 10000 })
    );
    assert_eq!(
        Transaction::try_from(record(IOTransactionType::Dispute, 3, Some("-4"))),
        Ok(Transaction::Dispute { transaction: 3 })
    );
    assert_eq!(
        Transaction::try_from(record(IOTransactionType::Resolve, 4, None)),
        Ok(Transaction::Resolve { transaction: 4 })
    );
    assert_eq!(
        Transaction::try_from(record(IOTransactionType::Chargeback, 5, None)),
        Ok(Transaction::Chargeback { transaction: 5 })
    );
}

#[test]
fn malformed_records_are_refused() {
    let malformed = Err(Error::CannotConvertFromIOTransaction);
    assert_eq!(Transaction::try_from(record(IOTransactionType::Deposit, 1, None)), malformed);
    assert_eq!(Transaction::try_from(record(IOTransactionType::Deposit, 1, Some("-1"))), malformed);
    assert_eq!(Transaction::try_from(record(IOTransactionType::Withdrawl, 1, None)), malformed);
    assert_eq!(Transaction::try_from(record(IOTransactionType::Withdrawl, 1, Some("x"))), malformed);
}

#[test]
fn handle_reports_the_failure() {
    assert_eq!(handle(|| Ok::<(), Error>(())), None);
    assert_eq!(handle(|| Err(Error::AmountOverflow)), Some(Error::AmountOverflow));
}

#[test]
fn amounts_are_written_with_four_places() {
    assert_eq!(amount_text(15000), "1.5000");
    assert_eq!(amount_text(0), "0.0000");
    assert_eq!(amount_text(1), "0.0001");
    assert_eq!(amount_text(10000), "1.0000");
    assert_eq!(amount_text(1234567), "123.4567");
    assert_eq!(amount_text(u64::MAX), "1844674407370955.1615");
}

#[test]
fn written_amounts_read_back() {
    for a in [0u64, 1, 9, 10, 99, 100, 9999, 10000, 10001, 123456789, u64::MAX - 1, u64::MAX] {
        assert_eq!(parse_amount(&amount_text(a)), Some(a));
    }
}

#[test]
fn kind_names_ignore_case() {
    assert_eq!(IOTransactionType::from_name("deposit"), Some(IOTransactionType::Deposit));
    assert_eq!(IOTransactionType::from_name("Deposit"), Some(IOTransactionType::Deposit));
    assert_eq!(IOTransactionType::from_name("WITHDRAWAL"), Some(IOTransactionType::Withdrawl));
    assert_eq!(IOTransactionType::from_name("withdrawl"), Some(IOTransactionType::Withdrawl));
    assert_eq!(IOTransactionType::from_name("dispute"), Some(IOTransactionType::Dispute));
    assert_eq!(IOTransactionType::from_name("Resolve"), Some(IOTransactionType::Resolve));
    assert_eq!(IOTransactionType::from_name("chargeBack"), Some(IOTransactionType::Chargeback));
    assert_eq!(IOTransactionType::from_name("deposits"), None);
    assert_eq!(IOTransactionType::from_name(""), None);
    assert_eq!(IOTransactionType::from_name("refund"), None);
}

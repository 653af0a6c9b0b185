use rust_decimal::prelude::FromPrimitive;
use rust_decimal::Decimal;
use toy_payments::{Accounts, Amount, Engine, Transaction, Transactions, Type};

fn amount(value: Option<Decimal>) -> Option<Amount> {
    value.map(|d| Amount::new(d.mantissa(), d.scale()).expect("a decimal is in range"))
}

fn decimal(value: Amount) -> Decimal {
    Decimal::from_i128_with_scale(value.mantissa(), value.scale())
}

#[test]
fn single_transaction_deposit_succeeds() {
    let mut engine = Engine::new(Accounts::new());
    let transaction = Transaction {
        kind: Type::Deposit,
        client: 1,
        tx: 1,
        amount: amount(Decimal::from_f64(0.5)),
        disputed: false,
    };

    let transactions = Transactions::from(vec![transaction]);
    engine.process(transactions);

    let account = engine.accounts().get(1).expect("Failed to get account");
    assert_eq!(decimal(account.available), Decimal::from_f64(0.5).unwrap());
}

#[test]
fn single_transaction_withdrawal_succeeds() {
    let mut engine = Engine::new(Accounts::new());
    let transaction = Transaction {
        kind: Type::Withdrawal,
        client: 1,
        tx: 1,
        amount: amount(Decimal::from_f64(0.5)),
        disputed: false,
    };

    let transactions = Transactions::from(vec![transaction]);
    engine.process(transactions);
    let account = engine.accounts().get(1).expect("Failed to get account");
    assert_eq!(decimal(account.available), 0.into());
}

#[test]
fn double_transaction_succeeds() {
    let mut engine = Engine::new(Accounts::new());
    let transaction1 = Transaction {
        kind: Type::Deposit,
        client: 1,
        tx: 1,
        amount: amount(Decimal::from_f64(0.5)),
        disputed: false,
    };
    let transaction2 = Transaction {
        kind: Type::Withdrawal,
        client: 1,
        tx: 2,
        amount: amount(Decimal::from_f64(0.3)),
        disputed: false,
    };

    engine.process(Transactions::from(vec![transaction1, transaction2]));
    let account = engine.accounts().get(1).expect("Failed to get account");
    assert_eq!(decimal(account.available), Decimal::from_f64(0.2).unwrap());
}

#[test]
fn dispute_transaction_succeeds() {
    let mut engine = Engine::new(Accounts::new());

    let transaction1 = Transaction {
        kind: Type::Deposit,
        client: 1,
        tx: 1,
        amount: amount(Decimal::from_f64(0.5)),
        disputed: false,
    };

    let transaction2 = Transaction {
        kind: Type::Dispute,
        client: 1,
        tx: 1,
        amount: None,
        disputed: false,
    };

    engine.process(Transactions::from(vec![transaction1, transaction2]));
    let account = engine.accounts().get(1).expect("Failed to get account");
    assert_eq!(decimal(account.available), 0.into());
    assert_eq!(decimal(account.held), Decimal::from_f64(0.5).unwrap());
}

#[test]
fn resolve_transaction_succeeds() {
    let mut engine = Engine::new(Accounts::new());

    let transaction1 = Transaction {
        kind: Type::Deposit,
        client: 1,
        tx: 1,
        amount: amount(Decimal::from_f64(0.5)),
        disputed: false,
    };

    let transaction2 = Transaction {
        kind: Type::Dispute,
        client: 1,
        tx: 1,
        amount: None,
        disputed: false,
    };

    let transaction3 = Transaction {
        kind: Type::Resolve,
        client: 1,
        tx: 1,
        amount: None,
        disputed: false,
    };

    engine.process(Transactions::from(vec![
        transaction1,
        transaction2,
        transaction3,
    ]));
    let account = engine.accounts().get(1).expect("Failed to get account");
    assert_eq!(decimal(account.available), Decimal::from_f64(0.5).unwrap());
    assert_eq!(decimal(account.held), 0.into());
}

#[test]
fn chargeback_transaction_succeeds() {
    let mut engine = Engine::new(Accounts::new());

    let transaction1 = Transaction {
        kind: Type::Deposit,
        client: 1,
        tx: 1,
        amount: amount(Decimal::from_f64(0.5)),
        disputed: false,
    };

    let transaction2 = Transaction {
        kind: Type::Dispute,
        client: 1,
        tx: 1,
        amount: None,
        disputed: false,
    };

    let transaction3 = Transaction {
        kind: Type::Chargeback,
        client: 1,
        tx: 1,
        amount: None,
        disputed: false,
    };

    engine.process(Transactions::from(vec![
        transaction1,
        transaction2,
        transaction3,
    ]));
    let account = engine.accounts().get(1).expect("Failed to get account");
    assert_eq!(decimal(account.available), 0.into());
    assert_eq!(decimal(account.held), 0.into());
    assert!(account.locked);
}

#[test]
fn locked_account_withdraw_fails() {
    let mut engine = Engine::new(Accounts::new());

    let transaction1 = Transaction {
        kind: Type::Deposit,
        client: 1,
        tx: 1,
        amount: amount(Decimal::from_f64(0.5)),
        disputed: false,
    };

    let transaction2 = Transaction {
        kind: Type::Dispute,
        client: 1,
        tx: 1,
        amount: None,
        disputed: false,
    };

    engine.process(Transactions::from(vec![transaction1, transaction2]));

    let account = engine.accounts().get(1).expect("Failed to get account");

    assert_eq!(decimal(account.available), 0.into());
    assert_eq!(decimal(account.held), Decimal::from_f32(0.5).unwrap());
    assert!(!account.locked);

    let transaction3 = Transaction {
        kind: Type::Chargeback,
        client: 1,
        tx: 1,
        amount: None,
        disputed: false,
    };

    let transaction4 = Transaction {
        kind: Type::Withdrawal,
        client: 1,
        tx: 2,
        amount: amount(Decimal::from_f64(0.5)),
        disputed: false,
    };

    engine.process(Transactions::from(vec![transaction3, transaction4]));

    let account = engine.accounts().get(1).expect("Failed to get account");
    assert_eq!(decimal(account.available), 0.into());
    assert_eq!(decimal(account.held), 0.into());
    assert!(account.locked);
}

use rust_decimal::Decimal;
use toy_payments::{Account, Accounts, Amount, Engine, Transaction, Transactions, Type};

fn amount(value: Decimal) -> Amount {
    Amount::new(value.mantissa(), value.scale()).expect("a decimal is in range")
}

fn decimal(value: Amount) -> Decimal {
    Decimal::from_i128_with_scale(value.mantissa(), value.scale())
}

fn record(kind: Type, client: u16, tx: u32, value: Option<Decimal>) -> Transaction {
    Transaction { kind, client, tx, amount: value.map(amount), disputed: false }
}

fn state(account: &Account) -> (u16, Decimal, Decimal, Decimal, bool) {
    (
        account.client,
        decimal(account.available),
        decimal(account.held),
        decimal(account.total),
        account.locked,
    )
}

fn states(engine: &Engine) -> Vec<(u16, Decimal, Decimal, Decimal, bool)> {
    engine.accounts().all_sorted_by_client_id().iter().map(state).collect()
}

fn mixed() -> Vec<Transaction> {
    vec![
        record(Type::Deposit, 1, 1, Some(Decimal::new(105, 1))),
        record(Type::Deposit, 2, 2, Some(Decimal::new(20000, 4))),
        record(Type::Withdrawal, 1, 3, Some(Decimal::new(25, 1))),
        record(Type::Dispute, 1, 1, None),
        record(Type::Withdrawal, 2, 4, Some(Decimal::new(50, 0))),
        record(Type::Resolve, 1, 1, None),
        record(Type::Dispute, 2, 2, None),
        record(Type::Dispute, 2, 2, None),
        record(Type::Chargeback, 2, 2, None),
        record(Type::Deposit, 2, 5, Some(Decimal::new(1, 0))),
        record(Type::Deposit, 3, 6, Some(Decimal::new(12345, 4))),
        record(Type::Resolve, 3, 6, None),
        record(Type::Chargeback, 3, 6, None),
    ]
}

#[test]
fn deposit_then_dispute_holds_the_funds() {
    let mut engine = Engine::new(Accounts::new());
    engine.process(Transactions::from(vec![
        record(Type::Deposit, 1, 1, Some(Decimal::new(15, 1))),
        record(Type::Dispute, 1, 1, None),
    ]));
    let account = engine.accounts().get(1).unwrap();
    assert_eq!(state(account), (1, Decimal::ZERO, Decimal::new(15, 1), Decimal::new(15, 1), false));
}

#[test]
fn resolve_gives_the_funds_back() {
    let mut engine = Engine::new(Accounts::new());
    engine.process(Transactions::from(vec![
        record(Type::Deposit, 1, 1, Some(Decimal::new(15, 1))),
        record(Type::Dispute, 1, 1, None),
    ]));
    engine.process(Transactions::from(vec![record(Type::Resolve, 1, 1, None)]));
    let account = engine.accounts().get(1).unwrap();
    assert_eq!(state(account), (1, Decimal::new(15, 1), Decimal::ZERO, Decimal::new(15, 1), false));
}

#[test]
fn chargeback_removes_the_funds_and_locks() {
    let mut engine = Engine::new(Accounts::new());
    engine.process(Transactions::from(vec![
        record(Type::Deposit, 1, 1, Some(Decimal::new(15, 1))),
        record(Type::Dispute, 1, 1, None),
        record(Type::Chargeback, 1, 1, None),
    ]));
    let after_chargeback = state(engine.accounts().get(1).unwrap());
    assert_eq!(after_chargeback, (1, Decimal::ZERO, Decimal::ZERO, Decimal::ZERO, true));
    engine.process(Transactions::from(vec![record(
        Type::Withdrawal,
        1,
        2,
        Some(Decimal::new(1, 2)),
    )]));
    assert_eq!(state(engine.accounts().get(1).unwrap()), after_chargeback);
}

#[test]
fn deposit_then_withdrawal_leaves_the_difference() {
    let mut engine = Engine::new(Accounts::new());
    engine.process(Transactions::from(vec![
        record(Type::Deposit, 1, 1, Some(Decimal::new(5, 1))),
        record(Type::Withdrawal, 1, 2, Some(Decimal::new(3, 1))),
    ]));
    let account = engine.accounts().get(1).unwrap();
    assert_eq!(decimal(account.available), Decimal::new(2, 1));
    assert_eq!(decimal(account.total), Decimal::new(2, 1));
}

#[test]
fn totals_are_the_sum_of_available_and_held() {
    let mut engine = Engine::new(Accounts::new());
    engine.process(Transactions::from(mixed()));
    let accounts = engine.accounts().all_sorted_by_client_id();
    assert_eq!(accounts.len(), 3);
    for account in accounts.iter() {
        assert_eq!(decimal(account.total), decimal(account.available) + decimal(account.held));
    }
    assert_eq!(
        states(&engine),
        vec![
            (1, Decimal::new(8, 0), Decimal::ZERO, Decimal::new(8, 0), false),
            (2, Decimal::ZERO, Decimal::ZERO, Decimal::ZERO, true),
            (3, Decimal::new(12345, 4), Decimal::ZERO, Decimal::new(12345, 4), false),
        ]
    );
}

#[test]
fn withdrawal_never_overdraws() {
    let mut engine = Engine::new(Accounts::new());
    engine.process(Transactions::from(vec![
        record(Type::Deposit, 1, 1, Some(Decimal::new(10, 0))),
        record(Type::Withdrawal, 1, 2, Some(Decimal::new(100001, 4))),
    ]));
    let account = engine.accounts().get(1).unwrap();
    assert_eq!(decimal(account.available), Decimal::new(10, 0));
    assert_eq!(decimal(account.total), Decimal::new(10, 0));
    engine.process(Transactions::from(vec![record(
        Type::Withdrawal,
        1,
        3,
        Some(Decimal::new(10, 0)),
    )]));
    let account = engine.accounts().get(1).unwrap();
    assert_eq!(decimal(account.available), Decimal::ZERO);
}

#[test]
fn batches_give_what_one_call_gives() {
    let all = mixed();
    let mut whole = Engine::new(Accounts::new());
    whole.process(Transactions::from(all.clone()));
    let expected = states(&whole);
    for split in 0..=all.len() {
        let mut parts = Engine::new(Accounts::new());
        parts.process(Transactions::from(all[..split].to_vec()));
        parts.process(Transactions::from(all[split..].to_vec()));
        assert_eq!(states(&parts), expected);
    }
}

#[test]
fn second_dispute_changes_nothing() {
    let mut engine = Engine::new(Accounts::new());
    engine.process(Transactions::from(vec![
        record(Type::Deposit, 1, 1, Some(Decimal::new(15, 1))),
        record(Type::Deposit, 1, 2, Some(Decimal::new(30, 1))),
        record(Type::Dispute, 1, 1, None),
    ]));
    let once = state(engine.accounts().get(1).unwrap());
    assert_eq!(once, (1, Decimal::new(30, 1), Decimal::new(15, 1), Decimal::new(45, 1), false));
    engine.process(Transactions::from(vec![record(Type::Dispute, 1, 1, None)]));
    assert_eq!(state(engine.accounts().get(1).unwrap()), once);
}

#[test]
fn locked_account_takes_no_deposit_and_no_withdrawal() {
    let mut engine = Engine::new(Accounts::new());
    engine.process(Transactions::from(vec![
        record(Type::Deposit, 1, 1, Some(Decimal::new(15, 1))),
        record(Type::Deposit, 1, 2, Some(Decimal::new(30, 1))),
        record(Type::Dispute, 1, 1, None),
        record(Type::Chargeback, 1, 1, None),
    ]));
    let locked = state(engine.accounts().get(1).unwrap());
    assert_eq!(locked, (1, Decimal::new(30, 1), Decimal::ZERO, Decimal::new(30, 1), true));
    engine.process(Transactions::from(vec![
        record(Type::Deposit, 1, 3, Some(Decimal::new(1, 0))),
        record(Type::Withdrawal, 1, 4, Some(Decimal::new(1, 0))),
        record(Type::Dispute, 1, 2, None),
    ]));
    assert_eq!(state(engine.accounts().get(1).unwrap()), locked);
}

#[test]
fn dispute_of_an_unknown_record_only_creates_the_account() {
    let mut engine = Engine::new(Accounts::new());
    engine.process(Transactions::from(vec![record(Type::Dispute, 4, 77, None)]));
    let account = engine.accounts().get(4).unwrap();
    assert_eq!(state(account), (4, Decimal::ZERO, Decimal::ZERO, Decimal::ZERO, false));
}

#[test]
fn resolve_and_chargeback_need_an_open_dispute() {
    let mut engine = Engine::new(Accounts::new());
    engine.process(Transactions::from(vec![
        record(Type::Deposit, 1, 1, Some(Decimal::new(15, 1))),
        record(Type::Resolve, 1, 1, None),
        record(Type::Chargeback, 1, 1, None),
    ]));
    let account = engine.accounts().get(1).unwrap();
    assert_eq!(state(account), (1, Decimal::new(15, 1), Decimal::ZERO, Decimal::new(15, 1), false));
}

#[test]
fn dispute_of_a_withdrawal_follows_the_same_rule() {
    let mut engine = Engine::new(Accounts::new());
    engine.process(Transactions::from(vec![
        record(Type::Deposit, 1, 1, Some(Decimal::new(5, 0))),
        record(Type::Withdrawal, 1, 2, Some(Decimal::new(3, 0))),
        record(Type::Dispute, 1, 2, None),
    ]));
    let account = engine.accounts().get(1).unwrap();
    assert_eq!(state(account), (1, Decimal::new(-1, 0), Decimal::new(3, 0), Decimal::new(2, 0), false));
}

#[test]
fn new_engine_keeps_the_accounts_it_was_given() {
    let mut accounts = Accounts::new();
    accounts.get_mut(5).locked = true;
    let engine = Engine::new(accounts);
    assert!(engine.accounts().get(5).unwrap().locked);
    assert!(engine.accounts().get(1).is_none());
}

#[test]
fn dispute_that_refers_ahead_depends_on_the_batches() {
    let dispute = record(Type::Dispute, 1, 1, None);
    let deposit = record(Type::Deposit, 1, 1, Some(Decimal::new(15, 1)));

    let mut parts = Engine::new(Accounts::new());
    parts.process(Transactions::from(vec![dispute]));
    parts.process(Transactions::from(vec![deposit]));
    assert_eq!(
        state(parts.accounts().get(1).unwrap()),
        (1, Decimal::new(15, 1), Decimal::ZERO, Decimal::new(15, 1), false)
    );

    let mut whole = Engine::new(Accounts::new());
    whole.process(Transactions::from(vec![dispute, deposit]));
    assert_eq!(
        state(whole.accounts().get(1).unwrap()),
        (1, Decimal::new(-15, 1), Decimal::new(15, 1), Decimal::ZERO, false)
    );
}

#[test]
fn empty_batch_changes_nothing() {
    let mut engine = Engine::new(Accounts::new());
    engine.process(Transactions::from(mixed()));
    let before = states(&engine);
    engine.process(Transactions::default());
    assert_eq!(states(&engine), before);
}

#[test]
fn dispute_by_another_client_moves_that_client_funds() {
    let mut engine = Engine::new(Accounts::new());
    engine.process(Transactions::from(vec![
        record(Type::Deposit, 1, 1, Some(Decimal::new(4, 0))),
        record(Type::Dispute, 2, 1, None),
    ]));
    assert_eq!(
        states(&engine),
        vec![
            (1, Decimal::new(4, 0), Decimal::ZERO, Decimal::new(4, 0), false),
            (2, Decimal::new(-4, 0), Decimal::new(4, 0), Decimal::ZERO, false),
        ]
    );
}

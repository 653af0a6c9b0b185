//! The engine: it applies transaction records to the accounts, one by one and
//! in arrival order, and remembers how far it has come.

use vstd::prelude::*;
use crate::account::{account_of, Account, Accounts, Action};
use crate::transaction::{
    last_indexed, lemma_last_indexed_is_last, lemma_update_keeps_lookup, marked, planned,
    Transaction, Transactions, Type,
};

verus! {

/// The records and the accounts after the record at `position` was applied to
/// the account of `client`. The client gets an account if it had none. A
/// locked account stays as it is, and so does everything where the record's
/// action does not apply.
pub open spec fn step(
    records: Seq<Transaction>,
    accounts: Map<u16, Account>,
    position: int,
    client: u16,
) -> (Seq<Transaction>, Map<u16, Account>) {
    let account = account_of(accounts, client);
    if account.locked {
        (records, accounts.insert(client, account))
    } else {
        let (action, target) = planned(records, position);
        match account.performed(action) {
            Some(changed) => (marked(records, action, target), accounts.insert(client, changed)),
            None => (records, accounts.insert(client, account)),
        }
    }
}

/// The records and the accounts after the records at the positions from
/// `from` up to, but without, `to` were applied in ascending order, each to
/// the account of its own client.
pub open spec fn run(records: Seq<Transaction>, accounts: Map<u16, Account>, from: int, to: int) -> (
    Seq<Transaction>,
    Map<u16, Account>,
)
    decreases to - from,
{
    if from >= to {
        (records, accounts)
    } else {
        let (r, a) = step(records, accounts, from, records[from].client);
        run(r, a, from + 1, to)
    }
}

/// Whether the arithmetic of the step at `position` is exact.
pub open spec fn step_exact(
    records: Seq<Transaction>,
    accounts: Map<u16, Account>,
    position: int,
    client: u16,
) -> bool {
    let account = account_of(accounts, client);
    account.locked || account.exact(planned(records, position).0)
}

/// Whether the arithmetic of every step of the run is exact.
pub open spec fn run_exact(records: Seq<Transaction>, accounts: Map<u16, Account>, from: int, to: int) -> bool
    decreases to - from,
{
    from >= to || {
        let (r, a) = step(records, accounts, from, records[from].client);
        step_exact(records, accounts, from, records[from].client) && run_exact(r, a, from + 1, to)
    }
}

/// Whether every balance that the step at `position` asks for is in range.
pub open spec fn step_in_range(
    records: Seq<Transaction>,
    accounts: Map<u16, Account>,
    position: int,
    client: u16,
) -> bool {
    let account = account_of(accounts, client);
    account.locked || account.in_range(planned(records, position).0)
}

/// Whether every balance that the run asks for is in range.
pub open spec fn run_in_range(records: Seq<Transaction>, accounts: Map<u16, Account>, from: int, to: int) -> bool
    decreases to - from,
{
    from >= to || {
        let (r, a) = step(records, accounts, from, records[from].client);
        step_in_range(records, accounts, from, records[from].client) && run_in_range(r, a, from + 1, to)
    }
}

/// The records and the accounts after `batch` was put behind `records`, all
/// of which had been applied, and was applied in its order.
pub open spec fn after_batch(records: Seq<Transaction>, accounts: Map<u16, Account>, batch: Seq<Transaction>) -> (
    Seq<Transaction>,
    Map<u16, Account>,
) {
    run(records + batch, accounts, records.len() as int, (records.len() + batch.len()) as int)
}

/// Whether every balance that applying `batch` asks for is in range.
pub open spec fn batch_in_range(
    records: Seq<Transaction>,
    accounts: Map<u16, Account>,
    batch: Seq<Transaction>,
) -> bool {
    run_in_range(records + batch, accounts, records.len() as int, (records.len() + batch.len()) as int)
}

/// Whether the arithmetic of applying `batch` is exact.
pub open spec fn batch_exact(
    records: Seq<Transaction>,
    accounts: Map<u16, Account>,
    batch: Seq<Transaction>,
) -> bool {
    run_exact(records + batch, accounts, records.len() as int, (records.len() + batch.len()) as int)
}

/// Whether every account is balanced.
pub open spec fn all_balanced(accounts: Map<u16, Account>) -> bool {
    forall|c: u16| accounts.contains_key(c) ==> (#[trigger] accounts[c]).balanced()
}

/// The accounts, the records taken in so far, and the position up to which the
/// records have been applied.
pub struct Engine {
    accounts: Accounts,
    transactions: Transactions,
    last_processed_transaction_index: usize,
}

impl Engine {
    /// The account of each client.
    pub closed spec fn balances(&self) -> Map<u16, Account> {
        self.accounts@
    }

    /// The records taken in so far.
    pub closed spec fn records(&self) -> Seq<Transaction> {
        self.transactions@
    }

    /// The number of records that have been applied.
    pub closed spec fn processed(&self) -> int {
        self.last_processed_transaction_index as int
    }

    /// Whether the store's index is right and every record has been applied.
    pub closed spec fn wf(&self) -> bool {
        self.transactions.wf() && self.last_processed_transaction_index == self.transactions@.len()
    }

    /// An engine on the given accounts that has seen no record.
    pub fn new(accounts: Accounts) -> (r: Engine)
        ensures
            r.wf(),
            r.balances() == accounts@,
            r.records() == Seq::<Transaction>::empty(),
            r.processed() == 0,
    {
        Engine { accounts, transactions: Transactions::default(), last_processed_transaction_index: 0 }
    }

    /// The accounts.
    pub fn accounts(&self) -> (r: &Accounts)
        ensures
            r@ == self.balances(),
    {
        &self.accounts
    }

    /// Takes in the records of `trxs` behind those already held and applies
    /// them in their order; the records that were applied before are not
    /// applied again.
    pub fn process(&mut self, trxs: Transactions)
        requires
            old(self).wf(),
        ensures
            final(self).wf(),
            final(self).processed() == old(self).records().len() + trxs@.len(),
            (final(self).records(), final(self).balances()) == after_batch(
                old(self).records(),
                old(self).balances(),
                trxs@,
            ),
            batch_in_range(old(self).records(), old(self).balances(), trxs@) ==> batch_exact(
                old(self).records(),
                old(self).balances(),
                trxs@,
            ),
            batch_in_range(old(self).records(), old(self).balances(), trxs@) && all_balanced(
                old(self).balances(),
            ) ==> all_balanced(final(self).balances()),
    {
        self.transactions.extend(trxs);
        let end = self.transactions.len();
        let ghost first_records = self.transactions@;
        let ghost first_accounts = self.accounts@;
        let ghost first = self.last_processed_transaction_index as int;
        let mut index = self.last_processed_transaction_index;
        while index < end
            invariant
                index <= end,
                end == self.transactions@.len(),
                self.transactions.wf(),
                run(self.transactions@, self.accounts@, index as int, end as int) == run(
                    first_records,
                    first_accounts,
                    first,
                    end as int,
                ),
                run_in_range(first_records, first_accounts, first, end as int) ==> run_in_range(
                    self.transactions@,
                    self.accounts@,
                    index as int,
                    end as int,
                ),
                run_in_range(first_records, first_accounts, first, end as int) && run_exact(
                    self.transactions@,
                    self.accounts@,
                    index as int,
                    end as int,
                ) ==> run_exact(first_records, first_accounts, first, end as int),
            decreases end - index,
        {
            let client = match self.transactions.get(index) {
                Some(transaction) => Some(transaction.client),
                None => None,
            };
            if let Some(client) = client {
                proof {
                    lemma_step_keeps_records(self.transactions@, self.accounts@, index as int, client);
                }
                self.process_transaction(index, client);
            }
            index += 1;
        }
        self.last_processed_transaction_index = end;
        proof {
            if run_in_range(first_records, first_accounts, first, end as int) && all_balanced(first_accounts) {
                lemma_run_keeps_balance(first_records, first_accounts, first, end as int);
            }
        }
    }

    /// Applies the record at `current_transaction_index` to the account of
    /// `client`.
    fn process_transaction(&mut self, current_transaction_index: usize, client: u16)
        requires
            old(self).transactions.wf(),
        ensures
            final(self).transactions.wf(),
            final(self).last_processed_transaction_index == old(self).last_processed_transaction_index,
            (final(self).transactions@, final(self).accounts@) == step(
                old(self).transactions@,
                old(self).accounts@,
                current_transaction_index as int,
                client,
            ),
            step_in_range(old(self).transactions@, old(self).accounts@, current_transaction_index as int, client)
                ==> step_exact(
                old(self).transactions@,
                old(self).accounts@,
                current_transaction_index as int,
                client,
            ),
    {
        let account = self.accounts.get_mut(client);
        if account.locked {
            return ;
        }
        let (action, target) = self.transactions.plan(current_transaction_index);
        if account.perform(action) {
            match (action, target) {
                (Action::Hold(_), Some(t)) => self.transactions.mark(t, true),
                (Action::Release(_), Some(t)) => self.transactions.mark(t, false),
                _ => {},
            }
        }
    }
}

/// A step changes no record in its kind, its client, its `tx` or its amount,
/// and keeps the number of records.
pub proof fn lemma_step_keeps_records(
    records: Seq<Transaction>,
    accounts: Map<u16, Account>,
    position: int,
    client: u16,
)
    ensures
        step(records, accounts, position, client).0.len() == records.len(),
        forall|i: int|
            0 <= i < records.len() ==> {
                let after = #[trigger] step(records, accounts, position, client).0[i];
                &&& after.kind == records[i].kind
                &&& after.client == records[i].client
                &&& after.tx == records[i].tx
                &&& after.amount == records[i].amount
            },
{
    if 0 <= position < records.len() {
        lemma_last_indexed_is_last(records, records[position].tx);
    }
}

/// A step whose arithmetic is exact keeps balanced accounts balanced.
pub proof fn lemma_step_keeps_balance(
    records: Seq<Transaction>,
    accounts: Map<u16, Account>,
    position: int,
    client: u16,
)
    requires
        all_balanced(accounts),
        step_exact(records, accounts, position, client),
    ensures
        all_balanced(step(records, accounts, position, client).1),
{
    let account = account_of(accounts, client);
    let after = step(records, accounts, position, client).1;
    Account::lemma_fresh_is_balanced(client);
    if accounts.contains_key(client) {
        assert(accounts[client].balanced());
    }
    if !account.locked {
        account.lemma_exact_action_keeps_balance(planned(records, position).0);
    }
    assert forall|c: u16| after.contains_key(c) implies (#[trigger] after[c]).balanced() by {
        if c != client {
            assert(accounts[c].balanced());
        }
    }
}

/// After a run whose arithmetic is exact, on accounts that were balanced, the
/// total of every account is the sum of what is available and what is held.
pub proof fn lemma_run_keeps_balance(records: Seq<Transaction>, accounts: Map<u16, Account>, from: int, to: int)
    requires
        all_balanced(accounts),
        run_exact(records, accounts, from, to),
    ensures
        all_balanced(run(records, accounts, from, to).1),
    decreases to - from,
{
    if from < to {
        let client = records[from].client;
        lemma_step_keeps_balance(records, accounts, from, client);
        let (r, a) = step(records, accounts, from, client);
        lemma_run_keeps_balance(r, a, from + 1, to);
    }
}

/// Once an account is locked, no run changes it, whatever the records are.
pub proof fn lemma_locked_account_stays(
    records: Seq<Transaction>,
    accounts: Map<u16, Account>,
    from: int,
    to: int,
    client: u16,
)
    requires
        accounts.contains_key(client),
        accounts[client].locked,
    ensures
        run(records, accounts, from, to).1.contains_key(client),
        run(records, accounts, from, to).1[client] == accounts[client],
    decreases to - from,
{
    if from < to {
        let (r, a) = step(records, accounts, from, records[from].client);
        lemma_locked_account_stays(r, a, from + 1, to, client);
    }
}

/// Once an account is locked, no batch changes it, whatever its records are:
/// no deposit and no withdrawal moves its funds.
pub proof fn lemma_batch_keeps_locked_account(
    records: Seq<Transaction>,
    accounts: Map<u16, Account>,
    batch: Seq<Transaction>,
    client: u16,
)
    requires
        accounts.contains_key(client),
        accounts[client].locked,
    ensures
        after_batch(records, accounts, batch).1.contains_key(client),
        after_batch(records, accounts, batch).1[client] == accounts[client],
{
    lemma_locked_account_stays(
        records + batch,
        accounts,
        records.len() as int,
        (records.len() + batch.len()) as int,
        client,
    );
}

/// Of two disputes of one client on the same `tx`, applied one after the
/// other with nothing between them, the second changes nothing.
pub proof fn lemma_second_dispute_changes_nothing(
    records: Seq<Transaction>,
    accounts: Map<u16, Account>,
    first: int,
    second: int,
)
    requires
        0 <= first < records.len(),
        0 <= second < records.len(),
        records[first].kind == Type::Dispute,
        records[second].kind == Type::Dispute,
        records[first].tx == records[second].tx,
        records[first].client == records[second].client,
    ensures
        ({
            let once = step(records, accounts, first, records[first].client);
            step(once.0, once.1, second, records[first].client) == once
        }),
{
    let client = records[first].client;
    let tx = records[first].tx;
    let once = step(records, accounts, first, client);
    let twice = step(once.0, once.1, second, client);
    lemma_last_indexed_is_last(records, tx);
    lemma_step_keeps_records(records, accounts, first, client);
    assert(once.0[second].kind == Type::Dispute && once.0[second].tx == tx);
    if let Some(t) = last_indexed(records, tx) {
        lemma_update_keeps_lookup(records, t, records[t].flagged(true), tx);
    }
    assert(last_indexed(once.0, tx) == last_indexed(records, tx));
    assert(twice.0 =~= once.0);
    assert(twice.1 =~= once.1);
}

/// A lookup finds in a longer sequence what it found in the shorter one, as
/// long as no deposit or withdrawal of the added records carries the `tx`.
pub proof fn lemma_lookup_in_longer(records: Seq<Transaction>, later: Seq<Transaction>, tx: u32)
    requires
        forall|j: int| 0 <= j < later.len() && (#[trigger] later[j]).is_target() ==> later[j].tx != tx,
    ensures
        last_indexed(records + later, tx) == last_indexed(records, tx),
    decreases later.len(),
{
    if later.len() == 0 {
        assert(records + later =~= records);
    } else {
        let shorter = later.drop_last();
        assert((records + later).drop_last() =~= records + shorter);
        assert((records + later).last() == later[later.len() - 1]);
        assert forall|j: int| 0 <= j < shorter.len() && (#[trigger] shorter[j]).is_target() implies shorter[j].tx
            != tx by {
            assert(shorter[j] == later[j]);
        }
        lemma_lookup_in_longer(records, shorter, tx);
    }
}

/// Whether no deposit or withdrawal among `later` carries the `tx` that a
/// dispute, a resolution or a chargeback at one of the positions from `from`
/// up to, but without, `to` refers to.
pub open spec fn refers_only_back(records: Seq<Transaction>, from: int, to: int, later: Seq<Transaction>) -> bool {
    forall|i: int, j: int|
        from <= i < to && 0 <= j < later.len() && !(#[trigger] records[i]).is_target()
            && (#[trigger] later[j]).is_target() ==> later[j].tx != records[i].tx
}

/// A step on records that are followed by `later` does what it does without
/// them, as long as the step's record does not refer to one of them.
pub proof fn lemma_step_before_later_records(
    records: Seq<Transaction>,
    accounts: Map<u16, Account>,
    position: int,
    client: u16,
    later: Seq<Transaction>,
)
    requires
        0 <= position < records.len(),
        refers_only_back(records, position, position + 1, later),
    ensures
        step(records + later, accounts, position, client) == (
            step(records, accounts, position, client).0 + later,
            step(records, accounts, position, client).1,
        ),
{
    let longer = records + later;
    let record = records[position];
    assert(longer[position] == record);
    lemma_last_indexed_is_last(records, record.tx);
    if !record.is_target() {
        assert forall|j: int| 0 <= j < later.len() && (#[trigger] later[j]).is_target() implies later[j].tx
            != record.tx by {
            assert(!records[position].is_target());
        }
        lemma_lookup_in_longer(records, later, record.tx);
        if let Some(t) = last_indexed(records, record.tx) {
            assert(longer[t] == records[t]);
        }
    }
    assert(planned(longer, position) == planned(records, position));
    let (action, target) = planned(records, position);
    assert(marked(longer, action, target) =~= marked(records, action, target) + later);
}

/// A run on records that are followed by `later` does what it does without
/// them, as long as none of its records refers to one of them.
pub proof fn lemma_run_before_later_records(
    records: Seq<Transaction>,
    accounts: Map<u16, Account>,
    from: int,
    to: int,
    later: Seq<Transaction>,
)
    requires
        0 <= from,
        to <= records.len(),
        refers_only_back(records, from, to, later),
    ensures
        run(records + later, accounts, from, to) == (
            run(records, accounts, from, to).0 + later,
            run(records, accounts, from, to).1,
        ),
        run(records, accounts, from, to).0.len() == records.len(),
    decreases to - from,
{
    if from < to {
        let client = records[from].client;
        assert((records + later)[from] == records[from]);
        assert(refers_only_back(records, from, from + 1, later));
        lemma_step_before_later_records(records, accounts, from, client, later);
        lemma_step_keeps_records(records, accounts, from, client);
        let (r, a) = step(records, accounts, from, client);
        assert(refers_only_back(r, from + 1, to, later)) by {
            assert forall|i: int, j: int|
                from + 1 <= i < to && 0 <= j < later.len() && !(#[trigger] r[i]).is_target()
                    && (#[trigger] later[j]).is_target() implies later[j].tx != r[i].tx by {
                assert(r[i].kind == records[i].kind && r[i].tx == records[i].tx);
                assert(!records[i].is_target());
            }
        }
        lemma_run_before_later_records(r, a, from + 1, to, later);
    }
}

/// A run up to `to` is a run up to `mid` and then a run from there.
pub proof fn lemma_run_in_two_parts(
    records: Seq<Transaction>,
    accounts: Map<u16, Account>,
    from: int,
    mid: int,
    to: int,
)
    requires
        from <= mid <= to,
    ensures
        run(records, accounts, from, to) == run(
            run(records, accounts, from, mid).0,
            run(records, accounts, from, mid).1,
            mid,
            to,
        ),
    decreases mid - from,
{
    if from < mid {
        let (r, a) = step(records, accounts, from, records[from].client);
        lemma_run_in_two_parts(r, a, from + 1, mid, to);
    }
}

/// Where the arithmetic of applying a batch is exact, and the accounts were
/// balanced before, the total of every account is afterwards the sum of what
/// is available and what is held.
pub proof fn lemma_batch_keeps_balance(
    records: Seq<Transaction>,
    accounts: Map<u16, Account>,
    batch: Seq<Transaction>,
)
    requires
        all_balanced(accounts),
        batch_exact(records, accounts, batch),
    ensures
        all_balanced(after_batch(records, accounts, batch).1),
{
    lemma_run_keeps_balance(
        records + batch,
        accounts,
        records.len() as int,
        (records.len() + batch.len()) as int,
    );
}

/// Two batches that are processed one after the other leave the records and
/// the accounts that the two leave when they are processed as one batch. This
/// holds where no dispute, resolution or chargeback of the first batch refers
/// to a deposit or withdrawal of the second.
pub proof fn lemma_batches_compose(
    records: Seq<Transaction>,
    accounts: Map<u16, Account>,
    first: Seq<Transaction>,
    second: Seq<Transaction>,
)
    requires
        refers_only_back(records + first, records.len() as int, (records.len() + first.len()) as int, second),
    ensures
        ({
            let half = after_batch(records, accounts, first);
            after_batch(half.0, half.1, second) == after_batch(records, accounts, first + second)
        }),
{
    let start = records.len() as int;
    let mid = (records.len() + first.len()) as int;
    let end = mid + second.len();
    assert(records + (first + second) =~= (records + first) + second);
    lemma_run_before_later_records(records + first, accounts, start, mid, second);
    lemma_run_in_two_parts((records + first) + second, accounts, start, mid, end);
}

} // verus!

//! Transaction records and the store that keeps them in arrival order.

use std::collections::HashMap;
use vstd::prelude::*;
use crate::account::Action;
use crate::amount::Amount;

verus! {

broadcast use vstd::std_specs::hash::group_hash_axioms;

/// The kinds of transaction records.
#[derive(Clone, Copy, Debug, PartialEq, Eq, Structural)]
pub enum Type {
    Deposit,
    Withdrawal,
    Dispute,
    Resolve,
    Chargeback,
}

/// One transaction record. A dispute, a resolution and a chargeback carry the
/// `tx` of the deposit or withdrawal that they are about, and no amount.
#[derive(Clone, Copy, Debug)]
pub struct Transaction {
    pub kind: Type,
    pub client: u16,
    pub tx: u32,
    pub amount: Option<Amount>,
    /// Whether a dispute is open on this record.
    pub disputed: bool,
}

impl Transaction {
    /// Whether a later record can refer to this one: deposits and withdrawals
    /// only.
    pub open spec fn is_target(self) -> bool {
        self.kind == Type::Deposit || self.kind == Type::Withdrawal
    }

    /// This record with its dispute flag set to `disputed`.
    pub open spec fn flagged(self, disputed: bool) -> Transaction {
        Transaction { disputed, ..self }
    }
}

/// The position of the last deposit or withdrawal in `records` that carries
/// `tx`, if there is one.
pub open spec fn last_indexed(records: Seq<Transaction>, tx: u32) -> Option<int>
    decreases records.len(),
{
    if records.len() == 0 {
        None
    } else if records.last().is_target() && records.last().tx == tx {
        Some(records.len() - 1)
    } else {
        last_indexed(records.drop_last(), tx)
    }
}

/// What the record at `position` asks for, and the position of the record that
/// it refers to where it is a dispute, a resolution or a chargeback that takes
/// effect.
pub open spec fn planned(records: Seq<Transaction>, position: int) -> (Action, Option<int>) {
    if 0 <= position < records.len() {
        let record = records[position];
        match record.kind {
            Type::Deposit => match record.amount {
                Some(x) if !record.disputed => (Action::Deposit(x), None),
                _ => (Action::Nothing, None),
            },
            Type::Withdrawal => match record.amount {
                Some(x) if !record.disputed => (Action::Withdraw(x), None),
                _ => (Action::Nothing, None),
            },
            Type::Dispute => match last_indexed(records, record.tx) {
                Some(t) => match records[t].amount {
                    Some(x) if !records[t].disputed => (Action::Hold(x), Some(t)),
                    _ => (Action::Nothing, None),
                },
                None => (Action::Nothing, None),
            },
            Type::Resolve => match last_indexed(records, record.tx) {
                Some(t) => match records[t].amount {
                    Some(x) if records[t].disputed => (Action::Release(x), Some(t)),
                    _ => (Action::Nothing, None),
                },
                None => (Action::Nothing, None),
            },
            Type::Chargeback => match last_indexed(records, record.tx) {
                Some(t) => match records[t].amount {
                    Some(x) if records[t].disputed => (Action::ChargeBack(x), Some(t)),
                    _ => (Action::Nothing, None),
                },
                None => (Action::Nothing, None),
            },
        }
    } else {
        (Action::Nothing, None)
    }
}

/// The records after `action` applied: a hold opens the dispute on its
/// target, a release closes it, and nothing else changes a record.
pub open spec fn marked(records: Seq<Transaction>, action: Action, target: Option<int>) -> Seq<Transaction> {
    match (action, target) {
        (Action::Hold(_), Some(t)) => records.update(t, records[t].flagged(true)),
        (Action::Release(_), Some(t)) => records.update(t, records[t].flagged(false)),
        _ => records,
    }
}

/// A position that is found is that of a deposit or withdrawal with the `tx`
/// asked for, and no later deposit or withdrawal carries that `tx`.
pub proof fn lemma_last_indexed_is_last(records: Seq<Transaction>, tx: u32)
    ensures
        last_indexed(records, tx) matches Some(p) ==> {
            &&& 0 <= p < records.len()
            &&& records[p].is_target()
            &&& records[p].tx == tx
            &&& forall|q: int| p < q < records.len() ==> !((#[trigger] records[q]).is_target() && records[q].tx == tx)
        },
        last_indexed(records, tx) is None ==> forall|q: int| 0 <= q < records.len() ==> !((#[trigger] records[q]).is_target() && records[q].tx == tx),
    decreases records.len(),
{
    if records.len() > 0 {
        let shorter = records.drop_last();
        lemma_last_indexed_is_last(shorter, tx);
        assert forall|q: int| 0 <= q < shorter.len() implies (#[trigger] records[q]) == shorter[q] by {
        }
    }
}

/// A record that changes in nothing but its amount, client or dispute flag
/// leaves every lookup as it was.
pub proof fn lemma_update_keeps_lookup(records: Seq<Transaction>, p: int, record: Transaction, tx: u32)
    requires
        0 <= p < records.len(),
        record.kind == records[p].kind,
        record.tx == records[p].tx,
    ensures
        last_indexed(records.update(p, record), tx) == last_indexed(records, tx),
    decreases records.len(),
{
    let updated = records.update(p, record);
    if p < records.len() - 1 {
        assert(updated.drop_last() =~= records.drop_last().update(p, record));
        lemma_update_keeps_lookup(records.drop_last(), p, record, tx);
    } else {
        assert(updated.drop_last() =~= records.drop_last());
    }
}

/// The position that the index gives for `tx`.
pub open spec fn lookup(index: Map<u32, usize>, tx: u32) -> Option<int> {
    if index.contains_key(tx) {
        Some(index[tx] as int)
    } else {
        None
    }
}

/// The transaction records in arrival order, with an index from the `tx` of
/// each deposit and withdrawal to its position.
pub struct Transactions {
    transactions: Vec<Transaction>,
    tx_index_map: HashMap<u32, usize>,
}

impl View for Transactions {
    type V = Seq<Transaction>;

    /// The records in arrival order.
    closed spec fn view(&self) -> Seq<Transaction> {
        self.transactions@
    }
}

impl Default for Transactions {
    /// An empty store.
    fn default() -> (r: Transactions)
        ensures
            r@ == Seq::<Transaction>::empty(),
            r.wf(),
    {
        Transactions { transactions: Vec::new(), tx_index_map: HashMap::new() }
    }
}

impl Transactions {
    /// Whether the index holds, for every `tx`, the position of the last
    /// deposit or withdrawal that carries it, and nothing else.
    pub closed spec fn wf(&self) -> bool {
        forall|tx: u32| #[trigger] last_indexed(self.transactions@, tx) == lookup(self.tx_index_map@, tx)
    }

    spec fn indexed_up_to(&self, n: int) -> bool {
        forall|tx: u32| #[trigger] last_indexed(self.transactions@.take(n), tx) == lookup(self.tx_index_map@, tx)
    }

    /// A store of the given records, in their order.
    pub fn from(transactions: Vec<Transaction>) -> (r: Transactions)
        ensures
            r@ == transactions@,
            r.wf(),
    {
        let mut r = Transactions { transactions, tx_index_map: HashMap::new() };
        r.populate_map(0);
        r
    }

    /// Puts the records of `trxs` behind those already held, in their order,
    /// and brings the index up to date.
    pub fn extend(&mut self, trxs: Transactions)
        requires
            old(self).wf(),
        ensures
            final(self)@ == old(self)@ + trxs@,
            final(self).wf(),
    {
        let n = self.transactions.len();
        let mut more = trxs.transactions;
        self.transactions.append(&mut more);
        assert(self.transactions@.take(n as int) =~= old(self).transactions@);
        self.populate_map(n);
    }

    /// Indexes the deposits and withdrawals from position `from` on.
    fn populate_map(&mut self, from: usize)
        requires
            from <= old(self).transactions@.len(),
            old(self).indexed_up_to(from as int),
        ensures
            final(self).transactions@ == old(self).transactions@,
            final(self).wf(),
    {
        let mut index = from;
        while index < self.transactions.len()
            invariant
                index <= self.transactions@.len(),
                self.transactions@ == old(self).transactions@,
                self.indexed_up_to(index as int),
            decreases self.transactions@.len() - index,
        {
            let transaction = self.transactions[index];
            let ghost before = self.tx_index_map@;
            let ghost shorter = self.transactions@.take(index as int);
            let ghost longer = self.transactions@.take(index + 1);
            assert(longer.drop_last() =~= shorter);
            assert(longer.last() == transaction);
            if transaction.kind == Type::Deposit || transaction.kind == Type::Withdrawal {
                self.tx_index_map.insert(transaction.tx, index);
            }
            assert forall|tx: u32| #[trigger] last_indexed(longer, tx) == lookup(self.tx_index_map@, tx) by {
                assert(last_indexed(shorter, tx) == lookup(before, tx));
            }
            index += 1;
        }
        assert(self.transactions@.take(index as int) =~= self.transactions@);
    }

    /// The record at `index`, if there is one.
    pub fn get(&self, index: usize) -> (r: Option<&Transaction>)
        ensures
            r is Some <==> index < self@.len(),
            r matches Some(t) ==> *t == self@[index as int],
    {
        if index < self.transactions.len() {
            Some(&self.transactions[index])
        } else {
            None
        }
    }

    /// The number of records.
    pub fn len(&self) -> (r: usize)
        ensures
            r == self@.len(),
    {
        self.transactions.len()
    }

    /// Whether there is no record.
    pub fn is_empty(&self) -> (r: bool)
        ensures
            r == (self@.len() == 0),
    {
        self.len() == 0
    }

    /// The position of the last deposit or withdrawal that carries `tx`.
    pub fn position_of(&self, tx: u32) -> (r: Option<usize>)
        requires
            self.wf(),
        ensures
            r is Some <==> last_indexed(self@, tx) is Some,
            r matches Some(p) ==> last_indexed(self@, tx) == Some(p as int) && p < self@.len(),
    {
        proof {
            assert(last_indexed(self.transactions@, tx) == lookup(self.tx_index_map@, tx));
            lemma_last_indexed_is_last(self@, tx);
        }
        match self.tx_index_map.get(&tx) {
            Some(index) => Some(*index),
            None => None,
        }
    }

    /// The last deposit or withdrawal that carries `tx`, to be changed in
    /// place. The index stays right as long as the record keeps its kind and
    /// its `tx`.
    pub fn get_tx_mut(&mut self, tx: u32) -> (r: Option<&mut Transaction>)
        requires
            old(self).wf(),
        ensures
            match r {
                Some(t) => last_indexed(old(self)@, tx) matches Some(p) && *t == old(self)@[p]
                    && final(self)@ == old(self)@.update(p, *final(t)) && (final(t).kind == t.kind
                    && final(t).tx == t.tx ==> final(self).wf()),
                None => last_indexed(old(self)@, tx) is None && final(self)@ == old(self)@
                    && final(self).wf(),
            },
    {
        match self.position_of(tx) {
            Some(index) => {
                proof {
                    let before = self.transactions@;
                    let index_map = self.tx_index_map@;
                    assert forall|record: Transaction, other: u32|
                        record.kind == before[index as int].kind && record.tx == before[index as int].tx implies #[trigger] last_indexed(
                            before.update(index as int, record),
                            other,
                        ) == lookup(index_map, other) by {
                        lemma_update_keeps_lookup(before, index as int, record, other);
                    }
                }
                let record = &mut self.transactions[index];
                Some(record)
            },
            None => None,
        }
    }

    /// What the record at `position` asks for, and the position of the record
    /// that it refers to.
    pub fn plan(&self, position: usize) -> (r: (Action, Option<usize>))
        requires
            self.wf(),
        ensures
            r.0 == planned(self@, position as int).0,
            r.1 is Some <==> planned(self@, position as int).1 is Some,
            r.1 matches Some(t) ==> planned(self@, position as int).1 == Some(t as int) && t < self@.len(),
    {
        if position >= self.transactions.len() {
            return (Action::Nothing, None);
        }
        let record = self.transactions[position];
        match record.kind {
            Type::Deposit => match record.amount {
                Some(x) if !record.disputed => (Action::Deposit(x), None),
                _ => (Action::Nothing, None),
            },
            Type::Withdrawal => match record.amount {
                Some(x) if !record.disputed => (Action::Withdraw(x), None),
                _ => (Action::Nothing, None),
            },
            Type::Dispute => match self.position_of(record.tx) {
                Some(t) => match self.transactions[t].amount {
                    Some(x) if !self.transactions[t].disputed => (Action::Hold(x), Some(t)),
                    _ => (Action::Nothing, None),
                },
                None => (Action::Nothing, None),
            },
            Type::Resolve => match self.position_of(record.tx) {
                Some(t) => match self.transactions[t].amount {
                    Some(x) if self.transactions[t].disputed => (Action::Release(x), Some(t)),
                    _ => (Action::Nothing, None),
                },
                None => (Action::Nothing, None),
            },
            Type::Chargeback => match self.position_of(record.tx) {
                Some(t) => match self.transactions[t].amount {
                    Some(x) if self.transactions[t].disputed => (Action::ChargeBack(x), Some(t)),
                    _ => (Action::Nothing, None),
                },
                None => (Action::Nothing, None),
            },
        }
    }

    /// Sets the dispute flag of the record at `position`.
    pub fn mark(&mut self, position: usize, disputed: bool)
        requires
            old(self).wf(),
            position < old(self)@.len(),
        ensures
            final(self)@ == old(self)@.update(position as int, old(self)@[position as int].flagged(disputed)),
            final(self).wf(),
    {
        let mut record = self.transactions[position];
        record.disputed = disputed;
        self.transactions.set(position, record);
        proof {
            let before = old(self).transactions@;
            assert forall|tx: u32| #[trigger] last_indexed(self.transactions@, tx) == lookup(self.tx_index_map@, tx) by {
                lemma_update_keeps_lookup(before, position as int, record, tx);
            }
        }
    }
}

} // verus!

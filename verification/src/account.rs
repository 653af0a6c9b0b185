//! Client accounts, the movements of funds on one account, and the table of
//! all accounts.

use vstd::prelude::*;
use crate::amount::{checked_difference, checked_sum, less_than, Amount};

verus! {

/// The balances of one client.
#[derive(Clone, Copy, Debug)]
pub struct Account {
    pub client: u16,
    /// Funds free to withdraw.
    pub available: Amount,
    /// Funds frozen while a dispute is open.
    pub held: Amount,
    /// All funds of the account.
    pub total: Amount,
    /// Set by a chargeback, and never cleared.
    pub locked: bool,
}

/// One movement of funds on an account.
#[derive(Clone, Copy, Debug)]
pub enum Action {
    /// No movement.
    Nothing,
    /// Funds come in.
    Deposit(Amount),
    /// Funds go out, if enough are available.
    Withdraw(Amount),
    /// A dispute opens: funds move from available to held.
    Hold(Amount),
    /// A dispute is resolved: funds move from held back to available.
    Release(Amount),
    /// A dispute ends in a chargeback: held funds leave and the account locks.
    ChargeBack(Amount),
}

impl Account {
    /// The account that a client has before anything happened on it.
    pub open spec fn fresh(client: u16) -> Account {
        Account {
            client,
            available: Amount::spec_zero(),
            held: Amount::spec_zero(),
            total: Amount::spec_zero(),
            locked: false,
        }
    }

    /// Whether the total is the sum of what is available and what is held.
    pub open spec fn balanced(self) -> bool {
        self.total.value() == self.available.value() + self.held.value()
    }

    /// The account after `action`, or `None` where the action does not apply:
    /// where there is nothing to do, where a withdrawal asks for more than is
    /// available, or where a new balance is too large for a decimal.
    pub open spec fn performed(self, action: Action) -> Option<Account> {
        match action {
            Action::Nothing => None,
            Action::Deposit(x) => match (self.available.plus(x), self.total.plus(x)) {
                (Some(a), Some(t)) => Some(Account { available: a, total: t, ..self }),
                _ => None,
            },
            Action::Withdraw(x) => if self.available.value() < x.value() {
                None
            } else {
                match (self.available.minus(x), self.total.minus(x)) {
                    (Some(a), Some(t)) => Some(Account { available: a, total: t, ..self }),
                    _ => None,
                }
            },
            Action::Hold(x) => match (self.available.minus(x), self.held.plus(x)) {
                (Some(a), Some(h)) => Some(Account { available: a, held: h, ..self }),
                _ => None,
            },
            Action::Release(x) => match (self.available.plus(x), self.held.minus(x)) {
                (Some(a), Some(h)) => Some(Account { available: a, held: h, ..self }),
                _ => None,
            },
            Action::ChargeBack(x) => match (self.held.minus(x), self.total.minus(x)) {
                (Some(h), Some(t)) => Some(Account { held: h, total: t, locked: true, ..self }),
                _ => None,
            },
        }
    }

    /// The account after `action`: unchanged where the action does not apply.
    pub open spec fn after(self, action: Action) -> Account {
        match self.performed(action) {
            Some(account) => account,
            None => self,
        }
    }

    /// Whether the decimal arithmetic gives each balance that `action` asks
    /// for, and gives it without rounding.
    pub open spec fn exact(self, action: Action) -> bool {
        match action {
            Action::Nothing => true,
            Action::Deposit(x) => self.available.exact_sum(x) && self.total.exact_sum(x),
            Action::Withdraw(x) => self.available.value() < x.value() || (
            self.available.exact_difference(x) && self.total.exact_difference(x)),
            Action::Hold(x) => self.available.exact_difference(x) && self.held.exact_sum(x),
            Action::Release(x) => self.available.exact_sum(x) && self.held.exact_difference(x),
            Action::ChargeBack(x) => self.held.exact_difference(x) && self.total.exact_difference(x),
        }
    }

    /// Whether every balance that `action` asks for can be written, beside
    /// the two numbers it is made of, with the larger of their scales.
    pub open spec fn in_range(self, action: Action) -> bool {
        match action {
            Action::Nothing => true,
            Action::Deposit(x) => self.available.sum_fits(x) && self.total.sum_fits(x),
            Action::Withdraw(x) => self.available.value() < x.value() || (
            self.available.difference_fits(x) && self.total.difference_fits(x)),
            Action::Hold(x) => self.available.difference_fits(x) && self.held.sum_fits(x),
            Action::Release(x) => self.available.sum_fits(x) && self.held.difference_fits(x),
            Action::ChargeBack(x) => self.held.difference_fits(x) && self.total.difference_fits(x),
        }
    }

    /// A new account is balanced.
    pub proof fn lemma_fresh_is_balanced(client: u16)
        ensures
            Account::fresh(client).balanced(),
    {
        Amount::lemma_zero_is_nothing();
    }

    /// A new account: no funds, not locked.
    pub fn new(client: u16) -> (r: Account)
        ensures
            r == Account::fresh(client),
            r.balanced(),
    {
        Account {
            client,
            available: Amount::zero(),
            held: Amount::zero(),
            total: Amount::zero(),
            locked: false,
        }
    }

    /// Performs `action` on the account and says whether it applied. An action
    /// that does not apply leaves the account as it was.
    pub fn perform(&mut self, action: Action) -> (applied: bool)
        ensures
            applied == old(self).performed(action).is_some(),
            *final(self) == old(self).after(action),
            old(self).in_range(action) ==> old(self).exact(action),
    {
        match action {
            Action::Nothing => false,
            Action::Deposit(x) => {
                match (checked_sum(self.available, x), checked_sum(self.total, x)) {
                    (Some(a), Some(t)) => {
                        self.available = a;
                        self.total = t;
                        true
                    },
                    _ => false,
                }
            },
            Action::Withdraw(x) => {
                if less_than(self.available, x) {
                    false
                } else {
                    match (checked_difference(self.available, x), checked_difference(self.total, x)) {
                        (Some(a), Some(t)) => {
                            self.available = a;
                            self.total = t;
                            true
                        },
                        _ => false,
                    }
                }
            },
            Action::Hold(x) => {
                match (checked_difference(self.available, x), checked_sum(self.held, x)) {
                    (Some(a), Some(h)) => {
                        self.available = a;
                        self.held = h;
                        true
                    },
                    _ => false,
                }
            },
            Action::Release(x) => {
                match (checked_sum(self.available, x), checked_difference(self.held, x)) {
                    (Some(a), Some(h)) => {
                        self.available = a;
                        self.held = h;
                        true
                    },
                    _ => false,
                }
            },
            Action::ChargeBack(x) => {
                match (checked_difference(self.held, x), checked_difference(self.total, x)) {
                    (Some(h), Some(t)) => {
                        self.held = h;
                        self.total = t;
                        self.locked = true;
                        true
                    },
                    _ => false,
                }
            },
        }
    }

    /// An action whose arithmetic is exact keeps a balanced account balanced.
    pub proof fn lemma_exact_action_keeps_balance(self, action: Action)
        requires
            self.balanced(),
            self.exact(action),
        ensures
            self.after(action).balanced(),
    {
    }

    /// A withdrawal of more than is available changes nothing. Any other
    /// withdrawal whose arithmetic is exact takes exactly the amount from what
    /// is available and from the total, and leaves what is available at zero
    /// or above.
    pub proof fn lemma_withdrawal_never_overdraws(self, amount: Amount)
        requires
            self.exact(Action::Withdraw(amount)),
        ensures
            self.available.value() < amount.value() ==> self.after(Action::Withdraw(amount)) == self,
            self.available.value() >= amount.value() ==> {
                let after = self.after(Action::Withdraw(amount));
                &&& after.available.value() == self.available.value() - amount.value()
                &&& after.total.value() == self.total.value() - amount.value()
                &&& after.available.value() >= 0
                &&& after.held == self.held
                &&& after.locked == self.locked
            },
    {
    }

    /// No action unlocks an account, and none changes the client.
    pub proof fn lemma_action_keeps_lock(self, action: Action)
        ensures
            self.locked ==> self.after(action).locked,
            self.after(action).client == self.client,
    {
    }
}

/// The table of all accounts, one per client.
pub struct Accounts {
    items: Vec<Option<Account>>,
}

impl View for Accounts {
    type V = Map<u16, Account>;

    /// The account of each client that has one.
    closed spec fn view(&self) -> Map<u16, Account> {
        Map::new(
            |c: u16| (c as int) < self.items@.len() && self.items@[c as int] is Some,
            |c: u16| self.items@[c as int].unwrap(),
        )
    }
}

/// The account that `client` has in `accounts`, or a new one.
pub open spec fn account_of(accounts: Map<u16, Account>, client: u16) -> Account {
    if accounts.contains_key(client) {
        accounts[client]
    } else {
        Account::fresh(client)
    }
}

/// The clients below `bound` that have an account, in ascending order, each
/// with its account.
pub open spec fn ascending(accounts: Map<u16, Account>, bound: int) -> Seq<Account>
    decreases bound,
{
    if bound <= 0 {
        Seq::empty()
    } else if accounts.contains_key((bound - 1) as u16) {
        ascending(accounts, bound - 1).push(accounts[(bound - 1) as u16])
    } else {
        ascending(accounts, bound - 1)
    }
}

impl Default for Accounts {
    /// An empty table.
    fn default() -> (r: Accounts)
        ensures
            r@ == Map::<u16, Account>::empty(),
    {
        Accounts::new()
    }
}

impl Accounts {
    /// An empty table.
    pub fn new() -> (r: Accounts)
        ensures
            r@ == Map::<u16, Account>::empty(),
    {
        let r = Accounts { items: Vec::new() };
        assert(r@ =~= Map::<u16, Account>::empty());
        r
    }

    /// The account of `client`, if it has one.
    pub fn get(&self, client: u16) -> (r: Option<&Account>)
        ensures
            r is Some <==> self@.contains_key(client),
            r matches Some(a) ==> *a == self@[client],
    {
        if (client as usize) < self.items.len() {
            self.items[client as usize].as_ref()
        } else {
            None
        }
    }

    /// The account of `client`, to be changed in place. A client that has none
    /// gets a new one first.
    pub fn get_mut(&mut self, client: u16) -> (r: &mut Account)
        ensures
            *r == account_of(old(self)@, client),
            final(self)@ == old(self)@.insert(client, *final(r)),
    {
        let at = client as usize;
        while self.items.len() <= at
            invariant
                self@ == old(self)@,
                at == client,
            decreases at + 1 - self.items.len(),
        {
            let ghost before = self@;
            self.items.push(None);
            assert(self@ =~= before);
        }
        if self.items[at].is_none() {
            self.items.set(at, Some(Account::new(client)));
        }
        let ghost filled = self.items@;
        assert(filled[at as int] == Some(account_of(old(self)@, client)));
        assert(forall|c: u16| c != client ==> (old(self)@.contains_key(c) <==> (c as int) < filled.len() && filled[c as int] is Some));
        let slot = &mut self.items[at];
        match slot {
            Some(account) => account,
            None => vstd::pervasive::unreached(),
        }
    }

    /// All accounts, by ascending client.
    pub fn all_sorted_by_client_id(&self) -> (r: Vec<Account>)
        ensures
            r@ == ascending(self@, 65536),
    {
        let mut out: Vec<Account> = Vec::new();
        let mut i: usize = 0;
        while i < self.items.len() && i < 65536
            invariant
                i <= self.items.len(),
                i <= 65536,
                out@ == ascending(self@, i as int),
            decreases self.items.len() - i,
        {
            assert(self@.contains_key(i as u16) <==> self.items@[i as int] is Some);
            if let Some(account) = self.items[i] {
                out.push(account);
            }
            i += 1;
        }
        proof {
            if i < 65536 {
                lemma_ascending_beyond(self@, i as int, 65536);
            }
        }
        out
    }
}

/// Above the last client that has an account, the ascending list grows no
/// more.
proof fn lemma_ascending_beyond(accounts: Map<u16, Account>, from: int, to: int)
    requires
        0 <= from,
        forall|c: u16| accounts.contains_key(c) ==> (c as int) < from,
    ensures
        from <= to <= 65536 ==> ascending(accounts, to) == ascending(accounts, from),
    decreases to,
{
    if from < to && to <= 65536 {
        lemma_ascending_beyond(accounts, from, to - 1);
    }
}

} // verus!

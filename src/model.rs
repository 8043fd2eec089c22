//! Client accounts and the operations that change them.
use crate::amount::Amount;
use crate::funds::{lemma_sum_bounds_value, lemma_sum_empty, lemma_sum_insert, lemma_sum_remove, sum_values};
use crate::result::Error;
use std::collections::HashMap;
use vstd::prelude::*;

verus! {

/// Identifies one client account.
pub type ClientId = u16;

/// Identifies one deposit or withdrawal.
pub type TransactionId = u64;

/// All client accounts, indexed by client id.
pub type Clients = HashMap<u16, Client>;

/// The operations that can be applied to a client account.
#[derive(Debug, Clone, Copy, PartialEq, Eq, Structural)]
pub enum Transaction {
    /// Closes a dispute against the client.
    Chargeback { transaction: TransactionId },
    /// Adds money to the account.
    Deposit { transaction: TransactionId, amount: Amount },
    /// Contests a withdrawal.
    Dispute { transaction: TransactionId },
    /// Closes a dispute for the client.
    Resolve { transaction: TransactionId },
    /// Takes money out of the account.
    Withdrawl { transaction: TransactionId, amount: Amount },
}

/// What an account is, as the operations see it.
pub struct ClientView {
    pub client: u16,
    /// Funds free to withdraw.
    pub available: u64,
    /// Funds frozen by open disputes.
    pub held: u64,
    /// `available + held`, as of the last synchronization.
    pub total: u64,
    /// Set by a chargeback.
    pub locked: bool,
    /// Withdrawals that are not under dispute, by transaction id.
    pub withdrawals: Map<u64, u64>,
    /// Withdrawals under dispute, by transaction id.
    pub disputed: Map<u64, u64>,
}

impl ClientView {
    /// The invariant of every account: the held funds are exactly the
    /// disputed amounts, the account's total can be represented, and no
    /// transaction id is both withdrawn and disputed.
    pub open spec fn wf(self) -> bool {
        &&& self.withdrawals.dom().finite()
        &&& self.disputed.dom().finite()
        &&& self.available + self.held <= u64::MAX
        &&& self.held == sum_values(self.disputed)
        &&& self.withdrawals.dom().disjoint(self.disputed.dom())
    }

    /// The total agrees with the two balances.
    pub open spec fn is_synchronized(self) -> bool {
        self.total == self.available + self.held
    }
}

/// A fresh account: nothing in it, unlocked.
pub open spec fn new_client_view(id: u16) -> ClientView {
    ClientView {
        client: id,
        available: 0,
        held: 0,
        total: 0,
        locked: false,
        withdrawals: Map::empty(),
        disputed: Map::empty(),
    }
}

/// The error that a locked account answers every operation with.
pub open spec fn locked_error(c: ClientView) -> Error {
    Error::AccountLocked { client: c.client }
}

/// Deposit: the amount is added to the available funds.
pub open spec fn deposit_spec(c: ClientView, amount: u64) -> (ClientView, Result<(), Error>) {
    if c.locked {
        (c, Err(locked_error(c)))
    } else if c.available + c.held + amount > u64::MAX {
        (c, Err(Error::AmountOverflow))
    } else {
        (ClientView { available: (c.available + amount) as u64, ..c }, Ok(()))
    }
}

/// Withdrawal: the amount leaves the available funds and is recorded under
/// its transaction id, which must be new to the account.
pub open spec fn withdraw_spec(c: ClientView, transaction: u64, amount: u64) -> (
    ClientView,
    Result<(), Error>,
) {
    if c.locked {
        (c, Err(locked_error(c)))
    } else if amount > c.available {
        (c, Err(Error::InsufficientFunds { requested: amount, current_balance: c.available }))
    } else if c.withdrawals.contains_key(transaction) || c.disputed.contains_key(transaction) {
        (c, Err(Error::TransactionIdAlreadyInUse { transaction }))
    } else {
        (
            ClientView {
                available: (c.available - amount) as u64,
                withdrawals: c.withdrawals.insert(transaction, amount),
                ..c
            },
            Ok(()),
        )
    }
}

/// Dispute: a recorded withdrawal moves under dispute and its amount is
/// held. An id that is not a recorded withdrawal is ignored.
pub open spec fn dispute_spec(c: ClientView, transaction: u64) -> (ClientView, Result<(), Error>) {
    if c.locked {
        (c, Err(locked_error(c)))
    } else if !c.withdrawals.contains_key(transaction) {
        (c, Ok(()))
    } else if c.available + c.held + c.withdrawals[transaction] > u64::MAX {
        (c, Err(Error::AmountOverflow))
    } else {
        let amount = c.withdrawals[transaction];
        (
            ClientView {
                held: (c.held + amount) as u64,
                withdrawals: c.withdrawals.remove(transaction),
                disputed: c.disputed.insert(transaction, amount),
                ..c
            },
            Ok(()),
        )
    }
}

/// Resolve: a dispute closes for the client, and the held amount returns
/// to the available funds.
pub open spec fn resolve_spec(c: ClientView, transaction: u64) -> (ClientView, Result<(), Error>) {
    if c.locked {
        (c, Err(locked_error(c)))
    } else if !c.disputed.contains_key(transaction) {
        (c, Err(Error::InvalidTransactionId { transaction }))
    } else {
        let amount = c.disputed[transaction];
        (
            ClientView {
                available: (c.available + amount) as u64,
                held: (c.held - amount) as u64,
                disputed: c.disputed.remove(transaction),
                ..c
            },
            Ok(()),
        )
    }
}

/// Chargeback: a dispute closes against the client; the held amount leaves
/// the account for good and the account is locked.
pub open spec fn chargeback_spec(c: ClientView, transaction: u64) -> (
    ClientView,
    Result<(), Error>,
) {
    if c.locked {
        (c, Err(locked_error(c)))
    } else if !c.disputed.contains_key(transaction) {
        (c, Err(Error::InvalidTransactionId { transaction }))
    } else {
        let amount = c.disputed[transaction];
        (
            ClientView {
                held: (c.held - amount) as u64,
                locked: true,
                disputed: c.disputed.remove(transaction),
                ..c
            },
            Ok(()),
        )
    }
}

/// Synchronization: the total becomes the sum of the two balances.
pub open spec fn synchronize_spec(c: ClientView) -> ClientView {
    ClientView { total: (c.available + c.held) as u64, ..c }
}

/// Every operation keeps the account invariant.
pub proof fn lemma_operations_keep_wf(c: ClientView, transaction: u64, amount: u64)
    requires
        c.wf(),
    ensures
        deposit_spec(c, amount).0.wf(),
        withdraw_spec(c, transaction, amount).0.wf(),
        dispute_spec(c, transaction).0.wf(),
        resolve_spec(c, transaction).0.wf(),
        chargeback_spec(c, transaction).0.wf(),
        synchronize_spec(c).wf(),
{
    if !c.locked && c.withdrawals.contains_key(transaction) {
        lemma_sum_insert(c.disputed, transaction, c.withdrawals[transaction]);
    }
    if !c.locked && c.disputed.contains_key(transaction) {
        lemma_sum_remove(c.disputed, transaction);
    }
}

/// One client account: its balances and the history that later disputes
/// need.
pub struct Client {
    client: u16,
    available: Amount,
    held: Amount,
    total: Amount,
    locked: bool,
    transactions_withdrawls: HashMap<u64, Amount>,
    transactions_held: HashMap<u64, Amount>,
}

impl View for Client {
    type V = ClientView;

    closed spec fn view(&self) -> ClientView {
        ClientView {
            client: self.client,
            available: self.available,
            held: self.held,
            total: self.total,
            locked: self.locked,
            withdrawals: self.transactions_withdrawls@,
            disputed: self.transactions_held@,
        }
    }
}

impl Client {
    /// A new, empty, unlocked account for the client `id`.
    pub fn new(id: u16) -> (c: Self)
        ensures
            c@ == new_client_view(id),
            c@.wf(),
    {
        proof {
            lemma_sum_empty();
        }
        Self {
            client: id,
            available: 0,
            held: 0,
            total: 0,
            locked: false,
            transactions_withdrawls: HashMap::new(),
            transactions_held: HashMap::new(),
        }
    }

    /// The client that owns the account.
    pub fn client(&self) -> (r: u16)
        ensures
            r == self@.client,
    {
        self.client
    }

    /// The funds free to withdraw.
    pub fn available(&self) -> (r: Amount)
        ensures
            r == self@.available,
    {
        self.available
    }

    /// The funds held by open disputes.
    pub fn held(&self) -> (r: Amount)
        ensures
            r == self@.held,
    {
        self.held
    }

    /// The total as of the last synchronization.
    pub fn total(&self) -> (r: Amount)
        ensures
            r == self@.total,
    {
        self.total
    }

    /// Whether a chargeback has locked the account.
    pub fn locked(&self) -> (r: bool)
        ensures
            r == self@.locked,
    {
        self.locked
    }

    /// Sets the total to the sum of the held and the available funds.
    pub fn synchronize(&mut self)
        requires
            old(self)@.wf(),
        ensures
            final(self)@ == synchronize_spec(old(self)@),
            final(self)@.wf(),
            final(self)@.is_synchronized(),
    {
        self.total = self.held + self.available;
    }

    /// Adds `amount` to the available funds.
    pub fn deposit(&mut self, amount: Amount) -> (r: Result<(), Error>)
        requires
            old(self)@.wf(),
            amount > 0,
        ensures
            (final(self)@, r) == deposit_spec(old(self)@, amount),
            final(self)@.wf(),
    {
        if self.locked {
            return Err(Error::AccountLocked { client: self.client });
        }
        if amount > u64::MAX - self.available - self.held {
            return Err(Error::AmountOverflow);
        }
        self.available = self.available + amount;
        Ok(())
    }

    /// Takes `amount` from the available funds and records it under
    /// `transaction`.
    pub fn withdraw(&mut self, transaction: u64, amount: Amount) -> (r: Result<(), Error>)
        requires
            old(self)@.wf(),
            amount > 0,
        ensures
            (final(self)@, r) == withdraw_spec(old(self)@, transaction, amount),
            final(self)@.wf(),
    {
        if self.locked {
            return Err(Error::AccountLocked { client: self.client });
        }
        if amount > self.available {
            return Err(
                Error::InsufficientFunds { requested: amount, current_balance: self.available },
            );
        }
        if self.transactions_withdrawls.contains_key(&transaction)
            || self.transactions_held.contains_key(&transaction) {
            return Err(Error::TransactionIdAlreadyInUse { transaction });
        }
        self.transactions_withdrawls.insert(transaction, amount);
        self.available = self.available - amount;
        Ok(())
    }

    /// Puts a recorded withdrawal under dispute, holding its amount. An id
    /// that is not a recorded withdrawal is ignored.
    pub fn dispute(&mut self, transaction: u64) -> (r: Result<(), Error>)
        requires
            old(self)@.wf(),
        ensures
            (final(self)@, r) == dispute_spec(old(self)@, transaction),
            final(self)@.wf(),
    {
        proof {
            lemma_operations_keep_wf(self@, transaction, 1);
        }
        if self.locked {
            return Err(Error::AccountLocked { client: self.client });
        }
        let amount = match self.transactions_withdrawls.get(&transaction) {
            Some(a) => *a,
            None => {
                return Ok(());
            },
        };
        if amount > u64::MAX - self.available - self.held {
            return Err(Error::AmountOverflow);
        }
        self.transactions_withdrawls.remove(&transaction);
        self.transactions_held.insert(transaction, amount);
        self.held = self.held + amount;
        Ok(())
    }

    /// Closes the dispute on `transaction` against the client: the held
    /// amount leaves the account, which is locked.
    pub fn chargeback(&mut self, transaction: u64) -> (r: Result<(), Error>)
        requires
            old(self)@.wf(),
        ensures
            (final(self)@, r) == chargeback_spec(old(self)@, transaction),
            final(self)@.wf(),
    {
        proof {
            lemma_operations_keep_wf(self@, transaction, 1);
        }
        if self.locked {
            return Err(Error::AccountLocked { client: self.client });
        }
        let amount = match self.transactions_held.get(&transaction) {
            Some(a) => *a,
            None => {
                return Err(Error::InvalidTransactionId { transaction });
            },
        };
        proof {
            lemma_sum_bounds_value(self@.disputed, transaction);
        }
        self.transactions_held.remove(&transaction);
        self.held = self.held - amount;
        self.locked = true;
        Ok(())
    }

    /// Closes the dispute on `transaction` for the client: the held amount
    /// returns to the available funds.
    pub fn resolve(&mut self, transaction: u64) -> (r: Result<(), Error>)
        requires
            old(self)@.wf(),
        ensures
            (final(self)@, r) == resolve_spec(old(self)@, transaction),
            final(self)@.wf(),
    {
        proof {
            lemma_operations_keep_wf(self@, transaction, 1);
        }
        if self.locked {
            return Err(Error::AccountLocked { client: self.client });
        }
        let amount = match self.transactions_held.get(&transaction) {
            Some(a) => *a,
            None => {
                return Err(Error::InvalidTransactionId { transaction });
            },
        };
        proof {
            lemma_sum_bounds_value(self@.disputed, transaction);
        }
        self.transactions_held.remove(&transaction);
        self.held = self.held - amount;
        self.available = self.available + amount;
        Ok(())
    }
}

/// The account that an operation for `id` applies to: the recorded one, or a
/// fresh one on the first operation for `id`.
pub open spec fn account_of(clients: Map<u16, Client>, id: u16) -> ClientView {
    if clients.contains_key(id) {
        clients[id]@
    } else {
        new_client_view(id)
    }
}

/// Every recorded account keeps the account invariant.
pub open spec fn clients_wf(clients: Map<u16, Client>) -> bool {
    forall|id: u16| clients.contains_key(id) ==> (#[trigger] clients[id])@.wf()
}

/// What the ledger reports for a withdrawal: a shortfall of funds and an
/// unknown transaction id are skipped; every other failure stands.
pub open spec fn withdrawal_outcome(r: Result<(), Error>) -> Result<(), Error> {
    match r {
        Err(Error::InsufficientFunds { .. }) => Ok(()),
        Err(Error::InvalidTransactionId { .. }) => Ok(()),
        _ => r,
    }
}

/// One operation applied to one account, with the ledger's error policy:
/// a deposit or withdrawal of nothing is malformed, and a withdrawal's
/// recoverable failures are skipped.
pub open spec fn transaction_spec(c: ClientView, t: Transaction) -> (ClientView, Result<(), Error>) {
    match t {
        Transaction::Chargeback { transaction } => chargeback_spec(c, transaction),
        Transaction::Deposit { amount, .. } => {
            if amount == 0 {
                (c, Err(Error::CannotConvertFromIOTransaction))
            } else {
                deposit_spec(c, amount)
            }
        },
        Transaction::Dispute { transaction } => dispute_spec(c, transaction),
        Transaction::Resolve { transaction } => resolve_spec(c, transaction),
        Transaction::Withdrawl { transaction, amount } => {
            if amount == 0 {
                (c, Err(Error::CannotConvertFromIOTransaction))
            } else {
                let (d, r) = withdraw_spec(c, transaction, amount);
                (d, withdrawal_outcome(r))
            }
        },
    }
}

/// Applies `transaction` to the account of `client_id`, creating the account
/// on its first operation. An `Err` means that the whole run must stop.
pub fn process_transaction(clients: &mut Clients, client_id: ClientId, transaction: Transaction) -> (r:
    Result<(), Error>)
    requires
        clients_wf(old(clients)@),
    ensures
        clients_wf(final(clients)@),
        final(clients)@ == old(clients)@.insert(client_id, final(clients)@[client_id]),
        (final(clients)@[client_id]@, r) == transaction_spec(
            account_of(old(clients)@, client_id),
            transaction,
        ),
{
    let client = clients.entry(client_id).or_insert(Client::new(client_id));
    match transaction {
        Transaction::Chargeback { transaction } => client.chargeback(transaction),
        Transaction::Deposit { amount, .. } => {
            if amount == 0 {
                Err(Error::CannotConvertFromIOTransaction)
            } else {
                client.deposit(amount)
            }
        },
        Transaction::Dispute { transaction } => client.dispute(transaction),
        Transaction::Resolve { transaction } => client.resolve(transaction),
        Transaction::Withdrawl { transaction, amount } => {
            if amount == 0 {
                Err(Error::CannotConvertFromIOTransaction)
            } else {
                match client.withdraw(transaction, amount) {
                    Err(Error::InsufficientFunds { .. }) => Ok(()),
                    Err(Error::InvalidTransactionId { .. }) => Ok(()),
                    other => other,
                }
            }
        },
    }
}

/// Synchronizes every account, so that each total is the sum of its
/// account's available and held funds.
pub fn synchronize(clients: &mut Clients) -> (r: Result<(), Error>)
    requires
        clients_wf(old(clients)@),
    ensures
        r is Ok,
        clients_wf(final(clients)@),
        final(clients)@.dom() == old(clients)@.dom(),
        forall|id: u16|
            #![trigger final(clients)@[id]]
            old(clients)@.contains_key(id) ==> final(clients)@[id]@ == synchronize_spec(
                old(clients)@[id]@,
            ) && final(clients)@[id]@.is_synchronized(),
{
    let ghost start = clients@;
    // The ids are collected first: no account can change while the keys are
    // borrowed.
    let mut ids: Vec<u16> = Vec::new();
    for id in it: clients.keys()
        invariant
            it.seq().unref().to_set() == start.dom(),
            ids@ == it.seq().unref().take(it.index()),
            forall|k: u16|
                #![trigger start.contains_key(k)]
                start.contains_key(k) ==> ids@.contains(k) || exists|j: int|
                    it.index() <= j < it.seq().len() && #[trigger] it.seq().unref()[j] == k,
    {
        ids.push(*id);
        proof {
            let all = it.seq().unref();
            let at = it.index();
            assert(ids@ =~= all.take(at + 1));
            assert forall|k: u16| #[trigger] start.contains_key(k) implies ids@.contains(k)
                || exists|j: int| at + 1 <= j < all.len() && #[trigger] all[j] == k by {
                if !ids@.contains(k) {
                    let j = choose|j: int| at <= j < all.len() && #[trigger] all[j] == k;
                    if j == at {
                        assert(ids@[j] == k);
                    }
                }
            }
        }
    }
    let mut i: usize = 0;
    while i < ids.len()
        invariant
            clients_wf(start),
            clients_wf(clients@),
            clients@.dom() == start.dom(),
            forall|j: int| 0 <= j < ids@.len() ==> start.contains_key(#[trigger] ids@[j]),
            forall|id: u16| start.contains_key(id) ==> ids@.contains(id),
            i <= ids@.len(),
            forall|id: u16|
                #![trigger clients@[id]]
                start.contains_key(id) ==> if ids@.take(i as int).contains(id) {
                    clients@[id]@ == synchronize_spec(start[id]@)
                } else {
                    clients@[id] == start[id]
                },
        decreases ids@.len() - i,
    {
        let id = ids[i];
        let client = clients.entry(id).or_insert(Client::new(id));
        client.synchronize();
        proof {
            assert forall|k: u16| ids@.take(i + 1).contains(k) <==> (ids@.take(i as int).contains(k) || k == id) by {
                if ids@.take(i + 1).contains(k) {
                    let j = choose|j: int| 0 <= j < i + 1 && #[trigger] ids@.take(i + 1)[j] == k;
                    if j < i {
                        assert(ids@.take(i as int)[j] == k);
                    }
                }
                if ids@.take(i as int).contains(k) {
                    let j = choose|j: int| 0 <= j < i && #[trigger] ids@.take(i as int)[j] == k;
                    assert(ids@.take(i + 1)[j] == k);
                }
                if k == id {
                    assert(ids@.take(i + 1)[i as int] == k);
                }
            }
        }
        i = i + 1;
    }
    assert(ids@.take(ids@.len() as int) =~= ids@);
    Ok(())
}

} // verus!

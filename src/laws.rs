//! Laws of the ledger, stated over the account transitions that the
//! operations' contracts use.
use crate::model::{
    chargeback_spec, deposit_spec, dispute_spec, lemma_operations_keep_wf, resolve_spec,
    synchronize_spec, transaction_spec, withdraw_spec, ClientView, Transaction,
};
use crate::result::Error;
use vstd::prelude::*;

verus! {

/// Whatever operation the ledger applies, the account keeps its invariant:
/// the balances stay representable, the held funds are the disputed
/// amounts, and no transaction id is both withdrawn and disputed.
pub proof fn lemma_transaction_keeps_wf(c: ClientView, t: Transaction)
    requires
        c.wf(),
    ensures
        transaction_spec(c, t).0.wf(),
        forall|tx: u64|
            !(transaction_spec(c, t).0.withdrawals.contains_key(tx)
                && #[trigger] transaction_spec(c, t).0.disputed.contains_key(tx)),
{
    match t {
        Transaction::Chargeback { transaction } => lemma_operations_keep_wf(c, transaction, 1),
        Transaction::Deposit { transaction, amount } => lemma_operations_keep_wf(
            c,
            transaction,
            amount,
        ),
        Transaction::Dispute { transaction } => lemma_operations_keep_wf(c, transaction, 1),
        Transaction::Resolve { transaction } => lemma_operations_keep_wf(c, transaction, 1),
        Transaction::Withdrawl { transaction, amount } => lemma_operations_keep_wf(
            c,
            transaction,
            amount,
        ),
    }
    let d = transaction_spec(c, t).0;
    assert forall|tx: u64| !(d.withdrawals.contains_key(tx) && #[trigger] d.disputed.contains_key(tx)) by {
        if d.withdrawals.contains_key(tx) {
            assert(d.withdrawals.dom().contains(tx));
        }
    }
}

/// After synchronization the total is the sum of the available and the held
/// funds, and the account keeps its invariant.
pub proof fn lemma_synchronized_total(c: ClientView)
    requires
        c.wf(),
    ensures
        synchronize_spec(c).is_synchronized(),
        synchronize_spec(c).wf(),
        synchronize_spec(c).total == c.available + c.held,
{
}

/// Disputing an id that is not a recorded withdrawal (never seen, already
/// disputed, or already settled) leaves the account as it was.
pub proof fn lemma_dispute_unknown_id(c: ClientView, tx: u64)
    requires
        !c.withdrawals.contains_key(tx),
    ensures
        dispute_spec(c, tx).0 == c,
        transaction_spec(c, Transaction::Dispute { transaction: tx }).0 == c,
        !c.locked ==> dispute_spec(c, tx).1 == Ok::<(), Error>(()),
{
}

/// A deposit, a withdrawal of the same amount, a dispute of that withdrawal
/// and its resolution leave the held funds as they were and the available
/// funds raised by the deposit.
pub proof fn lemma_dispute_resolve_round_trip(c: ClientView, tx: u64, amount: u64)
    requires
        c.wf(),
        !c.locked,
        !c.withdrawals.contains_key(tx),
        !c.disputed.contains_key(tx),
        amount > 0,
        c.available + c.held + amount <= u64::MAX,
    ensures
        ({
            let c1 = transaction_spec(c, Transaction::Deposit { transaction: tx, amount });
            let c2 = transaction_spec(c1.0, Transaction::Withdrawl { transaction: tx, amount });
            let c3 = transaction_spec(c2.0, Transaction::Dispute { transaction: tx });
            let c4 = transaction_spec(c3.0, Transaction::Resolve { transaction: tx });
            &&& c1.1 is Ok && c2.1 is Ok && c3.1 is Ok && c4.1 is Ok
            &&& c4.0.available == c.available + amount
            &&& c4.0.held == c.held
            &&& c4.0.locked == c.locked
            &&& c4.0 == c1.0
        }),
{
    let c1 = deposit_spec(c, amount).0;
    let c2 = withdraw_spec(c1, tx, amount).0;
    let c3 = dispute_spec(c2, tx).0;
    let c4 = resolve_spec(c3, tx).0;
    assert(c4.withdrawals =~= c1.withdrawals);
    assert(c4.disputed =~= c1.disputed);
}

/// A deposit, a withdrawal of the same amount, a dispute of that withdrawal
/// and a chargeback leave the balances where they were before the deposit,
/// and lock the account.
pub proof fn lemma_chargeback_final(c: ClientView, tx: u64, amount: u64)
    requires
        c.wf(),
        !c.locked,
        !c.withdrawals.contains_key(tx),
        !c.disputed.contains_key(tx),
        amount > 0,
        c.available + c.held + amount <= u64::MAX,
    ensures
        ({
            let c1 = transaction_spec(c, Transaction::Deposit { transaction: tx, amount });
            let c2 = transaction_spec(c1.0, Transaction::Withdrawl { transaction: tx, amount });
            let c3 = transaction_spec(c2.0, Transaction::Dispute { transaction: tx });
            let c4 = transaction_spec(c3.0, Transaction::Chargeback { transaction: tx });
            &&& c1.1 is Ok && c2.1 is Ok && c3.1 is Ok && c4.1 is Ok
            &&& c4.0.available == c.available
            &&& c4.0.held == c.held
            &&& c4.0.locked
            &&& synchronize_spec(c4.0).total == c.available + c.held
        }),
{
}

/// A locked account takes no further operation: each one fails and leaves
/// the account as it was.
pub proof fn lemma_locked_is_final(c: ClientView, t: Transaction)
    requires
        c.locked,
    ensures
        transaction_spec(c, t).0 == c,
        transaction_spec(c, t).1 is Err,
{
}

/// A withdrawal of more than the available funds is skipped: no error
/// reaches the caller, the account is unchanged, and the id is not recorded.
pub proof fn lemma_insufficient_funds_skipped(c: ClientView, tx: u64, amount: u64)
    requires
        !c.locked,
        amount > c.available,
    ensures
        transaction_spec(c, Transaction::Withdrawl { transaction: tx, amount }) == (c, Ok::<
            (),
            Error,
        >(())),
{
}

/// A withdrawal that reuses the id of the one just made fails with
/// `TransactionIdAlreadyInUse`, an error that stops the run.
pub proof fn lemma_duplicate_withdrawal_fatal(c: ClientView, tx: u64, amount: u64)
    requires
        c.wf(),
        !c.locked,
        !c.withdrawals.contains_key(tx),
        !c.disputed.contains_key(tx),
        amount > 0,
        2 * amount <= c.available,
    ensures
        ({
            let t = Transaction::Withdrawl { transaction: tx, amount };
            let first = transaction_spec(c, t);
            let second = transaction_spec(first.0, t);
            &&& first.1 is Ok
            &&& second.1 == Err::<(), Error>(Error::TransactionIdAlreadyInUse { transaction: tx })
            &&& second.0 == first.0
        }),
{
}

} // verus!

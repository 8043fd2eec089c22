//! The errors that the ledger reports.
use vstd::prelude::*;

verus! {

/// Why an operation was refused.
#[derive(Debug, Clone, Copy, PartialEq, Eq, Structural)]
pub enum Error {
    /// The input record does not make a valid operation: a deposit or a
    /// withdrawal without an amount, with an amount that is not a
    /// non-negative decimal, or with a zero amount.
    CannotConvertFromIOTransaction,
    /// A withdrawal asked for more than the available funds.
    InsufficientFunds { requested: u64, current_balance: u64 },
    /// A withdrawal reused a transaction id that the account still records.
    TransactionIdAlreadyInUse { transaction: u64 },
    /// A resolve or a chargeback named a transaction that is not under
    /// dispute.
    InvalidTransactionId { transaction: u64 },
    /// The account was locked by a chargeback and takes no further
    /// operations.
    AccountLocked { client: u16 },
    /// The operation would take the account's total past the largest amount
    /// that can be represented.
    AmountOverflow,
}

/// Runs `f` and hands back the failure that it reported, if any.
pub fn handle<E, F: FnOnce() -> Result<(), E>>(f: F) -> (failure: Option<E>)
    requires
        f.requires(()),
    ensures
        f.ensures(
            (),
            match failure {
                None => Ok(()),
                Some(e) => Err(e),
            },
        ),
{
    let r = f();
    match r {
        Ok(u) => {
            assert(u == ());
            None
        },
        Err(e) => Some(e),
    }
}

} // verus!

//! A ledger of client accounts: deposits, withdrawals and the dispute life
//! cycle of withdrawals (dispute, resolve, chargeback).
//!
//! Choices that the ledger makes:
//! - amounts are fixed-point: a `u64` count of ten-thousandths, read from and
//!   written as decimal text with at most four decimal places;
//! - a chargeback locks the account, and a locked account refuses every
//!   further operation with `Error::AccountLocked`;
//! - a deposit or a withdrawal of zero is malformed;
//! - transaction ids are scoped to the account that the operation names;
//! - an operation that would take an account's total past the largest
//!   amount fails with `Error::AmountOverflow`.
pub mod amount;
pub mod funds;
pub mod laws;
pub mod model;
pub mod reader;
pub mod result;

pub use amount::{amount_text, parse_amount, Amount, AMOUNT_SCALE};
pub use model::{
    process_transaction, synchronize, Client, ClientId, ClientView, Clients, Transaction,
    TransactionId,
};
pub use reader::{IOTransaction, IOTransactionType};
pub use result::{handle, Error};

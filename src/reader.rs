//! Input records, and how they become operations.
use crate::amount::{parse_amount, parse_amount_spec};
use crate::model::Transaction;
use crate::result::Error;
use vstd::prelude::*;

verus! {

/// The kind of an input record.
#[derive(Debug, Clone, Copy, PartialEq, Eq, Structural)]
pub enum IOTransactionType {
    Chargeback,
    Deposit,
    Dispute,
    Resolve,
    Withdrawl,
}

/// `c` is `w`, or its upper-case form when `w` is a lower-case ASCII letter.
pub open spec fn same_letter(c: char, w: char) -> bool {
    c == w || ('a' <= w && w <= 'z' && c as u32 + 32 == w as u32)
}

/// `s` spells the lower-case `word`, ignoring ASCII case.
pub open spec fn spells(s: Seq<char>, word: Seq<char>) -> bool {
    s.len() == word.len() && forall|i: int| 0 <= i < s.len() ==> same_letter(#[trigger] s[i], word[i])
}

/// The kind that a name gives, ignoring ASCII case; a withdrawal may be
/// spelt `withdrawal` or `withdrawl`.
pub open spec fn kind_of_name(s: Seq<char>) -> Option<IOTransactionType> {
    if spells(s, "chargeback"@) {
        Some(IOTransactionType::Chargeback)
    } else if spells(s, "deposit"@) {
        Some(IOTransactionType::Deposit)
    } else if spells(s, "dispute"@) {
        Some(IOTransactionType::Dispute)
    } else if spells(s, "resolve"@) {
        Some(IOTransactionType::Resolve)
    } else if spells(s, "withdrawal"@) || spells(s, "withdrawl"@) {
        Some(IOTransactionType::Withdrawl)
    } else {
        None
    }
}

fn is_spelt(s: &str, word: &str) -> (r: bool)
    ensures
        r == spells(s@, word@),
{
    let n = s.unicode_len();
    if n != word.unicode_len() {
        return false;
    }
    let mut i: usize = 0;
    while i < n
        invariant
            n == s@.len(),
            n == word@.len(),
            i <= n,
            forall|j: int| 0 <= j < i ==> same_letter(#[trigger] s@[j], word@[j]),
        decreases n - i,
    {
        let c = s.get_char(i);
        let w = word.get_char(i);
        if !(c == w || ('a' <= w && w <= 'z' && c as u32 + 32 == w as u32)) {
            return false;
        }
        i = i + 1;
    }
    true
}

impl IOTransactionType {
    /// The kind that `name` gives (`deposit`, `withdrawal`, `dispute`,
    /// `resolve`, `chargeback`), ignoring ASCII case.
    pub fn from_name(name: &str) -> (r: Option<IOTransactionType>)
        ensures
            r == kind_of_name(name@),
    {
        if is_spelt(name, "chargeback") {
            Some(IOTransactionType::Chargeback)
        } else if is_spelt(name, "deposit") {
            Some(IOTransactionType::Deposit)
        } else if is_spelt(name, "dispute") {
            Some(IOTransactionType::Dispute)
        } else if is_spelt(name, "resolve") {
            Some(IOTransactionType::Resolve)
        } else if is_spelt(name, "withdrawal") || is_spelt(name, "withdrawl") {
            Some(IOTransactionType::Withdrawl)
        } else {
            None
        }
    }
}

/// An input record as it is read, before validation.
#[derive(Debug)]
pub struct IOTransaction {
    /// The kind of the record.
    pub type_: IOTransactionType,
    /// The client whose account the record affects.
    pub client: u16,
    /// The transaction id.
    pub tx: u64,
    /// For deposits and withdrawals, the amount as decimal text.
    pub amount: Option<String>,
}

/// The amount of a record, if it has one that reads as an amount.
pub open spec fn record_amount(amount: Option<String>) -> Option<u64> {
    match amount {
        Some(text) => parse_amount_spec(text@),
        None => None,
    }
}

/// The operation that a record stands for: a deposit or a withdrawal needs
/// an amount that reads as a non-negative decimal; the other kinds ignore
/// the amount.
pub open spec fn transaction_of(from: IOTransaction) -> Result<Transaction, Error> {
    match from.type_ {
        IOTransactionType::Chargeback => Ok(Transaction::Chargeback { transaction: from.tx }),
        IOTransactionType::Deposit => match record_amount(from.amount) {
            Some(amount) => Ok(Transaction::Deposit { transaction: from.tx, amount }),
            None => Err(Error::CannotConvertFromIOTransaction),
        },
        IOTransactionType::Dispute => Ok(Transaction::Dispute { transaction: from.tx }),
        IOTransactionType::Resolve => Ok(Transaction::Resolve { transaction: from.tx }),
        IOTransactionType::Withdrawl => match record_amount(from.amount) {
            Some(amount) => Ok(Transaction::Withdrawl { transaction: from.tx, amount }),
            None => Err(Error::CannotConvertFromIOTransaction),
        },
    }
}

fn read_amount(amount: &Option<String>) -> (r: Option<u64>)
    ensures
        r == record_amount(*amount),
{
    match amount {
        Some(text) => parse_amount(text.as_str()),
        None => None,
    }
}

impl TryFrom<IOTransaction> for Transaction {
    type Error = Error;

    /// Validates a record: a deposit or a withdrawal without a readable,
    /// non-negative amount is malformed.
    fn try_from(from: IOTransaction) -> (r: Result<Transaction, Error>) {
        let transaction = from.tx;
        match from.type_ {
            IOTransactionType::Chargeback => Ok(Transaction::Chargeback { transaction }),
            IOTransactionType::Deposit => match read_amount(&from.amount) {
                Some(amount) => Ok(Transaction::Deposit { transaction, amount }),
                None => Err(Error::CannotConvertFromIOTransaction),
            },
            IOTransactionType::Dispute => Ok(Transaction::Dispute { transaction }),
            IOTransactionType::Resolve => Ok(Transaction::Resolve { transaction }),
            IOTransactionType::Withdrawl => match read_amount(&from.amount) {
                Some(amount) => Ok(Transaction::Withdrawl { transaction, amount }),
                None => Err(Error::CannotConvertFromIOTransaction),
            },
        }
    }
}

impl vstd::std_specs::convert::TryFromSpecImpl<IOTransaction> for Transaction {
    open spec fn obeys_try_from_spec() -> bool {
        true
    }

    open spec fn try_from_spec(from: IOTransaction) -> Result<Transaction, Error> {
        transaction_of(from)
    }
}

} // verus!

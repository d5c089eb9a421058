//! The errors that the tool's own rules give.

use crate::accounts::BankAccountType;
use vstd::prelude::*;

verus! {

/// An error of the tool's own logic; errors of the bank's service, of files
/// and of the CSV reader are kept beside these by the program around the library.
#[derive(Debug)]
pub enum Error {
    /// The bank reported an account of a kind the tool does not support.
    UnsupportedAccountType { account_type: BankAccountType },
    /// No pot of the given name was found.
    PotNotFound { pot_name: String },
    /// The transaction of a deposit into a pot could not be found.
    DepositTransactionNotFound,
}

} // verus!

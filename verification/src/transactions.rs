//! Choosing the account whose transactions are listed.

use crate::accounts::{bank_type, BankAccount, BankAccountType, Type};
use vstd::prelude::*;

verus! {

/// The position of the first account of the bank type `kind`, if any.
pub open spec fn first_of_kind(accounts: Seq<BankAccount>, kind: BankAccountType) -> Option<int>
    decreases accounts.len(),
{
    if accounts.len() == 0 {
        None
    } else {
        match first_of_kind(accounts.drop_last(), kind) {
            Some(i) => Some(i),
            None => if accounts.last().account_type == kind {
                Some(accounts.len() - 1)
            } else {
                None
            },
        }
    }
}

/// `first_of_kind` finds the first account of the kind, and finds none
/// exactly when no account is of that kind.
pub proof fn lemma_first_of_kind(accounts: Seq<BankAccount>, kind: BankAccountType)
    ensures
        first_of_kind(accounts, kind) matches Some(i) ==> {
            &&& 0 <= i < accounts.len()
            &&& accounts[i].account_type == kind
            &&& forall|j: int| 0 <= j < i ==> accounts[j].account_type != kind
        },
        first_of_kind(accounts, kind) is None ==> forall|j: int|
            0 <= j < accounts.len() ==> accounts[j].account_type != kind,
    decreases accounts.len(),
{
    if accounts.len() > 0 {
        let init = accounts.drop_last();
        lemma_first_of_kind(init, kind);
        match first_of_kind(init, kind) {
            Some(i) => {
                assert forall|j: int| 0 <= j < i implies accounts[j].account_type != kind by {
                    assert(accounts[j] == init[j]);
                }
                assert(accounts[i] == init[i]);
            },
            None => {
                assert forall|j: int| 0 <= j < accounts.len() - 1 implies accounts[j].account_type
                    != kind by {
                    assert(accounts[j] == init[j]);
                }
            },
        }
    }
}

proof fn lemma_first_of_kind_prefix(accounts: Seq<BankAccount>, kind: BankAccountType, k: int)
    requires
        0 <= k <= accounts.len(),
        first_of_kind(accounts.take(k), kind) is Some,
    ensures
        first_of_kind(accounts, kind) == first_of_kind(accounts.take(k), kind),
    decreases accounts.len(),
{
    if k < accounts.len() {
        assert(accounts.drop_last().take(k) == accounts.take(k));
        lemma_first_of_kind_prefix(accounts.drop_last(), kind, k);
    } else {
        assert(accounts.take(k) == accounts);
    }
}

/// The first account of the bank's type for `account_type`.
pub fn find_account(accounts: &Vec<BankAccount>, account_type: Type) -> (res: Option<usize>)
    ensures
        res == match first_of_kind(accounts@, bank_type(account_type)) {
            Some(i) => Some(i as usize),
            None => None::<usize>,
        },
{
    let kind: BankAccountType = account_type.into();
    let n = accounts.len();
    let mut i: usize = 0;
    while i < n
        invariant
            n == accounts@.len(),
            i <= n,
            kind == bank_type(account_type),
            first_of_kind(accounts@.take(i as int), kind) is None,
        decreases n - i,
    {
        assert(accounts@.take(i + 1).drop_last() == accounts@.take(i as int));
        assert(accounts@.take(i + 1).last() == accounts@[i as int]);
        if accounts[i].account_type == kind {
            proof {
                lemma_first_of_kind_prefix(accounts@, kind, i + 1);
            }
            return Some(i);
        }
        i = i + 1;
    }
    assert(accounts@.take(n as int) == accounts@);
    None
}

} // verus!

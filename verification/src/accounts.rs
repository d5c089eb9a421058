//! The account types the tool works with, and which of the bank's accounts
//! it supports.

use vstd::prelude::*;
use vstd::std_specs::convert::{FromSpecImpl, TryFromSpecImpl};

verus! {

/// An account type the tool supports.
#[derive(Clone, Copy, Debug, PartialEq, Eq, Structural)]
pub enum Type {
    Personal,
    Joint,
}

/// The kinds of account the bank reports.
#[derive(Clone, Copy, Debug, PartialEq, Eq, Structural)]
pub enum BankAccountType {
    /// A standard account.
    UkRetail,
    /// A joint account.
    UkRetailJoint,
    /// A business account.
    UkBusiness,
    /// A kind of account that the bank added after these.
    Other,
}

/// An account as the bank reports it, with what the tool reads of it.
pub struct BankAccount {
    pub id: String,
    pub account_type: BankAccountType,
    pub account_number: String,
}

/// The name under which an account type is shown.
pub open spec fn account_type_label(t: Type) -> Seq<char> {
    match t {
        Type::Personal => "Personal"@,
        Type::Joint => "Joint"@,
    }
}

/// The supported type that a bank account type stands for, if any.
pub open spec fn supported_type(t: BankAccountType) -> Option<Type> {
    match t {
        BankAccountType::UkRetail => Some(Type::Personal),
        BankAccountType::UkRetailJoint => Some(Type::Joint),
        _ => None,
    }
}

/// The bank account type that a supported type stands for.
pub open spec fn bank_type(t: Type) -> BankAccountType {
    match t {
        Type::Personal => BankAccountType::UkRetail,
        Type::Joint => BankAccountType::UkRetailJoint,
    }
}

/// The accounts that the tool supports, in the order given, each with its type:
/// those of a supported type that have an account number.
pub open spec fn supported(accounts: Seq<BankAccount>) -> Seq<(Type, BankAccount)>
    decreases accounts.len(),
{
    if accounts.len() == 0 {
        Seq::empty()
    } else {
        let a = accounts.last();
        let rest = supported(accounts.drop_last());
        match supported_type(a.account_type) {
            Some(t) => if a.account_number@.len() > 0 {
                rest.push((t, a))
            } else {
                rest
            },
            None => rest,
        }
    }
}

/// The text of the error for an account type that the tool does not support.
pub open spec fn unsupported_message() -> Seq<char> {
    "Unsupported account type"@
}

impl Type {
    /// The name under which the type is shown: `Personal` or `Joint`.
    pub fn value(self) -> (res: String)
        ensures
            res@ == account_type_label(self),
    {
        match self {
            Type::Personal => String::from_str("Personal"),
            Type::Joint => String::from_str("Joint"),
        }
    }
}

impl<'a> TryFrom<&'a BankAccountType> for Type {
    type Error = String;

    /// A standard account is a personal one, a joint account a joint one;
    /// any other kind of account is refused.
    fn try_from(value: &'a BankAccountType) -> (res: Result<Self, Self::Error>)
        ensures
            res is Ok <==> supported_type(*value) is Some,
            res matches Ok(t) ==> supported_type(*value) == Some(t),
            res matches Err(e) ==> e@ == unsupported_message(),
    {
        match value {
            BankAccountType::UkRetail => Ok(Type::Personal),
            BankAccountType::UkRetailJoint => Ok(Type::Joint),
            _ => Err(String::from_str("Unsupported account type")),
        }
    }
}

impl<'a> TryFromSpecImpl<&'a BankAccountType> for Type {
    // The error carries a freshly made `String`, of which a contract can fix
    // only the text; the contract of `try_from` above says what is returned.
    open spec fn obeys_try_from_spec() -> bool {
        false
    }

    open spec fn try_from_spec(v: &'a BankAccountType) -> Result<Self, Self::Error> {
        arbitrary()
    }
}

impl From<Type> for BankAccountType {
    fn from(t: Type) -> (res: Self) {
        match t {
            Type::Personal => BankAccountType::UkRetail,
            Type::Joint => BankAccountType::UkRetailJoint,
        }
    }
}

impl FromSpecImpl<Type> for BankAccountType {
    open spec fn obeys_from_spec() -> bool {
        true
    }

    open spec fn from_spec(v: Type) -> Self {
        bank_type(v)
    }
}

/// The accounts of a supported type that have an account number, each with
/// its type, in the order given.
pub fn supported_accounts(accounts: Vec<BankAccount>) -> (res: Vec<(Type, BankAccount)>)
    ensures
        res@ == supported(accounts@),
{
    let ghost all = accounts@;
    let mut out: Vec<(Type, BankAccount)> = Vec::new();
    let ghost mut k: int = 0;
    for a in it: accounts.into_iter()
        invariant
            it.seq() == all,
            k == it.index(),
            out@ == supported(all.take(k)),
    {
        assert(all.take(k + 1).drop_last() == all.take(k));
        assert(all.take(k + 1).last() == a);
        let kind = Type::try_from(&a.account_type);
        match kind {
            Ok(t) => {
                if !a.account_number.as_str().is_empty() {
                    out.push((t, a));
                }
            },
            Err(_) => {},
        }
        proof {
            k = k + 1;
        }
    }
    assert(all.take(k) == all);
    out
}

/// The supported accounts are exactly the accounts of a supported type that
/// have an account number, each with the type it stands for.
pub proof fn lemma_supported(accounts: Seq<BankAccount>)
    ensures
        forall|i: int| 0 <= i < supported(accounts).len() ==> {
            let (t, a) = #[trigger] supported(accounts)[i];
            &&& accounts.contains(a)
            &&& supported_type(a.account_type) == Some(t)
            &&& a.account_number@.len() > 0
        },
        forall|j: int|
            0 <= j < accounts.len() && (#[trigger] accounts[j]).account_number@.len() > 0
                && supported_type(accounts[j].account_type) is Some ==> supported(
                accounts,
            ).contains((supported_type(accounts[j].account_type)->0, accounts[j])),
    decreases accounts.len(),
{
    if accounts.len() > 0 {
        let init = accounts.drop_last();
        lemma_supported(init);
        let si = supported(init);
        let s = supported(accounts);
        assert forall|i: int| 0 <= i < s.len() implies {
            let (t, a) = #[trigger] s[i];
            &&& accounts.contains(a)
            &&& supported_type(a.account_type) == Some(t)
            &&& a.account_number@.len() > 0
        } by {
            if i < si.len() {
                assert(s[i] == si[i]);
                let a = si[i].1;
                assert(init.contains(a));
                let w = choose|w: int| 0 <= w < init.len() && init[w] == a;
                assert(accounts[w] == init[w]);
            } else {
                assert(accounts[accounts.len() - 1] == accounts.last());
            }
        }
        assert forall|j: int|
            0 <= j < accounts.len() && (#[trigger] accounts[j]).account_number@.len() > 0
                && supported_type(accounts[j].account_type) is Some implies s.contains(
            (supported_type(accounts[j].account_type)->0, accounts[j]),
        ) by {
            let x = (supported_type(accounts[j].account_type)->0, accounts[j]);
            if j < accounts.len() - 1 {
                assert(init[j] == accounts[j]);
                assert(si.contains(x));
                let w = choose|w: int| 0 <= w < si.len() && si[w] == x;
                assert(s[w] == si[w]);
            } else {
                assert(s[s.len() - 1] == x);
            }
        }
    }
}

/// Converting a supported type to the bank's type and back gives the same type.
pub proof fn law_bank_type_roundtrip(t: Type)
    ensures
        supported_type(bank_type(t)) == Some(t),
{
}

} // verus!

use monzo_finops::accounts::{supported_accounts, BankAccount, BankAccountType, Type};
use monzo_finops::transactions::find_account;

fn account(id: &str, account_type: BankAccountType, number: &str) -> BankAccount {
    BankAccount {
        id: id.to_string(),
        account_type,
        account_number: number.to_string(),
    }
}

#[test]
fn type_values() {
    assert_eq!(Type::Personal.value(), "Personal");
    assert_eq!(Type::Joint.value(), "Joint");
}

#[test]
fn type_from_bank_type() {
    assert_eq!(Type::try_from(&BankAccountType::UkRetail), Ok(Type::Personal));
    assert_eq!(Type::try_from(&BankAccountType::UkRetailJoint), Ok(Type::Joint));
    assert_eq!(
        Type::try_from(&BankAccountType::UkBusiness),
        Err(String::from("Unsupported account type"))
    );
    assert_eq!(
        Type::try_from(&BankAccountType::Other),
        Err(String::from("Unsupported account type"))
    );
}

#[test]
fn type_into_bank_type_and_back() {
    for t in [Type::Personal, Type::Joint] {
        let bank: BankAccountType = t.into();
        assert_eq!(Type::try_from(&bank), Ok(t));
    }
    let bank: BankAccountType = Type::Joint.into();
    assert_eq!(bank, BankAccountType::UkRetailJoint);
}

#[test]
fn supported_accounts_keeps_supported_numbered_accounts_in_order() {
    let accounts = vec![
        account("a", BankAccountType::UkBusiness, "111"),
        account("b", BankAccountType::UkRetailJoint, "222"),
        account("c", BankAccountType::UkRetail, ""),
        account("d", BankAccountType::UkRetail, "444"),
        account("e", BankAccountType::Other, "555"),
    ];
    let supported = supported_accounts(accounts);
    let got: Vec<(Type, String)> = supported.into_iter().map(|(t, a)| (t, a.id)).collect();
    assert_eq!(got, vec![(Type::Joint, "b".to_string()), (Type::Personal, "d".to_string())]);
}

#[test]
fn supported_accounts_of_none() {
    assert!(supported_accounts(Vec::new()).is_empty());
}

#[test]
fn find_account_by_type() {
    let accounts = vec![
        account("a", BankAccountType::UkBusiness, "111"),
        account("b", BankAccountType::UkRetail, "222"),
        account("c", BankAccountType::UkRetail, "333"),
    ];
    assert_eq!(find_account(&accounts, Type::Personal), Some(1));
    assert_eq!(find_account(&accounts, Type::Joint), None);
}

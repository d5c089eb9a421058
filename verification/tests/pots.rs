use monzo_finops::currency::Amount;
use monzo_finops::error::Error;
use monzo_finops::pots::{
    find_deposit_in, find_matching_pot, find_pot_in, require_pot, DepositRetry, Pot, Transaction,
    DEPOSIT_LOOKUP_ATTEMPTS,
};

fn pot(id: &str, name: &str, deleted: bool) -> Pot {
    Pot {
        id: id.to_string(),
        name: name.to_string(),
        deleted,
        current_account_id: "acc".to_string(),
    }
}

fn tx(id: &str, pot_id: Option<&str>, has_notes: bool, amount: i64) -> Transaction {
    Transaction {
        id: id.to_string(),
        pot_id: pot_id.map(|p| p.to_string()),
        has_notes,
        amount,
    }
}

#[test]
fn find_pot_ignores_case_and_deleted_pots() {
    let pots = vec![
        pot("p1", "Holiday", true),
        pot("p2", "Rainy Day", false),
        pot("p3", "HOLIDAY", false),
    ];
    assert_eq!(find_pot_in(&pots, "holiday"), Some(2));
    assert_eq!(find_pot_in(&pots, "rainy day"), Some(1));
    assert_eq!(find_pot_in(&pots, "car"), None);
    assert_eq!(find_pot_in(&pots, "ÉTÉ"), None);
    let accented = vec![pot("p4", "Été", false)];
    assert_eq!(find_pot_in(&accented, "ÉTÉ"), Some(0));
}

#[test]
fn find_matching_pot_on_lowered_names() {
    let pots = vec![pot("p1", "A", true), pot("p2", "B", false), pot("p3", "C", false)];
    let lowered = vec!["x".to_string(), "y".to_string(), "x".to_string()];
    assert_eq!(find_matching_pot(&pots, &lowered, &"x".to_string()), Some(2));
    assert_eq!(find_matching_pot(&pots, &lowered, &"z".to_string()), None);
}

#[test]
fn require_pot_reports_missing_pot() {
    assert!(matches!(require_pot(Some(3), "car"), Ok(3)));
    match require_pot::<usize>(None, "car") {
        Err(Error::PotNotFound { pot_name }) => assert_eq!(pot_name, "car"),
        other => panic!("unexpected {:?}", other),
    }
}

#[test]
fn find_deposit_matches_pot_notes_and_amount() {
    let txs = vec![
        tx("t1", Some("pot"), true, -500),
        tx("t2", Some("other"), false, -500),
        tx("t3", None, false, -500),
        tx("t4", Some("pot"), false, -499),
        tx("t5", Some("pot"), false, -500),
        tx("t6", Some("pot"), false, 500),
    ];
    let amount = Amount::from(500u32);
    assert_eq!(find_deposit_in(&txs, &"pot".to_string(), &amount).unwrap(), 4);
    let refund = vec![tx("t6", Some("pot"), false, 500)];
    assert_eq!(find_deposit_in(&refund, &"pot".to_string(), &amount).unwrap(), 0);
    assert!(matches!(
        find_deposit_in(&txs, &"none".to_string(), &amount),
        Err(Error::DepositTransactionNotFound)
    ));
    let extreme = vec![tx("t7", Some("pot"), false, i64::MIN)];
    assert!(find_deposit_in(&extreme, &"pot".to_string(), &amount).is_err());
}

#[test]
fn deposit_lookup_is_tried_four_times() {
    let mut retry = DepositRetry::new();
    let mut lookups = 1;
    while retry.after_failed_lookup() {
        lookups += 1;
    }
    assert_eq!(lookups, DEPOSIT_LOOKUP_ATTEMPTS);
    assert_eq!(lookups, 4);
    assert!(!retry.after_failed_lookup());
}

#[test]
fn live_pots_skip_deleted() {
    let pots = vec![pot("p1", "A", true), pot("p2", "B", false), pot("p3", "C", false)];
    assert_eq!(monzo_finops::pots::live_pot_positions(&pots), vec![1, 2]);
}

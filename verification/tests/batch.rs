use monzo_finops::accounts::Type;
use monzo_finops::batch::{deposit_destination, CSVMetrics, Row};
use monzo_finops::config::{Config, Destination};
use monzo_finops::currency::Amount;
use monzo_finops::error::Error;

fn config() -> Config {
    Config::new(vec![
        Destination { source: Type::Personal, pot_name: "personal-test-pot".to_string() },
        Destination { source: Type::Personal, pot_name: "second-personal-pot".to_string() },
    ])
}

fn row(account: Type) -> Row {
    Row {
        account,
        category: "savings".to_string(),
        description: "monthly".to_string(),
        amount: Amount::from(123456u32),
    }
}

#[test]
fn get_pot_for_deposit_finds_first_destination() {
    let config = config();
    let found = config.get_pot_for_deposit(&Type::Personal).expect("configured");
    assert_eq!(found.pot_name, "personal-test-pot");
    assert_eq!(found.source, Type::Personal);
    assert!(config.get_pot_for_deposit(&Type::Joint).is_none());
}

#[test]
fn get_pot_for_deposit_in_empty_config() {
    assert!(Config::new(Vec::new()).get_pot_for_deposit(&Type::Joint).is_none());
}

#[test]
fn deposit_destination_of_rows() {
    let config = config();
    assert_eq!(
        deposit_destination(&row(Type::Personal), &config).unwrap(),
        "personal-test-pot"
    );
    match deposit_destination(&row(Type::Joint), &config) {
        Err(Error::PotNotFound { pot_name }) => assert_eq!(pot_name, "Joint"),
        other => panic!("unexpected {:?}", other),
    }
}

#[test]
fn row_description() {
    assert_eq!(
        row(Type::Joint).describe(),
        "account=Joint, category=savings, description=monthly, amount=1,234.56"
    );
}

#[test]
fn metrics_count_rows() {
    let mut metrics = CSVMetrics::new();
    assert_eq!(metrics.summary(), "total_rows=0, successful=0, failed=0");
    metrics.success();
    metrics.success();
    metrics.failure();
    assert_eq!(metrics.summary(), "total_rows=3, successful=2, failed=1");
    assert!(metrics.has_room());
}

#[test]
fn metrics_fill_up() {
    let mut metrics = CSVMetrics::new();
    while metrics.has_room() {
        metrics.failure();
    }
    assert_eq!(metrics.summary(), "total_rows=65535, successful=0, failed=65535");
}

#[test]
fn metrics_do_not_depend_on_order() {
    let mut first = CSVMetrics::new();
    first.success();
    first.failure();
    first.success();
    let mut second = CSVMetrics::new();
    second.failure();
    second.success();
    second.success();
    assert_eq!(first.summary(), second.summary());
    assert_eq!(first.summary(), "total_rows=3, successful=2, failed=1");
}

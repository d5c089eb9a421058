use monzo_finops::currency::{format_balance, Amount, ParseAmountError};

#[test]
fn format_currency_decimals() {
    let pence = 890;

    let value = Amount::from(pence).to_string();

    assert_eq!(value, "8.90")
}

#[test]
fn format_currency_separators() {
    let cases = [
        (12345, "123.45"),
        (654321, "6,543.21"),
        (500000035, "5,000,000.35"),
    ];

    for (pence, expected) in cases {
        let value = Amount::from(pence).to_string();

        assert_eq!(value, expected);
    }
}

#[test]
fn parse_currency_decimals() {
    let pence = "10.05";

    let value = Amount::from_str(pence)
        .expect("must parse fixed value")
        .pence;

    assert_eq!(value, 1005);
}

#[test]
fn parse_currency_separators() {
    let pence = "1,010.05";

    let value = Amount::from_str(pence)
        .expect("must parse fixed value")
        .pence;

    assert_eq!(value, 101005);
}

#[test]
fn try_from_i64() {
    let pence: i64 = 953578513525;

    let value = Amount::try_from(pence);

    assert_eq!(value.is_err(), true);
}

#[test]
fn format_small_amounts_as_plain_pence() {
    assert_eq!(Amount::from(0u32).to_string(), "0");
    assert_eq!(Amount::from(5u32).to_string(), "5");
    assert_eq!(Amount::from(99u32).to_string(), "99");
    assert_eq!(Amount::from(100u32).to_string(), "1.00");
    assert_eq!(Amount::from(100000u32).to_string(), "1,000.00");
    assert_eq!(Amount::from(99999u32).to_string(), "999.99");
}

#[test]
fn format_largest_amount() {
    assert_eq!(Amount::from(u32::MAX).to_string(), "42,949,672.95");
}

#[test]
fn format_then_parse_gives_back_the_amount() {
    for pence in [0u32, 7, 10, 100, 999, 1000, 12345, 654321, 500000035, u32::MAX] {
        let text = Amount::from(pence).to_string();
        let back = Amount::from_str(&text).expect("written amounts parse");
        assert_eq!(back.pence, pence);
    }
}

#[test]
fn parse_ignores_separators_wherever_they_stand() {
    assert_eq!(Amount::from_str("1,0.0,5").unwrap().pence, 1005);
    assert_eq!(Amount::from_str("+12.34").unwrap().pence, 1234);
    assert_eq!(Amount::from_str("007").unwrap().pence, 7);
}

#[test]
fn parse_errors() {
    assert_eq!(Amount::from_str("").unwrap_err(), ParseAmountError::Empty);
    assert_eq!(Amount::from_str(".,").unwrap_err(), ParseAmountError::Empty);
    assert_eq!(Amount::from_str("+").unwrap_err(), ParseAmountError::InvalidDigit);
    assert_eq!(Amount::from_str("-5").unwrap_err(), ParseAmountError::InvalidDigit);
    assert_eq!(Amount::from_str("12a").unwrap_err(), ParseAmountError::InvalidDigit);
    assert_eq!(Amount::from_str(" 1").unwrap_err(), ParseAmountError::InvalidDigit);
    assert_eq!(Amount::from_str("4294967296").unwrap_err(), ParseAmountError::PosOverflow);
    assert_eq!(Amount::from_str("99999999999x").unwrap_err(), ParseAmountError::PosOverflow);
    assert_eq!(Amount::from_str("42,949,672.95").unwrap().pence, u32::MAX);
}

#[test]
fn parse_agrees_with_std_on_plain_numbers() {
    for s in ["0", "1", "+1", "4294967295", "4294967296", "", "+", "-1", "1 ", "x"] {
        let ours = Amount::from_str(s).map(|a| a.pence).ok();
        let std_result = s.parse::<u32>().ok();
        assert_eq!(ours, std_result, "for {:?}", s);
    }
}

#[test]
fn try_from_conversions() {
    assert_eq!(Amount::try_from(0i64).unwrap().pence, 0);
    assert_eq!(Amount::try_from(4294967295i64).unwrap().pence, u32::MAX);
    assert!(Amount::try_from(4294967296i64).is_err());
    assert!(Amount::try_from(-1i64).is_err());
    assert_eq!(Amount::try_from("1,234").unwrap().pence, 1234);
    assert!(Amount::try_from("abc").is_err());
    let parsed: Amount = "8.90".parse().unwrap();
    assert_eq!(parsed.pence, 890);
}

#[test]
fn format_balances() {
    assert_eq!(format_balance(0), "0");
    assert_eq!(format_balance(123456), "1,234.56");
    assert_eq!(format_balance(-1234), "-12.34");
    assert_eq!(format_balance(-5), "-5");
    assert_eq!(format_balance(4294967296), "42,949,672.96");
    assert_eq!(format_balance(i64::MAX), "92,233,720,368,547,758.07");
    assert_eq!(format_balance(i64::MIN), "-92,233,720,368,547,758.08");
}

use monzo_finops::parsers::virgin;
use monzo_finops::parsers::virgin::parser::{
    clean_line, filter_rows, keep_row, parse_date, parse_optional_date, CalendarDate, DateError,
    RowSummary, SICMCCCode, Status,
};

fn date(year: i32, month: u32, day: u32) -> CalendarDate {
    CalendarDate { year, month, day }
}

const GOOD: &str = "2024-01-02,2024-01-03,12.50,SHOP,LONDON,,E1,REF1,DBIT,PR,BILLED,GBP,false,1234";

#[test]
fn clean_line_keeps_complete_lines() {
    assert_eq!(clean_line(GOOD), GOOD);
    assert_eq!(clean_line("a,b"), "a,b");
    assert_eq!(clean_line(""), "");
    assert_eq!(virgin::clean_line(GOOD), GOOD);
}

#[test]
fn clean_line_merges_split_merchant() {
    let bad = "2024-01-02,2024-01-03,12.50,SHOP, LTD,INC,LONDON,,E1,REF1,DBIT,PR,BILLED,GBP,false,1234";
    let fixed = "2024-01-02,2024-01-03,12.50,SHOP  LTD INC,LONDON,,E1,REF1,DBIT,PR,BILLED,GBP,false,1234";
    assert_eq!(clean_line(bad), fixed);
    assert_eq!(virgin::clean_line(bad), fixed);
    assert_eq!(fixed.split(',').count(), 14);
}

#[test]
fn filter_rows_keeps_billed_purchases_from_date() {
    let rows = vec![
        RowSummary { posting_date: Some(date(2024, 3, 1)), status: Status::BILLED, sicmcc_code: Some(SICMCCCode::PR) },
        RowSummary { posting_date: Some(date(2024, 2, 29)), status: Status::BILLED, sicmcc_code: Some(SICMCCCode::PR) },
        RowSummary { posting_date: None, status: Status::BILLED, sicmcc_code: Some(SICMCCCode::PR) },
        RowSummary { posting_date: Some(date(2024, 3, 2)), status: Status::PENDING, sicmcc_code: Some(SICMCCCode::PR) },
        RowSummary { posting_date: Some(date(2025, 1, 1)), status: Status::BILLED, sicmcc_code: Some(SICMCCCode::FE) },
        RowSummary { posting_date: Some(date(2025, 1, 1)), status: Status::BILLED, sicmcc_code: None },
        RowSummary { posting_date: Some(date(2024, 12, 1)), status: Status::BILLED, sicmcc_code: Some(SICMCCCode::PR) },
    ];
    let filter = date(2024, 3, 1);
    assert_eq!(filter_rows(&rows, &filter), vec![0, 6]);
    assert!(keep_row(&rows[0], &filter));
    assert!(!keep_row(&rows[1], &filter));
}

#[test]
fn parse_dates() {
    assert_eq!(parse_date("2024-02-29"), Ok(date(2024, 2, 29)));
    assert_eq!(parse_date("2023-02-29"), Err(DateError::InvalidDate));
    assert_eq!(parse_date("null"), Err(DateError::InvalidDate));
    assert_eq!(parse_optional_date("null"), Ok(None));
    assert_eq!(parse_optional_date("2001-12-31"), Ok(Some(date(2001, 12, 31))));
    assert_eq!(parse_optional_date("31/12/2001"), Err(DateError::InvalidDate));
}

#[test]
fn clean_statement_repairs_each_line() {
    let bad = "2024-01-02,2024-01-03,12.50,SHOP, LTD,INC,LONDON,,E1,REF1,DBIT,PR,BILLED,GBP,false,1234";
    let fixed = "2024-01-02,2024-01-03,12.50,SHOP  LTD INC,LONDON,,E1,REF1,DBIT,PR,BILLED,GBP,false,1234";
    let header = "a,b,c";
    let content = format!("{}\r\n{}\n{}\n", header, bad, GOOD);
    let expected = format!("{}\n{}\n{}", header, fixed, GOOD);
    assert_eq!(monzo_finops::parsers::virgin::parser::clean_statement(&content), expected);
    let all_long = format!("{}\n{}", bad, GOOD);
    assert_eq!(virgin::clean_statement(&all_long), format!("{}\n{}", fixed, GOOD));
    assert_eq!(virgin::clean_statement(""), "");
}

#[test]
fn statement_dates_without_time_are_not_moments() {
    assert_eq!(virgin::parse_timestamp("2024-01-02"), Err(DateError::InvalidDate));
    assert_eq!(virgin::parse_timestamp("garbage"), Err(DateError::InvalidDate));
}

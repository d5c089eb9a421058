//! Virgin credit card statements, later format: lines are repaired only when
//! they have too many fields.

use super::{cleaned_line, law_cleaned_line_fields, NO_OF_FIELDS};
use crate::text::{join, join_with, lines, lines_of, split, split_fields, views};
use chrono::{Datelike, NaiveDate};
use vstd::prelude::*;
use vstd::string::StringExecFns;

verus! {

/// A line as this format repairs it: unchanged unless it has more than
/// `NO_OF_FIELDS` fields.
pub open spec fn repaired_line(line: Seq<char>) -> Seq<char> {
    if split(line, ',').len() <= NO_OF_FIELDS {
        line
    } else {
        cleaned_line(line)
    }
}

/// Repairs a line whose merchant field was split at commas; a line with no
/// more than `NO_OF_FIELDS` fields is returned as it is.
pub fn clean_line(line: &str) -> (res: String)
    ensures
        res@ == repaired_line(line@),
{
    let fields = split_fields(line, ',');
    if fields.len() <= NO_OF_FIELDS {
        return String::from_str(line);
    }
    super::clean_line(line)
}

/// A repaired line has as many fields as the line had, but at most `NO_OF_FIELDS`.
pub proof fn law_repaired_field_count(line: Seq<char>)
    ensures
        split(repaired_line(line), ',').len() == if split(line, ',').len() <= NO_OF_FIELDS {
            split(line, ',').len()
        } else {
            NO_OF_FIELDS as nat
        },
{
    if split(line, ',').len() > NO_OF_FIELDS {
        law_cleaned_line_fields(line);
    }
}

/// A statement with every line repaired as this format repairs it, the lines
/// joined with line feeds.
pub open spec fn repaired_statement(content: Seq<char>) -> Seq<char> {
    join(lines(content).map_values(|l: Seq<char>| repaired_line(l)), seq!['\n'])
}

/// Repairs every line of a statement and joins the lines with line feeds.
pub fn clean_statement(content: &str) -> (res: String)
    ensures
        res@ == repaired_statement(content@),
{
    let all = lines_of(content);
    let ghost ls = lines(content@);
    let mut cleaned: Vec<String> = Vec::new();
    let n = all.len();
    let mut i: usize = 0;
    while i < n
        invariant
            n == ls.len(),
            ls == views(all@),
            i <= n,
            views(cleaned@) == ls.take(i as int).map_values(|l: Seq<char>| repaired_line(l)),
        decreases n - i,
    {
        assert(all@[i as int]@ == ls[i as int]);
        let line = clean_line(all[i].as_str());
        let ghost before = cleaned@;
        cleaned.push(line);
        assert(views(cleaned@) =~= views(before).push(line@));
        assert(ls.take(i + 1).map_values(|l: Seq<char>| repaired_line(l)) =~= ls.take(i as int).map_values(
            |l: Seq<char>| repaired_line(l),
        ).push(repaired_line(ls[i as int])));
        i = i + 1;
    }
    assert(ls.take(n as int) =~= ls);
    proof {
        reveal_strlit("\n");
        assert("\n"@ =~= seq!['\n']);
    }
    join_with(&cleaned, "\n")
}

/// Whether a statement line is a payment or a refund.
#[derive(Clone, Copy, Debug, PartialEq, Eq, Structural)]
pub enum DebitOrCredit {
    DBIT,
    CRDT,
}

/// The kind of a statement line: purchase, payment or fee.
#[derive(Clone, Copy, Debug, PartialEq, Eq, Structural)]
pub enum SICMCCCode {
    PR,
    PY,
    FE,
}

/// Whether a statement line is still pending or has been billed.
#[derive(Clone, Copy, Debug, PartialEq, Eq, Structural)]
pub enum Status {
    PENDING,
    BILLED,
}

/// A calendar date.
#[derive(Clone, Copy, Debug, PartialEq, Eq, Structural)]
pub struct CalendarDate {
    pub year: i32,
    pub month: u32,
    pub day: u32,
}

/// What a statement line holds that decides whether it is kept.
pub struct RowSummary {
    pub posting_date: Option<CalendarDate>,
    pub status: Status,
    pub sicmcc_code: Option<SICMCCCode>,
}

/// `a` is the same day as `b` or a later one.
pub open spec fn on_or_after(a: CalendarDate, b: CalendarDate) -> bool {
    ||| a.year > b.year
    ||| a.year == b.year && a.month > b.month
    ||| a.year == b.year && a.month == b.month && a.day >= b.day
}

/// A line is kept when it was posted on or after `filter_date`, is billed,
/// and is a purchase.
pub open spec fn keeps(row: RowSummary, filter_date: CalendarDate) -> bool {
    &&& row.posting_date matches Some(d) && on_or_after(d, filter_date)
    &&& row.status == Status::BILLED
    &&& row.sicmcc_code == Some(SICMCCCode::PR)
}

/// The positions of the kept lines, in order.
pub open spec fn kept_rows(rows: Seq<RowSummary>, filter_date: CalendarDate) -> Seq<usize>
    decreases rows.len(),
{
    if rows.len() == 0 {
        Seq::empty()
    } else {
        let init = kept_rows(rows.drop_last(), filter_date);
        if keeps(rows.last(), filter_date) {
            init.push((rows.len() - 1) as usize)
        } else {
            init
        }
    }
}

/// Dates are ordered as the calendar orders them: by year, then by month,
/// then by day. A later year, or a later month of the same year, is on or
/// after whatever the days; the order is reflexive, total, antisymmetric and
/// transitive.
pub proof fn law_on_or_after_is_calendar_order(a: CalendarDate, b: CalendarDate, c: CalendarDate)
    ensures
        a.year > b.year ==> on_or_after(a, b),
        a.year < b.year ==> !on_or_after(a, b),
        a.year == b.year && a.month > b.month ==> on_or_after(a, b),
        a.year == b.year && a.month < b.month ==> !on_or_after(a, b),
        a.year == b.year && a.month == b.month ==> (on_or_after(a, b) <==> a.day >= b.day),
        on_or_after(a, a),
        on_or_after(a, b) || on_or_after(b, a),
        on_or_after(a, b) && on_or_after(b, a) ==> a == b,
        on_or_after(a, b) && on_or_after(b, c) ==> on_or_after(a, c),
{
}

/// A line is kept exactly when it is a billed purchase posted on a day that
/// is the filter date or later; a line without a posting date is never kept.
pub proof fn law_keeps(row: RowSummary, filter_date: CalendarDate)
    ensures
        row.posting_date is None ==> !keeps(row, filter_date),
        row.status != Status::BILLED ==> !keeps(row, filter_date),
        row.sicmcc_code != Some(SICMCCCode::PR) ==> !keeps(row, filter_date),
        row.status == Status::BILLED && row.sicmcc_code == Some(SICMCCCode::PR) ==> (row.posting_date
            matches Some(d) ==> (keeps(row, filter_date) <==> (d.year > filter_date.year || (d.year
            == filter_date.year && (d.month > filter_date.month || (d.month == filter_date.month
            && d.day >= filter_date.day)))))),
{
}

/// Whether `a` is the same day as `b` or a later one.
pub fn date_on_or_after(a: &CalendarDate, b: &CalendarDate) -> (res: bool)
    ensures
        res == on_or_after(*a, *b),
{
    a.year > b.year || (a.year == b.year && a.month > b.month) || (a.year == b.year && a.month
        == b.month && a.day >= b.day)
}

/// Whether a statement line is kept: posted on or after `filter_date`,
/// billed, and a purchase.
pub fn keep_row(row: &RowSummary, filter_date: &CalendarDate) -> (res: bool)
    ensures
        res == keeps(*row, *filter_date),
{
    let posted = match &row.posting_date {
        Some(d) => date_on_or_after(d, filter_date),
        None => false,
    };
    let purchase = match row.sicmcc_code {
        Some(SICMCCCode::PR) => true,
        _ => false,
    };
    posted && row.status == Status::BILLED && purchase
}

/// The positions of the statement lines that are kept, in order.
pub fn filter_rows(rows: &Vec<RowSummary>, filter_date: &CalendarDate) -> (res: Vec<usize>)
    ensures
        res@ == kept_rows(rows@, *filter_date),
{
    let mut out: Vec<usize> = Vec::new();
    let n = rows.len();
    let mut i: usize = 0;
    while i < n
        invariant
            n == rows@.len(),
            i <= n,
            out@ == kept_rows(rows@.take(i as int), *filter_date),
        decreases n - i,
    {
        assert(rows@.take(i + 1).drop_last() == rows@.take(i as int));
        assert(rows@.take(i + 1).last() == rows@[i as int]);
        if keep_row(&rows[i], filter_date) {
            out.push(i);
        }
        i = i + 1;
    }
    assert(rows@.take(n as int) == rows@);
    out
}

/// The kept positions are exactly the lines that are kept, in increasing order.
pub proof fn law_filter_rows(rows: Seq<RowSummary>, filter_date: CalendarDate)
    requires
        rows.len() <= usize::MAX,
    ensures
        forall|i: int| 0 <= i < kept_rows(rows, filter_date).len() ==> {
            let k = #[trigger] kept_rows(rows, filter_date)[i];
            k < rows.len() && keeps(rows[k as int], filter_date)
        },
        forall|j: int|
            0 <= j < rows.len() && keeps(#[trigger] rows[j], filter_date) ==> kept_rows(
                rows,
                filter_date,
            ).contains(j as usize),
        forall|i: int, j: int|
            0 <= i < j < kept_rows(rows, filter_date).len() ==> #[trigger] kept_rows(
                rows,
                filter_date,
            )[i] < #[trigger] kept_rows(rows, filter_date)[j],
    decreases rows.len(),
{
    if rows.len() > 0 {
        let init = rows.drop_last();
        law_filter_rows(init, filter_date);
        let ki = kept_rows(init, filter_date);
        let k = kept_rows(rows, filter_date);
        assert forall|i: int| 0 <= i < k.len() implies {
            let x = #[trigger] k[i];
            x < rows.len() && keeps(rows[x as int], filter_date)
        } by {
            if i < ki.len() {
                assert(k[i] == ki[i]);
                let x = ki[i];
                assert(x < init.len() && keeps(init[x as int], filter_date));
                assert(rows[x as int] == init[x as int]);
            } else {
                assert(k[i] == (rows.len() - 1) as usize);
                assert(keeps(rows.last(), filter_date));
            }
        }
        assert forall|j: int|
            0 <= j < rows.len() && keeps(#[trigger] rows[j], filter_date) implies k.contains(
            j as usize,
        ) by {
            if j < rows.len() - 1 {
                assert(init[j] == rows[j]);
                assert(ki.contains(j as usize));
                let w = choose|w: int| 0 <= w < ki.len() && ki[w] == j as usize;
                assert(k[w] == ki[w]);
            } else {
                assert(k[k.len() - 1] == j as usize);
            }
        }
        assert forall|i: int, j: int| 0 <= i < j < k.len() implies #[trigger] k[i] < #[trigger] k[j] by {
            if j < ki.len() {
                assert(k[i] == ki[i] && k[j] == ki[j]);
            } else {
                assert(k[i] == ki[i]);
                let x = ki[i];
                assert(x < init.len() && keeps(init[x as int], filter_date));
                assert(k[j] == (rows.len() - 1) as usize);
            }
        }
    }
}

/// What `NaiveDate::parse_from_str` with the format `%Y-%m-%d` reads from a
/// text: the year, month and day of the date, or nothing.
pub uninterp spec fn ymd_from_text(s: Seq<char>) -> Option<(i32, u32, u32)>;

/// Reads a date written as `%Y-%m-%d` with `NaiveDate::parse_from_str`; the
/// month it gives lies in 1 to 12 and the day in 1 to 31, as chrono's
/// `Datelike` documents. Which texts are read as which dates is only named.
#[verifier::external_body]
fn parse_ymd(s: &str) -> (res: Option<(i32, u32, u32)>)
    ensures
        res == ymd_from_text(s@),
        res matches Some((y, m, d)) ==> 1 <= m <= 12 && 1 <= d <= 31,
{
    match NaiveDate::parse_from_str(s, "%Y-%m-%d") {
        Ok(date) => Some((date.year(), date.month(), date.day())),
        Err(_) => None,
    }
}

/// Why a date could not be read.
#[derive(Clone, Copy, Debug, PartialEq, Eq, Structural)]
pub enum DateError {
    /// The text is not a date written as year-month-day.
    InvalidDate,
}

/// The date for what the date reader gave.
pub open spec fn date_of(parsed: Option<(i32, u32, u32)>) -> Result<CalendarDate, DateError> {
    match parsed {
        Some((y, m, d)) => Ok(CalendarDate { year: y, month: m, day: d }),
        None => Err(DateError::InvalidDate),
    }
}

/// Reading a date keeps the reader's year, month and day in their places; a
/// text the reader cannot read is an invalid date.
pub proof fn law_date_fields_in_place(parsed: Option<(i32, u32, u32)>)
    ensures
        parsed matches Some((y, m, d)) ==> date_of(parsed) == Ok::<CalendarDate, DateError>(
            CalendarDate { year: y, month: m, day: d },
        ),
        parsed is None ==> date_of(parsed) == Err::<CalendarDate, DateError>(DateError::InvalidDate),
{
}

/// Turns what the date reader gave into a date.
pub fn date_from_parsed(parsed: Option<(i32, u32, u32)>) -> (res: Result<CalendarDate, DateError>)
    ensures
        res == date_of(parsed),
        parsed matches Some((y, m, d)) ==> res == Ok::<CalendarDate, DateError>(
            CalendarDate { year: y, month: m, day: d },
        ),
        parsed is None ==> res == Err::<CalendarDate, DateError>(DateError::InvalidDate),
{
    match parsed {
        Some((year, month, day)) => Ok(CalendarDate { year, month, day }),
        None => Err(DateError::InvalidDate),
    }
}

/// Reads a date written as `%Y-%m-%d`.
pub fn parse_date(s: &str) -> (res: Result<CalendarDate, DateError>)
    ensures
        res == date_of(ymd_from_text(s@)),
        ymd_from_text(s@) matches Some((y, m, d)) ==> res == Ok::<CalendarDate, DateError>(
            CalendarDate { year: y, month: m, day: d },
        ),
        ymd_from_text(s@) is None ==> res == Err::<CalendarDate, DateError>(DateError::InvalidDate),
        res matches Ok(date) ==> 1 <= date.month <= 12 && 1 <= date.day <= 31,
{
    let parsed = parse_ymd(s);
    date_from_parsed(parsed)
}

/// Reads an optional date: the text `null` stands for no date, any other
/// text must be a date written as `%Y-%m-%d`.
pub fn parse_optional_date(s: &str) -> (res: Result<Option<CalendarDate>, DateError>)
    ensures
        s@ == "null"@ ==> res == Ok::<Option<CalendarDate>, DateError>(None),
        s@ != "null"@ ==> res == match date_of(ymd_from_text(s@)) {
            Ok(d) => Ok(Some(d)),
            Err(e) => Err(e),
        },
        s@ != "null"@ ==> (ymd_from_text(s@) matches Some((y, m, d)) ==> res == Ok::<
            Option<CalendarDate>,
            DateError,
        >(Some(CalendarDate { year: y, month: m, day: d }))),
        s@ != "null"@ ==> (ymd_from_text(s@) is None ==> res == Err::<Option<CalendarDate>, DateError>(
            DateError::InvalidDate,
        )),
{
    let text = String::from_str(s);
    let null = String::from_str("null");
    if text == null {
        return Ok(None);
    }
    match parse_date(s) {
        Ok(d) => Ok(Some(d)),
        Err(e) => Err(e),
    }
}

} // verus!

//! Virgin credit card statements: repairing lines whose merchant field holds
//! commas.

pub mod parser;

use crate::text::{
    free_of, join, join_with, lemma_join_free, lemma_join_split, lemma_split_join,
    lemma_split_pieces_free, lines, lines_of, push_copies, split, split_fields, views,
};
use chrono::{Datelike, NaiveDateTime, Timelike};
use parser::DateError;
use vstd::prelude::*;

verus! {

/// The position of the merchant field in a statement line.
pub const MERCHANT_FIELD_NO: usize = 3;

/// The number of fields of a statement line.
pub const NO_OF_FIELDS: usize = 14;

/// The fields of a line with too many fields, repaired: the fields that stand
/// where the merchant should be (one more than there are fields too many) are
/// joined with spaces into one merchant field; the others stay as they are.
pub open spec fn merge_merchant(fields: Seq<Seq<char>>) -> Seq<Seq<char>> {
    let extra = fields.len() - NO_OF_FIELDS;
    fields.take(MERCHANT_FIELD_NO as int).push(
        join(fields.subrange(MERCHANT_FIELD_NO as int, MERCHANT_FIELD_NO + extra + 1), seq![' ']),
    ) + fields.skip(MERCHANT_FIELD_NO + extra + 1)
}

/// A line whose merchant field has been repaired.
pub open spec fn cleaned_line(line: Seq<char>) -> Seq<char> {
    join(merge_merchant(split(line, ',')), seq![','])
}

/// Repairs a line of at least `NO_OF_FIELDS` comma-separated fields whose
/// merchant field was split at commas.
pub fn clean_line(line: &str) -> (res: String)
    requires
        split(line@, ',').len() >= NO_OF_FIELDS,
    ensures
        res@ == cleaned_line(line@),
{
    let fields = split_fields(line, ',');
    let n = fields.len();
    let extra = n - NO_OF_FIELDS;
    let mut first: Vec<String> = Vec::new();
    push_copies(&fields, 0, MERCHANT_FIELD_NO, &mut first);
    let mut merchant_parts: Vec<String> = Vec::new();
    push_copies(&fields, MERCHANT_FIELD_NO, MERCHANT_FIELD_NO + extra + 1, &mut merchant_parts);
    let merchant = join_with(&merchant_parts, " ");
    let ghost before = first@;
    first.push(merchant);
    assert(views(first@) =~= views(before).push(merchant@));
    push_copies(&fields, MERCHANT_FIELD_NO + extra + 1, n, &mut first);
    proof {
        reveal_strlit(" ");
        reveal_strlit(",");
        assert(" "@ =~= seq![' ']);
        assert(","@ =~= seq![',']);
        let f = split(line@, ',');
        assert(views(merchant_parts@) =~= f.subrange(
            MERCHANT_FIELD_NO as int,
            MERCHANT_FIELD_NO + extra + 1,
        ));
        assert(views(fields@).subrange(0, MERCHANT_FIELD_NO as int) =~= f.take(
            MERCHANT_FIELD_NO as int,
        ));
        assert(views(fields@).subrange(MERCHANT_FIELD_NO + extra + 1, n as int) =~= f.skip(
            MERCHANT_FIELD_NO + extra + 1,
        ));
        assert(views(first@) =~= merge_merchant(f));
    }
    join_with(&first, ",")
}

/// Every field of a repaired line is free of commas, and there are exactly
/// `NO_OF_FIELDS` of them.
pub proof fn lemma_merge_merchant_free(line: Seq<char>)
    requires
        split(line, ',').len() >= NO_OF_FIELDS,
    ensures
        merge_merchant(split(line, ',')).len() == NO_OF_FIELDS,
        forall|i: int| 0 <= i < NO_OF_FIELDS ==> free_of(
            #[trigger] merge_merchant(split(line, ','))[i],
            ',',
        ),
{
    let f = split(line, ',');
    let extra = f.len() - NO_OF_FIELDS;
    let m = merge_merchant(f);
    lemma_split_pieces_free(line, ',');
    let mid = f.subrange(MERCHANT_FIELD_NO as int, MERCHANT_FIELD_NO + extra + 1);
    assert forall|i: int| 0 <= i < mid.len() implies free_of(#[trigger] mid[i], ',') by {
        assert(mid[i] == f[i + MERCHANT_FIELD_NO]);
    }
    assert(free_of(seq![' '], ','));
    lemma_join_free(mid, seq![' '], ',');
    assert forall|i: int| 0 <= i < NO_OF_FIELDS implies free_of(#[trigger] m[i], ',') by {
        if i < MERCHANT_FIELD_NO {
            assert(m[i] == f[i]);
        } else if i > MERCHANT_FIELD_NO {
            assert(m[i] == f[i + extra]);
        }
    }
}

/// A repaired line splits into exactly `NO_OF_FIELDS` fields: the first
/// `MERCHANT_FIELD_NO` and the last ones as they were, and between them the
/// merchant fields joined with spaces.
pub proof fn law_cleaned_line_fields(line: Seq<char>)
    requires
        split(line, ',').len() >= NO_OF_FIELDS,
    ensures
        split(cleaned_line(line), ',') == merge_merchant(split(line, ',')),
        split(cleaned_line(line), ',').len() == NO_OF_FIELDS,
{
    lemma_merge_merchant_free(line);
    let m = merge_merchant(split(line, ','));
    assert forall|i: int| 0 <= i < m.len() implies free_of(#[trigger] m[i], ',') by {}
    lemma_split_join(m, ',');
}

/// A line that already has exactly `NO_OF_FIELDS` fields comes back unchanged.
pub proof fn law_complete_line_unchanged(line: Seq<char>)
    requires
        split(line, ',').len() == NO_OF_FIELDS,
    ensures
        cleaned_line(line) == line,
{
    let f = split(line, ',');
    let mid = f.subrange(MERCHANT_FIELD_NO as int, MERCHANT_FIELD_NO + 1);
    assert(join(mid, seq![' ']) == f[MERCHANT_FIELD_NO as int]);
    assert(merge_merchant(f) =~= f);
    lemma_join_split(line, ',');
}

/// A statement with every line repaired, the lines joined with line feeds.
pub open spec fn cleaned_statement(content: Seq<char>) -> Seq<char> {
    join(lines(content).map_values(|l: Seq<char>| cleaned_line(l)), seq!['\n'])
}

/// Repairs every line of a statement whose lines all have at least
/// `NO_OF_FIELDS` fields, and joins the lines with line feeds.
pub fn clean_statement(content: &str) -> (res: String)
    requires
        forall|i: int|
            0 <= i < lines(content@).len() ==> split(#[trigger] lines(content@)[i], ',').len()
                >= NO_OF_FIELDS,
    ensures
        res@ == cleaned_statement(content@),
{
    let all = lines_of(content);
    let ghost ls = lines(content@);
    let mut cleaned: Vec<String> = Vec::new();
    let n = all.len();
    let mut i: usize = 0;
    while i < n
        invariant
            n == ls.len(),
            ls == views(all@),
            ls == lines(content@),
            forall|j: int| 0 <= j < ls.len() ==> split(#[trigger] ls[j], ',').len() >= NO_OF_FIELDS,
            i <= n,
            views(cleaned@) == ls.take(i as int).map_values(|l: Seq<char>| cleaned_line(l)),
        decreases n - i,
    {
        assert(all@[i as int]@ == ls[i as int]);
        let line = clean_line(all[i].as_str());
        let ghost before = cleaned@;
        cleaned.push(line);
        assert(views(cleaned@) =~= views(before).push(line@));
        assert(ls.take(i + 1).map_values(|l: Seq<char>| cleaned_line(l)) =~= ls.take(i as int).map_values(
            |l: Seq<char>| cleaned_line(l),
        ).push(cleaned_line(ls[i as int])));
        i = i + 1;
    }
    assert(ls.take(n as int) =~= ls);
    proof {
        reveal_strlit("\n");
        assert("\n"@ =~= seq!['\n']);
    }
    join_with(&cleaned, "\n")
}

/// A moment given by its calendar date and time of day.
#[derive(Clone, Copy, Debug, PartialEq, Eq, Structural)]
pub struct Timestamp {
    pub year: i32,
    pub month: u32,
    pub day: u32,
    pub hour: u32,
    pub minute: u32,
    pub second: u32,
}

/// Reads a date and time with `NaiveDateTime::parse_from_str` and the format
/// `%Y-%m-%d`. That format has no time fields, and chrono's `Parsed::to_naive_time`
/// reports too few fields when the hour is missing, so the read always fails.
#[verifier::external_body]
fn parse_naive_datetime(s: &str) -> (res: Option<(i32, u32, u32, u32, u32, u32)>)
    ensures
        res is None,
{
    match NaiveDateTime::parse_from_str(s, "%Y-%m-%d") {
        Ok(t) => Some((t.year(), t.month(), t.day(), t.hour(), t.minute(), t.second())),
        Err(_) => None,
    }
}

/// The moment for what the reader gave.
pub open spec fn timestamp_of(parsed: Option<(i32, u32, u32, u32, u32, u32)>) -> Result<
    Timestamp,
    DateError,
> {
    match parsed {
        Some((y, mo, d, h, mi, se)) => Ok(
            Timestamp { year: y, month: mo, day: d, hour: h, minute: mi, second: se },
        ),
        None => Err(DateError::InvalidDate),
    }
}

/// Turns what the reader gave into a moment.
pub fn timestamp_from_parsed(parsed: Option<(i32, u32, u32, u32, u32, u32)>) -> (res: Result<
    Timestamp,
    DateError,
>)
    ensures
        res == timestamp_of(parsed),
{
    match parsed {
        Some((year, month, day, hour, minute, second)) => Ok(
            Timestamp { year, month, day, hour, minute, second },
        ),
        None => Err(DateError::InvalidDate),
    }
}

/// Reads a statement date as a moment, with the format `%Y-%m-%d`; as that
/// format holds no time of day, no text is read as a moment.
pub fn parse_timestamp(s: &str) -> (res: Result<Timestamp, DateError>)
    ensures
        res == Err::<Timestamp, DateError>(DateError::InvalidDate),
{
    let parsed = parse_naive_datetime(s);
    timestamp_from_parsed(parsed)
}

} // verus!

//! Amounts of money in pence: parsing from text such as `1,010.05` and
//! formatting as text such as `5,000,000.35`.

use crate::text::{
    decimal, digit_char, free_of, is_digit, join, lemma_decimal_digits, lemma_join_push,
    lemma_split_append_free, push_char, push_decimal, push_range, split, string_of,
};
use core::num::TryFromIntError;
use vstd::prelude::*;
use vstd::std_specs::convert::{FromSpecImpl, TryFromSpec, TryFromSpecImpl};

verus! {

/// An amount of money in pence.
#[derive(Clone, Debug)]
pub struct Amount {
    pub pence: u32,
}

/// Why a text could not be read as an amount; the kinds that reading an
/// unsigned integer distinguishes.
#[derive(Clone, Copy, Debug, PartialEq, Eq, Structural)]
pub enum ParseAmountError {
    /// Nothing is left once the separators are removed.
    Empty,
    /// A character other than a digit (or a leading `+`).
    InvalidDigit,
    /// The number is larger than the largest amount.
    PosOverflow,
}

/// `.` and `,` are the separators that amounts may be written with.
pub open spec fn is_separator(c: char) -> bool {
    c == '.' || c == ','
}

/// `s` with every separator removed.
pub open spec fn strip_separators(s: Seq<char>) -> Seq<char>
    decreases s.len(),
{
    if s.len() == 0 {
        s
    } else if is_separator(s.last()) {
        strip_separators(s.drop_last())
    } else {
        strip_separators(s.drop_last()).push(s.last())
    }
}

/// The value of a digit character.
pub open spec fn digit_value(c: char) -> nat {
    (c as int - 48) as nat
}

/// Reads the digits `s` left to right after the value `acc`, failing at the
/// first non-digit or at the first step whose value exceeds `u32::MAX`.
pub open spec fn digits_from(acc: nat, s: Seq<char>) -> Result<u32, ParseAmountError>
    decreases s.len(),
{
    if s.len() == 0 {
        Ok(acc as u32)
    } else if !is_digit(s[0]) {
        Err(ParseAmountError::InvalidDigit)
    } else if acc * 10 + digit_value(s[0]) > u32::MAX {
        Err(ParseAmountError::PosOverflow)
    } else {
        digits_from(acc * 10 + digit_value(s[0]), s.drop_first())
    }
}

/// Reading an unsigned 32-bit integer in decimal: an optional `+`, then digits.
pub open spec fn parse_u32_spec(s: Seq<char>) -> Result<u32, ParseAmountError> {
    if s.len() == 0 {
        Err(ParseAmountError::Empty)
    } else if s[0] == '+' {
        if s.len() == 1 {
            Err(ParseAmountError::InvalidDigit)
        } else {
            digits_from(0, s.drop_first())
        }
    } else {
        digits_from(0, s)
    }
}

/// Reading an amount: the separators are dropped, what is left is a number of pence.
pub open spec fn parse_amount(s: Seq<char>) -> Result<Amount, ParseAmountError> {
    match parse_u32_spec(strip_separators(s)) {
        Ok(p) => Ok(Amount { pence: p }),
        Err(e) => Err(e),
    }
}

/// `d` with a `,` before every group of three characters counted from the right.
pub open spec fn group_thousands(d: Seq<char>) -> Seq<char>
    decreases d.len(),
{
    if d.len() <= 3 {
        d
    } else {
        group_thousands(d.take(d.len() - 3)) + seq![','] + d.skip(d.len() - 3)
    }
}

/// How an amount of `p` pence is written: below one pound the plain number of
/// pence; otherwise the pounds grouped in thousands, a `.`, and two digits of pence.
pub open spec fn format_pence(p: nat) -> Seq<char> {
    let d = decimal(p);
    if d.len() <= 2 {
        d
    } else {
        group_thousands(d.take(d.len() - 2)).push('.') + d.skip(d.len() - 2)
    }
}

/// The characters of `s` that are not separators.
fn strip_separators_exec(s: &str) -> (res: Vec<char>)
    ensures
        res@ == strip_separators(s@),
{
    let mut out: Vec<char> = Vec::new();
    let ghost mut k: int = 0;
    for c in it: s.chars()
        invariant
            it.seq() == s@,
            k == it.index(),
            out@ == strip_separators(s@.take(k)),
    {
        assert(s@.take(k + 1).drop_last() == s@.take(k));
        if c != '.' && c != ',' {
            out.push(c);
        }
        proof {
            k = k + 1;
        }
    }
    assert(s@.take(k) == s@);
    out
}

/// Reads an unsigned 32-bit decimal integer (`str::parse::<u32>`).
pub fn parse_u32(s: &Vec<char>) -> (res: Result<u32, ParseAmountError>)
    ensures
        res == parse_u32_spec(s@),
{
    let n = s.len();
    if n == 0 {
        return Err(ParseAmountError::Empty);
    }
    let mut i: usize = 0;
    if s[0] == '+' {
        if n == 1 {
            return Err(ParseAmountError::InvalidDigit);
        }
        i = 1;
        assert(s@.skip(1) =~= s@.drop_first());
    } else {
        assert(s@.skip(0) =~= s@);
    }
    let mut acc: u32 = 0;
    while i < n
        invariant
            n == s@.len(),
            1 <= n,
            i <= n,
            parse_u32_spec(s@) == digits_from(acc as nat, s@.skip(i as int)),
        decreases n - i,
    {
        let c = s[i];
        assert(s@.skip(i as int)[0] == c);
        assert(s@.skip(i as int).drop_first() =~= s@.skip(i + 1));
        if !('0' <= c && c <= '9') {
            return Err(ParseAmountError::InvalidDigit);
        }
        let d: u64 = (c as u64) - 48;
        let next: u64 = (acc as u64) * 10 + d;
        if next > 4294967295u64 {
            return Err(ParseAmountError::PosOverflow);
        }
        acc = next as u32;
        i = i + 1;
    }
    assert(s@.skip(i as int) =~= Seq::<char>::empty());
    Ok(acc)
}

/// Appends `d[..end]` grouped in thousands to `out`.
fn push_grouped(d: &Vec<char>, end: usize, out: &mut String)
    requires
        end <= d@.len(),
    ensures
        final(out)@ == old(out)@ + group_thousands(d@.take(end as int)),
    decreases end,
{
    if end > 3 {
        push_grouped(d, end - 3, out);
        push_char(out, ',');
        push_range(d, end - 3, end, out);
        let ghost t = d@.take(end as int);
        assert(t.take(t.len() - 3) =~= d@.take(end - 3));
        assert(t.skip(t.len() - 3) =~= d@.subrange(end - 3, end as int));
    } else {
        push_range(d, 0, end, out);
        assert(d@.take(end as int) =~= d@.subrange(0, end as int));
    }
}

proof fn lemma_strip_concat(a: Seq<char>, b: Seq<char>)
    ensures
        strip_separators(a + b) == strip_separators(a) + strip_separators(b),
    decreases b.len(),
{
    if b.len() == 0 {
        assert(a + b =~= a);
        assert(strip_separators(a) + strip_separators(b) =~= strip_separators(a));
    } else {
        lemma_strip_concat(a, b.drop_last());
        assert((a + b).drop_last() =~= a + b.drop_last());
        assert((a + b).last() == b.last());
        if !is_separator(b.last()) {
            assert(strip_separators(a) + strip_separators(b.drop_last()).push(b.last())
                =~= (strip_separators(a) + strip_separators(b.drop_last())).push(b.last()));
        }
    }
}

proof fn lemma_strip_separator(c: char)
    requires
        is_separator(c),
    ensures
        strip_separators(seq![c]) == Seq::<char>::empty(),
{
    assert(seq![c].drop_last() =~= Seq::<char>::empty());
    assert(strip_separators(Seq::<char>::empty()) == Seq::<char>::empty());
}

proof fn lemma_strip_digits(d: Seq<char>)
    requires
        forall|i: int| 0 <= i < d.len() ==> is_digit(#[trigger] d[i]),
    ensures
        strip_separators(d) == d,
    decreases d.len(),
{
    if d.len() > 0 {
        lemma_strip_digits(d.drop_last());
        assert(is_digit(d[d.len() - 1]));
        assert(d.drop_last().push(d.last()) =~= d);
    }
}

proof fn lemma_strip_grouped(d: Seq<char>)
    requires
        forall|i: int| 0 <= i < d.len() ==> is_digit(#[trigger] d[i]),
    ensures
        strip_separators(group_thousands(d)) == d,
    decreases d.len(),
{
    if d.len() <= 3 {
        lemma_strip_digits(d);
    } else {
        let a = d.take(d.len() - 3);
        let b = d.skip(d.len() - 3);
        assert forall|i: int| 0 <= i < a.len() implies is_digit(#[trigger] a[i]) by {
            assert(a[i] == d[i]);
        }
        assert forall|i: int| 0 <= i < b.len() implies is_digit(#[trigger] b[i]) by {
            assert(b[i] == d[i + d.len() - 3]);
        }
        lemma_strip_grouped(a);
        lemma_strip_digits(b);
        lemma_strip_concat(group_thousands(a), seq![',']);
        lemma_strip_concat(group_thousands(a) + seq![','], b);
        lemma_strip_separator(',');
        assert(a + b =~= d);
    }
}

proof fn lemma_digits_from_append(acc: nat, s: Seq<char>, t: Seq<char>)
    requires
        acc <= u32::MAX,
        digits_from(acc, s) is Ok,
    ensures
        digits_from(acc, s + t) == digits_from(digits_from(acc, s)->Ok_0 as nat, t),
    decreases s.len(),
{
    if s.len() == 0 {
        assert(s + t =~= t);
    } else {
        assert((s + t)[0] == s[0]);
        assert((s + t).drop_first() =~= s.drop_first() + t);
        lemma_digits_from_append(acc * 10 + digit_value(s[0]), s.drop_first(), t);
    }
}

proof fn lemma_digits_from_decimal(n: nat)
    requires
        n <= u32::MAX,
    ensures
        digits_from(0, decimal(n)) == Ok::<u32, ParseAmountError>(n as u32),
    decreases n,
{
    let c = digit_char(n % 10);
    assert(seq![c].drop_first() =~= Seq::<char>::empty());
    assert(c as int == 48 + n % 10);
    assert(is_digit(c));
    assert(digit_value(c) == n % 10);
    assert(seq![c][0] == c);
    assert(n / 10 * 10 + n % 10 == n);
    assert(digits_from(n, Seq::<char>::empty()) == Ok::<u32, ParseAmountError>(n as u32));
    assert(digits_from(n / 10, seq![c]) == Ok::<u32, ParseAmountError>(n as u32));
    if n < 10 {
        assert(decimal(n) == seq![c]);
    } else {
        lemma_digits_from_decimal(n / 10);
        lemma_digits_from_append(0, decimal(n / 10), seq![c]);
        assert(decimal(n) == decimal(n / 10) + seq![c]);
    }
}

/// Reading back the text of an amount gives the same amount: the written
/// form of any amount parses to exactly that number of pence.
pub proof fn law_format_then_parse(a: Amount)
    ensures
        parse_amount(format_pence(a.pence as nat)) == Ok::<Amount, ParseAmountError>(a),
{
    let p = a.pence as nat;
    let d = decimal(p);
    lemma_decimal_digits(p);
    if d.len() > 2 {
        let k = d.len() - 2;
        let a1 = d.take(k);
        let b1 = d.skip(k);
        assert forall|i: int| 0 <= i < a1.len() implies is_digit(#[trigger] a1[i]) by {
            assert(a1[i] == d[i]);
        }
        assert forall|i: int| 0 <= i < b1.len() implies is_digit(#[trigger] b1[i]) by {
            assert(b1[i] == d[i + k]);
        }
        lemma_strip_grouped(a1);
        lemma_strip_digits(b1);
        lemma_strip_concat(group_thousands(a1), seq!['.']);
        lemma_strip_concat(group_thousands(a1) + seq!['.'], b1);
        lemma_strip_separator('.');
        assert(group_thousands(a1).push('.') =~= group_thousands(a1) + seq!['.']);
        assert(a1 + b1 =~= d);
        assert(strip_separators(format_pence(p)) == d);
    } else {
        lemma_strip_digits(d);
    }
    assert(is_digit(d[0]));
    lemma_digits_from_decimal(p);
}

/// Every character of `s` is a digit.
pub open spec fn all_digits(s: Seq<char>) -> bool {
    forall|i: int| 0 <= i < s.len() ==> is_digit(#[trigger] s[i])
}

/// The number that the digits `s` write in decimal.
pub open spec fn numeral_value(s: Seq<char>) -> nat
    decreases s.len(),
{
    if s.len() == 0 {
        0
    } else {
        numeral_value(s.drop_last()) * 10 + digit_value(s.last())
    }
}

/// What is left of a text to read as digits: the text without separators and
/// without a leading `+`.
pub open spec fn amount_digits(s: Seq<char>) -> Seq<char> {
    let t = strip_separators(s);
    if t.len() > 0 && t[0] == '+' {
        t.drop_first()
    } else {
        t
    }
}

proof fn lemma_digits_from_error_extends(acc: nat, s: Seq<char>, t: Seq<char>)
    requires
        digits_from(acc, s) is Err,
    ensures
        digits_from(acc, s + t) == digits_from(acc, s),
    decreases s.len(),
{
    assert((s + t)[0] == s[0]);
    assert((s + t).drop_first() =~= s.drop_first() + t);
    if is_digit(s[0]) && acc * 10 + digit_value(s[0]) <= u32::MAX {
        lemma_digits_from_error_extends(acc * 10 + digit_value(s[0]), s.drop_first(), t);
    }
}

proof fn lemma_digits_from_ok_digits(acc: nat, s: Seq<char>)
    requires
        digits_from(acc, s) is Ok,
    ensures
        all_digits(s),
    decreases s.len(),
{
    if s.len() > 0 {
        lemma_digits_from_ok_digits(acc * 10 + digit_value(s[0]), s.drop_first());
        assert forall|i: int| 0 <= i < s.len() implies is_digit(#[trigger] s[i]) by {
            if i > 0 {
                assert(s[i] == s.drop_first()[i - 1]);
            }
        }
    }
}

proof fn lemma_digits_from_numeral(s: Seq<char>)
    requires
        all_digits(s),
    ensures
        digits_from(0, s) == if numeral_value(s) <= u32::MAX {
            Ok::<u32, ParseAmountError>(numeral_value(s) as u32)
        } else {
            Err(ParseAmountError::PosOverflow)
        },
    decreases s.len(),
{
    if s.len() > 0 {
        let init = s.drop_last();
        let c = s.last();
        assert(is_digit(s[s.len() - 1]));
        assert(init + seq![c] =~= s);
        assert(seq![c].drop_first() =~= Seq::<char>::empty());
        assert(seq![c][0] == c);
        lemma_digits_from_numeral(init);
        if numeral_value(init) <= u32::MAX {
            lemma_digits_from_append(0, init, seq![c]);
            let v = numeral_value(init) * 10 + digit_value(c);
            assert(digits_from(v, Seq::<char>::empty()) == Ok::<u32, ParseAmountError>(v as u32));
        } else {
            lemma_digits_from_error_extends(0, init, seq![c]);
        }
    }
}

/// Reading an amount succeeds exactly on the texts that, once the separators
/// and a leading `+` are removed, are one or more digits writing a number no
/// larger than `u32::MAX`; the amount then has that many pence.
pub proof fn law_parse_accepts_numerals(s: Seq<char>)
    ensures
        parse_amount(s) is Ok <==> (amount_digits(s).len() > 0 && all_digits(amount_digits(s))
            && numeral_value(amount_digits(s)) <= u32::MAX),
        parse_amount(s) matches Ok(a) ==> a.pence == numeral_value(amount_digits(s)),
{
    let t = strip_separators(s);
    let body = amount_digits(s);
    if t.len() > 0 && body.len() > 0 {
        if t[0] == '+' {
            assert(body == t.drop_first());
        }
        if all_digits(body) {
            lemma_digits_from_numeral(body);
        } else if digits_from(0, body) is Ok {
            lemma_digits_from_ok_digits(0, body);
        }
    }
}

proof fn lemma_split_free(d: Seq<char>)
    requires
        free_of(d, ','),
    ensures
        split(d, ',') == seq![d],
{
    let e = Seq::<char>::empty();
    lemma_split_append_free(e, d, ',');
    assert(e + d =~= d);
    assert(split(e, ',').update(0, e + d) =~= seq![d]);
}

/// Grouping in thousands splits the digits at `,` into a first group of one
/// to three digits and then groups of exactly three, which together are the
/// digits in their order.
pub proof fn law_group_thousands_shape(d: Seq<char>)
    requires
        d.len() >= 1,
        free_of(d, ','),
    ensures
        split(group_thousands(d), ',').len() >= 1,
        1 <= split(group_thousands(d), ',')[0].len() <= 3,
        forall|i: int|
            1 <= i < split(group_thousands(d), ',').len() ==> (#[trigger] split(
                group_thousands(d),
                ',',
            )[i]).len() == 3,
        join(split(group_thousands(d), ','), Seq::<char>::empty()) == d,
    decreases d.len(),
{
    let e = Seq::<char>::empty();
    if d.len() <= 3 {
        lemma_split_free(d);
        assert(split(group_thousands(d), ',') == seq![d]);
    } else {
        let a = d.take(d.len() - 3);
        let b = d.skip(d.len() - 3);
        assert(free_of(a, ',')) by {
            assert forall|i: int| 0 <= i < a.len() implies a[i] != ',' by {
                assert(a[i] == d[i]);
            }
        }
        assert(free_of(b, ',')) by {
            assert forall|i: int| 0 <= i < b.len() implies b[i] != ',' by {
                assert(b[i] == d[i + d.len() - 3]);
            }
        }
        law_group_thousands_shape(a);
        let g = group_thousands(a);
        let pa = split(g, ',');
        assert((g + seq![',']).drop_last() =~= g);
        assert((g + seq![',']).last() == ',');
        assert(split(g + seq![','], ',') == pa.push(e));
        lemma_split_append_free(g + seq![','], b, ',');
        assert(pa.push(e).update(pa.len() as int, e + b) =~= pa.push(b));
        assert(e + b =~= b);
        assert(group_thousands(d) == g + seq![','] + b);
        let parts = split(group_thousands(d), ',');
        assert(parts == pa.push(b));
        assert(parts[0] == pa[0]);
        assert forall|i: int| 1 <= i < parts.len() implies (#[trigger] parts[i]).len() == 3 by {
            if i < pa.len() {
                assert(parts[i] == pa[i]);
            }
        }
        lemma_join_push(pa, e, b);
        assert(join(pa, e) + e + b =~= a + b);
        assert(a + b =~= d);
    }
}

proof fn lemma_decimal_split(p: nat)
    ensures
        p < 100 ==> decimal(p).len() <= 2,
        p >= 100 ==> decimal(p) == decimal(p / 100) + seq![digit_char((p / 10) % 10), digit_char(p % 10)],
        p >= 100 ==> decimal(p).len() >= 3,
{
    if p >= 10 {
        assert(decimal(p) == decimal(p / 10).push(digit_char(p % 10)));
        if p >= 100 {
            assert(p / 10 >= 10);
            assert((p / 10) / 10 == p / 100);
            assert(decimal(p / 10) == decimal(p / 100).push(digit_char((p / 10) % 10)));
            lemma_decimal_digits(p / 100);
            assert(decimal(p) =~= decimal(p / 100) + seq![digit_char((p / 10) % 10), digit_char(p % 10)]);
        } else {
            assert(p / 10 < 10);
        }
    }
}

/// How an amount is written: below one pound, its pence as a plain number of
/// one or two digits; otherwise the pounds, split at `,` into a first group of
/// one to three digits and then groups of exactly three that together write
/// the whole pounds, then `.`, then the tens and units of the pence.
pub proof fn law_format_pence_shape(p: nat)
    ensures
        p < 100 ==> format_pence(p) == decimal(p) && decimal(p).len() <= 2,
        p >= 100 ==> {
            let t = format_pence(p);
            let pounds = t.take(t.len() - 3);
            let groups = split(pounds, ',');
            &&& t.len() >= 4
            &&& t[t.len() - 3] == '.'
            &&& t.skip(t.len() - 2) == seq![digit_char((p / 10) % 10), digit_char(p % 10)]
            &&& groups.len() >= 1
            &&& 1 <= groups[0].len() <= 3
            &&& forall|i: int| 1 <= i < groups.len() ==> (#[trigger] groups[i]).len() == 3
            &&& join(groups, Seq::<char>::empty()) == decimal(p / 100)
        },
{
    lemma_decimal_split(p);
    if p >= 100 {
        let d = decimal(p);
        let k = d.len() - 2;
        let q = decimal(p / 100);
        assert(d.take(k) =~= q);
        assert(d.skip(k) =~= seq![digit_char((p / 10) % 10), digit_char(p % 10)]);
        lemma_decimal_digits(p / 100);
        assert(free_of(q, ',')) by {
            assert forall|i: int| 0 <= i < q.len() implies q[i] != ',' by {
                assert(is_digit(q[i]));
            }
        }
        law_group_thousands_shape(q);
        let g = group_thousands(q);
        let t = format_pence(p);
        assert(t == g.push('.') + d.skip(k));
        assert(t.take(t.len() - 3) =~= g);
        assert(t.skip(t.len() - 2) =~= d.skip(k));
        assert(t[t.len() - 3] == '.');
    }
}

impl Amount {
    /// Reads an amount written with optional `.` and `,` separators anywhere,
    /// for instance `10.05` or `1,010.05`: the separators are removed and the
    /// rest is read as a number of pence.
    pub fn from_str(s: &str) -> (res: Result<Amount, ParseAmountError>)
        ensures
            res == parse_amount(s@),
    {
        let cleaned = strip_separators_exec(s);
        match parse_u32(&cleaned) {
            Ok(pence) => Ok(Amount { pence }),
            Err(e) => Err(e),
        }
    }

    /// The amount written in pounds and pence: `8.90`, `6,543.21`; an
    /// amount below one pound is written as its number of pence.
    pub fn to_string(&self) -> (res: String)
        ensures
            res@ == format_pence(self.pence as nat),
    {
        let mut out = String::new();
        push_pence(self.pence as u64, &mut out);
        assert(out@ =~= format_pence(self.pence as nat));
        out
    }
}

/// Appends the text of an amount of `p` pence to `out`.
fn push_pence(p: u64, out: &mut String)
    ensures
        final(out)@ == old(out)@ + format_pence(p as nat),
{
    let mut d: Vec<char> = Vec::new();
    push_decimal(p, &mut d);
    assert(d@ =~= decimal(p as nat));
    if d.len() <= 2 {
        push_range(&d, 0, d.len(), out);
        assert(d@.subrange(0, d@.len() as int) =~= d@);
    } else {
        let k = d.len() - 2;
        let ghost start = out@;
        push_grouped(&d, k, out);
        push_char(out, '.');
        push_range(&d, k, d.len(), out);
        assert(d@.skip(k as int) =~= d@.subrange(k as int, d@.len() as int));
        assert(out@ =~= start + format_pence(p as nat));
    }
}

/// How a balance of `pence` is written: as an amount, after a `-` when the
/// balance is negative.
pub open spec fn balance_text(pence: int) -> Seq<char> {
    if pence < 0 {
        seq!['-'] + format_pence((-pence) as nat)
    } else {
        format_pence(pence as nat)
    }
}

/// A balance in pence written as an amount, with a leading `-` when negative:
/// `-12.34` for minus 1234 pence.
pub fn format_balance(pence: i64) -> (res: String)
    ensures
        res@ == balance_text(pence as int),
{
    let mut out = String::new();
    if pence < 0 {
        push_char(&mut out, '-');
        let magnitude: u64 = ((-(pence + 1)) as u64) + 1;
        push_pence(magnitude, &mut out);
    } else {
        push_pence(pence as u64, &mut out);
        assert(out@ =~= balance_text(pence as int));
    }
    out
}

impl From<u32> for Amount {
    fn from(pence: u32) -> (res: Self) {
        Amount { pence }
    }
}

impl FromSpecImpl<u32> for Amount {
    open spec fn obeys_from_spec() -> bool {
        true
    }

    open spec fn from_spec(v: u32) -> Self {
        Amount { pence: v }
    }
}

impl core::str::FromStr for Amount {
    type Err = ParseAmountError;

    fn from_str(s: &str) -> (res: Result<Self, Self::Err>)
        ensures
            res == parse_amount(s@),
    {
        Amount::from_str(s)
    }
}

impl<'a> TryFrom<&'a str> for Amount {
    type Error = ParseAmountError;

    fn try_from(value: &'a str) -> (res: Result<Self, Self::Error>) {
        Amount::from_str(value)
    }
}

impl<'a> TryFromSpecImpl<&'a str> for Amount {
    open spec fn obeys_try_from_spec() -> bool {
        true
    }

    open spec fn try_from_spec(v: &'a str) -> Result<Self, Self::Error> {
        parse_amount(v@)
    }
}

impl TryFrom<i64> for Amount {
    type Error = TryFromIntError;

    fn try_from(value: i64) -> (res: Result<Self, Self::Error>)
        ensures
            res is Ok <==> 0 <= value <= u32::MAX,
            res matches Ok(a) ==> a.pence == value,
    {
        match u32::try_from(value) {
            Ok(pence) => Ok(Amount { pence }),
            Err(e) => Err(e),
        }
    }
}

impl TryFromSpecImpl<i64> for Amount {
    open spec fn obeys_try_from_spec() -> bool {
        true
    }

    open spec fn try_from_spec(v: i64) -> Result<Self, Self::Error> {
        match <u32 as TryFromSpec<i64>>::try_from_spec(v) {
            Ok(p) => Ok(Amount { pence: p }),
            Err(e) => Err(e),
        }
    }
}

} // verus!

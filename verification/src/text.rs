//! Character-sequence helpers shared by the formatting and CSV-cleaning code:
//! splitting on a separator, joining with a separator, and decimal numerals.

use itertools::Itertools;
use vstd::prelude::*;

verus! {

/// The character views of a sequence of strings.
pub open spec fn views(v: Seq<String>) -> Seq<Seq<char>> {
    v.map_values(|s: String| s@)
}

/// `parts` concatenated, with `sep` between each two neighbours.
pub open spec fn join(parts: Seq<Seq<char>>, sep: Seq<char>) -> Seq<char>
    decreases parts.len(),
{
    if parts.len() == 0 {
        Seq::empty()
    } else if parts.len() == 1 {
        parts[0]
    } else {
        join(parts.drop_last(), sep) + sep + parts.last()
    }
}

/// The pieces of `s` between occurrences of `sep`, as `str::split` yields them:
/// always at least one piece, an empty one for an empty `s`.
pub open spec fn split(s: Seq<char>, sep: char) -> Seq<Seq<char>>
    decreases s.len(),
{
    if s.len() == 0 {
        seq![Seq::<char>::empty()]
    } else {
        let p = split(s.drop_last(), sep);
        if s.last() == sep {
            p.push(Seq::<char>::empty())
        } else {
            p.update(p.len() - 1, p.last().push(s.last()))
        }
    }
}

/// `sep` does not occur in `s`.
pub open spec fn free_of(s: Seq<char>, sep: char) -> bool {
    forall|i: int| 0 <= i < s.len() ==> s[i] != sep
}

/// The character of a decimal digit.
pub open spec fn digit_char(d: nat) -> char {
    (48 + d) as char
}

/// The decimal numeral of `n`, most significant digit first, without leading zeros.
pub open spec fn decimal(n: nat) -> Seq<char>
    decreases n,
{
    if n < 10 {
        seq![digit_char(n)]
    } else {
        decimal(n / 10).push(digit_char(n % 10))
    }
}

/// `c` is one of the ASCII digits `0` to `9`.
pub open spec fn is_digit(c: char) -> bool {
    '0' <= c <= '9'
}

/// Appends one character to a string (`String::push`).
#[verifier::external_body]
pub(crate) fn push_char(s: &mut String, c: char)
    ensures
        final(s)@ == old(s)@.push(c),
{
    s.push(c);
}

/// Joins the strings with `sep` between them, through `Itertools::join`, which
/// writes the first item, then `sep` and the next item for each further item,
/// and gives the empty string for no items.
#[verifier::external_body]
pub(crate) fn join_with(parts: &Vec<String>, sep: &str) -> (res: String)
    ensures
        res@ == join(views(parts@), sep@),
{
    parts.iter().join(sep)
}

/// The characters of `s`, in order.
pub fn chars_of(s: &str) -> (res: Vec<char>)
    ensures
        res@ == s@,
{
    let mut out: Vec<char> = Vec::new();
    let ghost mut k: int = 0;
    for c in it: s.chars()
        invariant
            it.seq() == s@,
            k == it.index(),
            out@ == s@.take(k),
    {
        assert(s@.take(k + 1) == s@.take(k).push(c));
        out.push(c);
        proof {
            k = k + 1;
        }
    }
    assert(s@.take(k) == s@);
    out
}

/// A string holding the given characters.
pub fn string_of(chars: &Vec<char>) -> (res: String)
    ensures
        res@ == chars@,
{
    let mut out = String::new();
    let mut i: usize = 0;
    while i < chars.len()
        invariant
            i <= chars.len(),
            out@ == chars@.take(i as int),
        decreases chars.len() - i,
    {
        assert(chars@.take(i + 1) == chars@.take(i as int).push(chars@[i as int]));
        push_char(&mut out, chars[i]);
        i = i + 1;
    }
    assert(chars@.take(i as int) == chars@);
    out
}

/// Splits `s` at each `sep` (`str::split` with one character).
pub fn split_fields(s: &str, sep: char) -> (res: Vec<String>)
    ensures
        views(res@) == split(s@, sep),
{
    let mut fields: Vec<String> = Vec::new();
    let mut cur = String::new();
    let ghost mut k: int = 0;
    assert(s@.take(0) =~= Seq::<char>::empty());
    assert(views(fields@).push(cur@) =~= split(s@.take(0), sep));
    for c in it: s.chars()
        invariant
            it.seq() == s@,
            k == it.index(),
            views(fields@).push(cur@) == split(s@.take(k), sep),
    {
        assert(s@.take(k + 1).drop_last() == s@.take(k));
        let ghost before = views(fields@);
        if c == sep {
            fields.push(cur);
            cur = String::new();
            assert(views(fields@) == before.push(views(fields@).last()));
        } else {
            push_char(&mut cur, c);
        }
        assert(views(fields@).push(cur@) =~= split(s@.take(k + 1), sep));
        proof {
            k = k + 1;
        }
    }
    assert(s@.take(k) == s@);
    fields.push(cur);
    assert(views(fields@) =~= split(s@, sep));
    fields
}

/// Appends copies of `src[from..to]` to `out`.
pub fn push_copies(src: &Vec<String>, from: usize, to: usize, out: &mut Vec<String>)
    requires
        from <= to <= src@.len(),
    ensures
        views(final(out)@) == views(old(out)@) + views(src@).subrange(from as int, to as int),
{
    let mut i = from;
    assert(views(out@) =~= views(old(out)@) + views(src@).subrange(from as int, i as int));
    while i < to
        invariant
            from <= i <= to <= src@.len(),
            views(out@) == views(old(out)@) + views(src@).subrange(from as int, i as int),
        decreases to - i,
    {
        let ghost before = out@;
        let s = src[i].clone();
        out.push(s);
        assert(views(out@) =~= views(before).push(src@[i as int]@));
        assert(views(src@).subrange(from as int, i + 1) =~= views(src@).subrange(
            from as int,
            i as int,
        ).push(src@[i as int]@));
        i = i + 1;
    }
}

/// Joining pieces free of `c` with a separator free of `c` gives a text free of `c`.
pub proof fn lemma_join_free(parts: Seq<Seq<char>>, sep: Seq<char>, c: char)
    requires
        free_of(sep, c),
        forall|i: int| 0 <= i < parts.len() ==> free_of(#[trigger] parts[i], c),
    ensures
        free_of(join(parts, sep), c),
    decreases parts.len(),
{
    if parts.len() > 1 {
        let init = parts.drop_last();
        assert forall|i: int| 0 <= i < init.len() implies free_of(#[trigger] init[i], c) by {
            assert(init[i] == parts[i]);
        }
        lemma_join_free(init, sep, c);
        assert(free_of(parts[parts.len() - 1], c));
        let j = join(init, sep) + sep + parts.last();
        assert forall|i: int| 0 <= i < j.len() implies j[i] != c by {
            if i < join(init, sep).len() {
            } else if i < join(init, sep).len() + sep.len() {
                assert(j[i] == sep[i - join(init, sep).len()]);
            } else {
                assert(j[i] == parts.last()[i - join(init, sep).len() - sep.len()]);
            }
        }
    } else if parts.len() == 1 {
        assert(free_of(parts[0], c));
    }
}

/// Appends `d[from..to]` to `out`.
pub fn push_range(d: &Vec<char>, from: usize, to: usize, out: &mut String)
    requires
        from <= to <= d@.len(),
    ensures
        final(out)@ == old(out)@ + d@.subrange(from as int, to as int),
{
    let mut i = from;
    while i < to
        invariant
            from <= i <= to <= d@.len(),
            out@ == old(out)@ + d@.subrange(from as int, i as int),
        decreases to - i,
    {
        assert(d@.subrange(from as int, i + 1) == d@.subrange(from as int, i as int).push(
            d@[i as int],
        ));
        push_char(out, d[i]);
        i = i + 1;
    }
}

/// `s` without one carriage return at its end, if it ends with one.
pub open spec fn strip_cr(s: Seq<char>) -> Seq<char> {
    if s.len() > 0 && s.last() == '\r' {
        s.drop_last()
    } else {
        s
    }
}

/// The lines of `s` as `str::lines` yields them: the pieces between line
/// feeds, each without a carriage return just before its line feed; a last
/// empty piece (after a final line feed, or of an empty text) is no line.
pub open spec fn lines(s: Seq<char>) -> Seq<Seq<char>> {
    let p = split(s, '\n');
    let body = p.drop_last().map_values(|l: Seq<char>| strip_cr(l));
    if p.last().len() == 0 {
        body
    } else {
        body.push(p.last())
    }
}

/// The text of `s` without a final carriage return.
fn without_cr(s: &String) -> (res: String)
    ensures
        res@ == strip_cr(s@),
{
    let cs = chars_of(s.as_str());
    let n = cs.len();
    let mut out = String::new();
    if n > 0 && cs[n - 1] == '\r' {
        push_range(&cs, 0, n - 1, &mut out);
        assert(cs@.subrange(0, n - 1) =~= cs@.drop_last());
    } else {
        push_range(&cs, 0, n, &mut out);
        assert(cs@.subrange(0, n as int) =~= cs@);
    }
    out
}

/// The lines of `s` (`str::lines`).
pub fn lines_of(s: &str) -> (res: Vec<String>)
    ensures
        views(res@) == lines(s@),
{
    let pieces = split_fields(s, '\n');
    proof {
        lemma_split_nonempty(s@, '\n');
    }
    let ghost p = split(s@, '\n');
    let n = pieces.len();
    let mut out: Vec<String> = Vec::new();
    let mut i: usize = 0;
    while i < n - 1
        invariant
            n == p.len(),
            n >= 1,
            p == views(pieces@),
            i <= n - 1,
            views(out@) == p.take(i as int).map_values(|l: Seq<char>| strip_cr(l)),
        decreases n - 1 - i,
    {
        let line = without_cr(&pieces[i]);
        let ghost before = out@;
        out.push(line);
        assert(views(out@) =~= views(before).push(line@));
        assert(p.take(i + 1).map_values(|l: Seq<char>| strip_cr(l)) =~= p.take(i as int).map_values(
            |l: Seq<char>| strip_cr(l),
        ).push(strip_cr(p[i as int])));
        i = i + 1;
    }
    assert(p.take(n - 1) =~= p.drop_last());
    let last = &pieces[n - 1];
    if !last.as_str().is_empty() {
        let ghost before = out@;
        out.push(last.clone());
        assert(views(out@) =~= views(before).push(p.last()));
    }
    out
}

/// The decimal digit `d` as a character.
pub fn digit(d: u64) -> (c: char)
    requires
        d < 10,
    ensures
        c == digit_char(d as nat),
{
    let b: u8 = 48u8 + (d as u8);
    b as char
}

/// Appends the decimal numeral of `n` to `out`.
pub fn push_decimal(n: u64, out: &mut Vec<char>)
    ensures
        final(out)@ == old(out)@ + decimal(n as nat),
    decreases n,
{
    if n >= 10 {
        push_decimal(n / 10, out);
    }
    let c = digit(n % 10);
    out.push(c);
}

/// The decimal numeral of `n` (`n.to_string()` for an unsigned integer).
pub fn decimal_string(n: u64) -> (res: String)
    ensures
        res@ == decimal(n as nat),
{
    let mut d: Vec<char> = Vec::new();
    push_decimal(n, &mut d);
    assert(d@ =~= decimal(n as nat));
    string_of(&d)
}

/// Every numeral is a non-empty run of digits.
pub proof fn lemma_decimal_digits(n: nat)
    ensures
        decimal(n).len() >= 1,
        forall|i: int| 0 <= i < decimal(n).len() ==> is_digit(#[trigger] decimal(n)[i]),
    decreases n,
{
    if n >= 10 {
        lemma_decimal_digits(n / 10);
    }
}

/// Splitting always gives at least one piece.
pub proof fn lemma_split_nonempty(s: Seq<char>, sep: char)
    ensures
        split(s, sep).len() >= 1,
    decreases s.len(),
{
    if s.len() > 0 {
        lemma_split_nonempty(s.drop_last(), sep);
    }
}

/// No piece of a split holds the separator.
pub proof fn lemma_split_pieces_free(s: Seq<char>, sep: char)
    ensures
        forall|i: int| 0 <= i < split(s, sep).len() ==> free_of(#[trigger] split(s, sep)[i], sep),
    decreases s.len(),
{
    if s.len() > 0 {
        lemma_split_nonempty(s.drop_last(), sep);
        lemma_split_pieces_free(s.drop_last(), sep);
        let p = split(s.drop_last(), sep);
        assert forall|i: int| 0 <= i < split(s, sep).len() implies free_of(
            #[trigger] split(s, sep)[i],
            sep,
        ) by {
            if s.last() != sep && i == p.len() - 1 {
                assert(free_of(p[i], sep));
            }
        }
    }
}

proof fn lemma_join_extend_last(p: Seq<Seq<char>>, sep: Seq<char>, c: char)
    requires
        p.len() >= 1,
    ensures
        join(p.update(p.len() - 1, p.last().push(c)), sep) == join(p, sep).push(c),
{
    let q = p.update(p.len() - 1, p.last().push(c));
    if p.len() > 1 {
        assert(q.drop_last() =~= p.drop_last());
        assert(join(q, sep) == join(q.drop_last(), sep) + sep + q.last());
    }
}

pub proof fn lemma_join_push(p: Seq<Seq<char>>, sep: Seq<char>, x: Seq<char>)
    requires
        p.len() >= 1,
    ensures
        join(p.push(x), sep) == join(p, sep) + sep + x,
{
    assert(p.push(x).drop_last() =~= p);
}

/// Joining the pieces of a split with the separator gives back the string.
pub proof fn lemma_join_split(s: Seq<char>, sep: char)
    ensures
        join(split(s, sep), seq![sep]) == s,
    decreases s.len(),
{
    if s.len() > 0 {
        let p = split(s.drop_last(), sep);
        lemma_split_nonempty(s.drop_last(), sep);
        lemma_join_split(s.drop_last(), sep);
        if s.last() == sep {
            lemma_join_push(p, seq![sep], Seq::<char>::empty());
        } else {
            lemma_join_extend_last(p, seq![sep], s.last());
        }
        assert(s.drop_last().push(s.last()) =~= s);
    }
}

pub proof fn lemma_split_append_free(x: Seq<char>, b: Seq<char>, sep: char)
    requires
        free_of(b, sep),
    ensures
        split(x + b, sep) == split(x, sep).update(
            split(x, sep).len() - 1,
            split(x, sep).last() + b,
        ),
    decreases b.len(),
{
    lemma_split_nonempty(x, sep);
    let p = split(x, sep);
    if b.len() == 0 {
        assert(x + b =~= x);
        assert(p.last() + b =~= p.last());
        assert(p.update(p.len() - 1, p.last()) =~= p);
    } else {
        lemma_split_append_free(x, b.drop_last(), sep);
        assert((x + b).drop_last() =~= x + b.drop_last());
        assert((x + b).last() == b.last());
        assert(p.last() + b.drop_last() + seq![b.last()] =~= p.last() + b);
        let q = p.update(p.len() - 1, p.last() + b.drop_last());
        assert(q.len() == p.len());
        assert(q.last() == p.last() + b.drop_last());
        assert(q.last().push(b.last()) =~= p.last() + b);
        assert(q.update(q.len() - 1, q.last().push(b.last())) =~= p.update(
            p.len() - 1,
            p.last() + b,
        ));
    }
}

/// Splitting the join of separator-free pieces gives back the pieces.
pub proof fn lemma_split_join(parts: Seq<Seq<char>>, sep: char)
    requires
        parts.len() >= 1,
        forall|i: int| 0 <= i < parts.len() ==> free_of(#[trigger] parts[i], sep),
    ensures
        split(join(parts, seq![sep]), sep) == parts,
    decreases parts.len(),
{
    let e = Seq::<char>::empty();
    if parts.len() == 1 {
        lemma_split_append_free(e, parts[0], sep);
        assert(e + parts[0] =~= parts[0]);
        assert(split(e, sep).update(0, e + parts[0]) =~= parts);
    } else {
        let init = parts.drop_last();
        assert forall|i: int| 0 <= i < init.len() implies free_of(#[trigger] init[i], sep) by {
            assert(init[i] == parts[i]);
        }
        lemma_split_join(init, sep);
        let a = join(init, seq![sep]);
        let b = parts.last();
        assert(free_of(b, sep)) by {
            assert(b == parts[parts.len() - 1]);
        }
        assert((a + seq![sep]).drop_last() =~= a);
        lemma_split_append_free(a + seq![sep], b, sep);
        assert(a + seq![sep] + b == join(parts, seq![sep]));
        assert(init.push(e).update(init.len() as int, e + b) =~= parts);
    }
}

} // verus!

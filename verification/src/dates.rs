//! UTC calendar dates. A game's end instant arrives as epoch seconds; the
//! calendar day it falls on is computed by the `chrono` crate behind one
//! trusted wrapper, and everything said about a date from then on — its
//! fixed-width `YYYY-MM-DD` string, its ordering — is verified here.

use vstd::prelude::*;
use crate::text::{append_pad2, append_pad4, dec_pad2, dec_pad4, digit_char};
use chrono::Datelike;

verus! {

/// The last second of year 9999 (UTC). Up to here a date string keeps its
/// fixed `YYYY-MM-DD` width, which is what makes lexicographic order of the
/// strings agree with chronological order.
pub const TS_MAX: i64 = 253402300799;

/// A timestamp the pipeline accepts: non-negative and within the four-digit
/// calendar years.
pub open spec fn valid_timestamp(secs: i64) -> bool {
    0 <= secs <= TS_MAX
}

/// One UTC calendar day, no time-of-day component.
#[derive(Clone, Copy, PartialEq, Eq, Structural, Debug)]
pub struct CalendarDate {
    pub year: u16,
    pub month: u8,
    pub day: u8,
}

/// A date the pipeline can have computed from a valid timestamp.
pub open spec fn valid_date(d: CalendarDate) -> bool {
    &&& 1970 <= d.year <= 9999
    &&& 1 <= d.month <= 12
    &&& 1 <= d.day <= 31
}

/// The components of `d` as one triple, the form the timestamp-to-date
/// function's name uses.
pub open spec fn date_parts(d: CalendarDate) -> (int, int, int) {
    (d.year as int, d.month as int, d.day as int)
}

/// Numeric ordering key for dates: later days have strictly larger keys.
pub open spec fn date_key(d: CalendarDate) -> int {
    d.year * 10000 + d.month * 100 + d.day
}

/// Two valid dates with one ordering key are the same day.
pub proof fn lemma_date_key_injective(d1: CalendarDate, d2: CalendarDate)
    requires
        valid_date(d1),
        valid_date(d2),
        date_key(d1) == date_key(d2),
    ensures
        d1 == d2,
{
}

/// The ordering key of `d`, computed.
pub fn date_key_u32(d: &CalendarDate) -> (k: u32)
    requires
        valid_date(*d),
    ensures
        k == date_key(*d),
{
    (d.year as u32) * 10000 + (d.month as u32) * 100 + (d.day as u32)
}

/// The `YYYY-MM-DD` character sequence of a date.
pub open spec fn date_chars(d: CalendarDate) -> Seq<char> {
    dec_pad4(d.year as int) + seq!['-'] + dec_pad2(d.month as int) + seq!['-'] + dec_pad2(
        d.day as int,
    )
}

/// The UTC calendar day (year, month, day) that an epoch-seconds timestamp
/// falls on, as the `chrono` crate computes it.
pub uninterp spec fn utc_day_of(secs: int) -> (int, int, int);

/// Relies on chrono's `DateTime::from_timestamp` and the `Datelike`
/// accessors `year`, `month` and `day`: the UTC calendar date of a timestamp
/// depends on the seconds value alone; `month` and `day` lie in their
/// documented ranges 1..=12 and 1..=31; timestamps from the epoch up to the
/// last second of year 9999 give years 1970..=9999.
#[verifier::external_body]
fn utc_date_parts(secs: i64) -> (r: (u16, u8, u8))
    requires
        valid_timestamp(secs),
    ensures
        (r.0 as int, r.1 as int, r.2 as int) == utc_day_of(secs as int),
        1970 <= r.0 <= 9999,
        1 <= r.1 <= 12,
        1 <= r.2 <= 31,
{
    let date = chrono::DateTime::from_timestamp(secs, 0).unwrap().date_naive();
    (date.year() as u16, date.month() as u8, date.day() as u8)
}

/// The calendar day of a timestamp, as a value of the library's date type.
pub fn calendar_date_of(secs: i64) -> (d: CalendarDate)
    requires
        valid_timestamp(secs),
    ensures
        date_parts(d) == utc_day_of(secs as int),
        valid_date(d),
{
    let (y, m, dd) = utc_date_parts(secs);
    CalendarDate { year: y, month: m, day: dd }
}

/// Format a date as `YYYY-MM-DD`, fixed width, zero padded.
pub fn date_string(d: &CalendarDate) -> (r: String)
    requires
        valid_date(*d),
    ensures
        r@ == date_chars(*d),
{
    proof {
        reveal_strlit("-");
    }
    let mut s = String::new();
    append_pad4(&mut s, d.year as u64);
    s.append("-");
    append_pad2(&mut s, d.month as u64);
    s.append("-");
    append_pad2(&mut s, d.day as u64);
    proof {
        assert(s@ =~= date_chars(*d));
    }
    s
}

/// Strict lexicographic order on character sequences, by code point — the
/// order in which date strings are presented.
pub open spec fn lex_lt(a: Seq<char>, b: Seq<char>) -> bool
    decreases a.len(),
{
    if b.len() == 0 {
        false
    } else if a.len() == 0 {
        true
    } else if a[0] != b[0] {
        (a[0] as int) < (b[0] as int)
    } else {
        lex_lt(a.drop_first(), b.drop_first())
    }
}

/// No sequence is lexicographically below itself.
pub proof fn lemma_lex_irreflexive(a: Seq<char>)
    ensures
        !lex_lt(a, a),
    decreases a.len(),
{
    if a.len() > 0 {
        lemma_lex_irreflexive(a.drop_first());
    }
}

/// Lexicographic order is asymmetric.
pub proof fn lemma_lex_asymmetric(a: Seq<char>, b: Seq<char>)
    requires
        lex_lt(a, b),
    ensures
        !lex_lt(b, a),
    decreases a.len(),
{
    if a.len() > 0 && b.len() > 0 && a[0] == b[0] {
        lemma_lex_asymmetric(a.drop_first(), b.drop_first());
    }
}

/// Dropping one shared prefix does not change the comparison.
pub proof fn lemma_lex_same_prefix(p: Seq<char>, t1: Seq<char>, t2: Seq<char>)
    ensures
        lex_lt(p + t1, p + t2) <==> lex_lt(t1, t2),
    decreases p.len(),
{
    if p.len() == 0 {
        assert(p + t1 =~= t1);
        assert(p + t2 =~= t2);
    } else {
        let a = p + t1;
        let b = p + t2;
        assert(a[0] == b[0]);
        assert(a.drop_first() =~= p.drop_first() + t1);
        assert(b.drop_first() =~= p.drop_first() + t2);
        lemma_lex_same_prefix(p.drop_first(), t1, t2);
    }
}

/// Prefixes of one length that already compare strictly decide the
/// comparison, whatever follows them.
pub proof fn lemma_lex_strict_prefix(p1: Seq<char>, p2: Seq<char>, t1: Seq<char>, t2: Seq<char>)
    requires
        p1.len() == p2.len(),
        lex_lt(p1, p2),
    ensures
        lex_lt(p1 + t1, p2 + t2),
    decreases p1.len(),
{
    let a = p1 + t1;
    let b = p2 + t2;
    assert(p1.len() > 0);
    if p1[0] != p2[0] {
        assert(a[0] == p1[0] && b[0] == p2[0]);
        assert(lex_lt(a, b));
    } else {
        assert(a[0] == b[0]);
        assert(a.drop_first() =~= p1.drop_first() + t1);
        assert(b.drop_first() =~= p2.drop_first() + t2);
        lemma_lex_strict_prefix(p1.drop_first(), p2.drop_first(), t1, t2);
    }
}

/// Digit characters order exactly as the digits they stand for.
proof fn lemma_digit_char_order(a: int, b: int)
    requires
        0 <= a <= 9,
        0 <= b <= 9,
    ensures
        ((digit_char(a) as int) < (digit_char(b) as int)) <==> a < b,
        (digit_char(a) == digit_char(b)) <==> a == b,
{
}

/// Two-digit zero-padded strings order as their values.
proof fn lemma_pad2_lex(m1: int, m2: int)
    requires
        0 <= m1 < 100,
        0 <= m2 < 100,
        m1 < m2,
    ensures
        lex_lt(dec_pad2(m1), dec_pad2(m2)),
{
    let a = dec_pad2(m1);
    let b = dec_pad2(m2);
    lemma_digit_char_order(m1 / 10, m2 / 10);
    lemma_digit_char_order(m1 % 10, m2 % 10);
    if m1 / 10 == m2 / 10 {
        assert(m1 % 10 < m2 % 10);
        assert(a[0] == b[0]);
        assert(a.drop_first() =~= seq![digit_char(m1 % 10)]);
        assert(b.drop_first() =~= seq![digit_char(m2 % 10)]);
        assert(lex_lt(a.drop_first(), b.drop_first()));
        assert(lex_lt(a, b));
    } else {
        assert(m1 / 10 < m2 / 10);
        assert(a[0] != b[0] && (a[0] as int) < (b[0] as int));
        assert(lex_lt(a, b));
    }
}

/// Four-digit zero-padded strings order as their values.
proof fn lemma_pad4_lex(n1: int, n2: int)
    requires
        0 <= n1 < 10000,
        0 <= n2 < 10000,
        n1 < n2,
    ensures
        lex_lt(dec_pad4(n1), dec_pad4(n2)),
{
    lemma_pad4_split(n1);
    lemma_pad4_split(n2);
    if n1 / 100 == n2 / 100 {
        assert(n1 % 100 < n2 % 100) by (nonlinear_arith)
            requires
                0 <= n1 < 10000,
                0 <= n2 < 10000,
                n1 < n2,
                n1 / 100 == n2 / 100,
        ;
        lemma_pad2_lex(n1 % 100, n2 % 100);
        lemma_lex_same_prefix(dec_pad2(n1 / 100), dec_pad2(n1 % 100), dec_pad2(n2 % 100));
    } else {
        assert(n1 / 100 < n2 / 100) by (nonlinear_arith)
            requires
                0 <= n1 < 10000,
                0 <= n2 < 10000,
                n1 < n2,
                n1 / 100 != n2 / 100,
        ;
        lemma_pad2_lex(n1 / 100, n2 / 100);
        lemma_lex_strict_prefix(
            dec_pad2(n1 / 100),
            dec_pad2(n2 / 100),
            dec_pad2(n1 % 100),
            dec_pad2(n2 % 100),
        );
    }
}

/// A four-digit field is its leading two digits followed by its trailing two.
proof fn lemma_pad4_split(n: int)
    requires
        0 <= n < 10000,
    ensures
        dec_pad4(n) == dec_pad2(n / 100) + dec_pad2(n % 100),
{
    assert((n / 100) / 10 == n / 1000 && (n / 100) % 10 == (n / 100) % 10 && (n % 100) / 10 == (n
        / 10) % 10 && (n % 100) % 10 == n % 10) by (nonlinear_arith)
        requires
            0 <= n < 10000,
    ;
    assert(dec_pad4(n) =~= dec_pad2(n / 100) + dec_pad2(n % 100));
}

/// Ascending lexicographic order of the fixed-width `YYYY-MM-DD` strings is
/// exactly chronological order of the days, and equal strings mean equal
/// days. This is what makes sorting groups by date string sound.
pub proof fn lemma_date_order_is_string_order(d1: CalendarDate, d2: CalendarDate)
    requires
        valid_date(d1),
        valid_date(d2),
    ensures
        (date_key(d1) < date_key(d2)) <==> lex_lt(date_chars(d1), date_chars(d2)),
        (date_key(d1) == date_key(d2)) <==> (date_chars(d1) == date_chars(d2)),
{
    if date_key(d1) < date_key(d2) {
        lemma_date_lt_implies_lex(d1, d2);
        lemma_lex_irreflexive(date_chars(d1));
    } else if date_key(d2) < date_key(d1) {
        lemma_date_lt_implies_lex(d2, d1);
        lemma_lex_asymmetric(date_chars(d2), date_chars(d1));
        lemma_lex_irreflexive(date_chars(d1));
    } else {
        lemma_date_key_injective(d1, d2);
        lemma_lex_irreflexive(date_chars(d1));
    }
}

/// An earlier day formats to a lexicographically smaller string.
proof fn lemma_date_lt_implies_lex(d1: CalendarDate, d2: CalendarDate)
    requires
        valid_date(d1),
        valid_date(d2),
        date_key(d1) < date_key(d2),
    ensures
        lex_lt(date_chars(d1), date_chars(d2)),
{
    let y1 = d1.year as int;
    let y2 = d2.year as int;
    let m1 = d1.month as int;
    let m2 = d2.month as int;
    let dy1 = d1.day as int;
    let dy2 = d2.day as int;
    if y1 != y2 {
        assert(y1 < y2);
        lemma_pad4_lex(y1, y2);
        lemma_lex_strict_prefix(
            dec_pad4(y1),
            dec_pad4(y2),
            seq!['-'] + dec_pad2(m1) + seq!['-'] + dec_pad2(dy1),
            seq!['-'] + dec_pad2(m2) + seq!['-'] + dec_pad2(dy2),
        );
        assert(date_chars(d1) =~= dec_pad4(y1) + (seq!['-'] + dec_pad2(m1) + seq!['-'] + dec_pad2(
            dy1,
        )));
        assert(date_chars(d2) =~= dec_pad4(y2) + (seq!['-'] + dec_pad2(m2) + seq!['-'] + dec_pad2(
            dy2,
        )));
    } else if m1 != m2 {
        assert(m1 < m2);
        let p = dec_pad4(y1) + seq!['-'];
        lemma_pad2_lex(m1, m2);
        lemma_lex_strict_prefix(
            dec_pad2(m1),
            dec_pad2(m2),
            seq!['-'] + dec_pad2(dy1),
            seq!['-'] + dec_pad2(dy2),
        );
        lemma_lex_same_prefix(
            p,
            dec_pad2(m1) + (seq!['-'] + dec_pad2(dy1)),
            dec_pad2(m2) + (seq!['-'] + dec_pad2(dy2)),
        );
        assert(date_chars(d1) =~= p + (dec_pad2(m1) + (seq!['-'] + dec_pad2(dy1))));
        assert(date_chars(d2) =~= p + (dec_pad2(m2) + (seq!['-'] + dec_pad2(dy2))));
    } else {
        assert(dy1 < dy2);
        let p = dec_pad4(y1) + seq!['-'] + dec_pad2(m1) + seq!['-'];
        lemma_pad2_lex(dy1, dy2);
        lemma_lex_same_prefix(p, dec_pad2(dy1), dec_pad2(dy2));
        assert(date_chars(d1) =~= p + dec_pad2(dy1));
        assert(date_chars(d2) =~= p + dec_pad2(dy2));
    }
}

} // verus!

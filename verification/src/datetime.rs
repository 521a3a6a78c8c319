//! SQL/JSON datetime items.

use vstd::prelude::*;
use crate::json::push_char;
use crate::text::{digit_char, nat_digits, padded_digits, push_nat_digits, push_padded_digits, digit_to_char};

verus! {

/// A calendar date.
#[derive(Debug, Clone, Copy, PartialEq, Eq, Structural)]
pub struct Date {
    pub year: i32,
    pub month: u32,
    pub day: u32,
}

/// A time of day, with nanoseconds.
#[derive(Debug, Clone, Copy, PartialEq, Eq, Structural)]
pub struct Time {
    pub hour: u32,
    pub minute: u32,
    pub second: u32,
    pub nano: u32,
}

/// A datetime item produced by the datetime methods.
#[derive(Debug, Clone, Copy, PartialEq, Eq, Structural)]
pub enum DateTimeValue {
    /// `date`
    Date(Date),
    /// `time without time zone`
    Time(Time),
    /// `time with time zone`: the time and its offset east of UTC in seconds.
    TimeTz(Time, i32),
    /// `timestamp without time zone`
    Timestamp(Date, Time),
    /// `timestamp with time zone`: the local date and time, the offset east of UTC in
    /// seconds, and the same instant as a UTC date and time.
    TimestampTz(Date, Time, i32, Date, Time),
}

/// The sort key of a date.
pub open spec fn date_key(d: Date) -> Seq<int> {
    seq![d.year as int, d.month as int, d.day as int]
}

/// The sort key of a time.
pub open spec fn time_key(t: Time) -> Seq<int> {
    seq![t.hour as int, t.minute as int, t.second as int, t.nano as int]
}

/// The sort key of a date and time.
pub open spec fn timestamp_key(d: Date, t: Time) -> Seq<int> {
    date_key(d) + time_key(t)
}

/// Nanoseconds since midnight.
pub open spec fn time_nanos(t: Time) -> int {
    (t.hour * 3600 + t.minute * 60 + t.second) * 1_000_000_000 + t.nano
}

/// The sort key of a time with time zone: the instant in UTC, then the offset west.
pub open spec fn time_tz_key(t: Time, offset: i32) -> Seq<int> {
    seq![time_nanos(t) - offset * 1_000_000_000, -(offset as int)]
}

/// Lexicographic order on integer sequences.
pub open spec fn lex_less(a: Seq<int>, b: Seq<int>) -> bool
    decreases a.len(),
{
    if a.len() == 0 || b.len() == 0 {
        a.len() < b.len()
    } else if a[0] != b[0] {
        a[0] < b[0]
    } else {
        lex_less(a.drop_first(), b.drop_first())
    }
}

/// The sort keys of two datetime items, when they are comparable.
pub open spec fn datetime_keys(a: DateTimeValue, b: DateTimeValue) -> Option<(Seq<int>, Seq<int>)> {
    let midnight = Time { hour: 0, minute: 0, second: 0, nano: 0 };
    match (a, b) {
        (DateTimeValue::Date(x), DateTimeValue::Date(y)) => Some((date_key(x), date_key(y))),
        (DateTimeValue::Time(x), DateTimeValue::Time(y)) => Some((time_key(x), time_key(y))),
        (DateTimeValue::TimeTz(x, ox), DateTimeValue::TimeTz(y, oy)) => Some((time_tz_key(x, ox), time_tz_key(y, oy))),
        (DateTimeValue::Timestamp(dx, tx), DateTimeValue::Timestamp(dy, ty)) => Some(
            (timestamp_key(dx, tx), timestamp_key(dy, ty)),
        ),
        (DateTimeValue::TimestampTz(_, _, _, ux, vx), DateTimeValue::TimestampTz(_, _, _, uy, vy)) => Some(
            (timestamp_key(ux, vx), timestamp_key(uy, vy)),
        ),
        (DateTimeValue::Date(x), DateTimeValue::Timestamp(dy, ty)) => Some(
            (timestamp_key(x, midnight), timestamp_key(dy, ty)),
        ),
        (DateTimeValue::Timestamp(dx, tx), DateTimeValue::Date(y)) => Some(
            (timestamp_key(dx, tx), timestamp_key(y, midnight)),
        ),
        _ => None,
    }
}

/// Lexicographic order of two key arrays.
fn keys_less(a: &Vec<i64>, b: &Vec<i64>) -> (r: bool)
    requires
        a.len() == b.len(),
    ensures
        r == lex_less(a@.map_values(|x: i64| x as int), b@.map_values(|x: i64| x as int)),
{
    let n = a.len();
    let ghost ka = a@.map_values(|x: i64| x as int);
    let ghost kb = b@.map_values(|x: i64| x as int);
    let mut i: usize = 0;
    assert(ka.skip(0) =~= ka);
    assert(kb.skip(0) =~= kb);
    while i < n
        invariant
            n == a.len() == b.len(),
            ka == a@.map_values(|x: i64| x as int),
            kb == b@.map_values(|x: i64| x as int),
            i <= n,
            lex_less(ka, kb) == lex_less(ka.skip(i as int), kb.skip(i as int)),
        decreases n - i,
    {
        assert(ka.skip(i as int).drop_first() =~= ka.skip(i + 1));
        assert(kb.skip(i as int).drop_first() =~= kb.skip(i + 1));
        if a[i] != b[i] {
            return a[i] < b[i];
        }
        i = i + 1;
    }
    assert(ka.skip(n as int).len() == 0);
    false
}


/// A number written with at least two digits (`{:02}`).
pub open spec fn pad2(n: nat) -> Seq<char> {
    if n < 10 {
        seq!['0', digit_char(n)]
    } else {
        nat_digits(n)
    }
}

/// The year as `%Y` writes it: four digits, with a sign outside `0..=9999`.
pub open spec fn year_text(y: int) -> Seq<char> {
    if 0 <= y <= 9999 {
        padded_digits(y as nat, 4)
    } else {
        let a: nat = if y < 0 { (-y) as nat } else { y as nat };
        (if y < 0 { seq!['-'] } else { seq!['+'] }) + (if a < 10000 { padded_digits(a, 4) } else { nat_digits(a) })
    }
}

/// A date as `%Y-%m-%d`.
pub open spec fn date_text(d: Date) -> Seq<char> {
    year_text(d.year as int) + seq!['-'] + pad2(d.month as nat) + seq!['-'] + pad2(d.day as nat)
}

/// The fraction of a second as `%.f`: nothing, or a point with 3, 6 or 9 digits.
pub open spec fn frac_text(nano: nat) -> Seq<char> {
    let n = nano % 1_000_000_000;
    if n == 0 {
        Seq::empty()
    } else if n % 1_000_000 == 0 {
        seq!['.'] + padded_digits(n / 1_000_000, 3)
    } else if n % 1_000 == 0 {
        seq!['.'] + padded_digits(n / 1_000, 6)
    } else {
        seq!['.'] + padded_digits(n, 9)
    }
}

/// A time as `%H:%M:%S%.f` (a leap second shows as second 60).
pub open spec fn time_text(t: Time) -> Seq<char> {
    pad2(t.hour as nat) + seq![':'] + pad2(t.minute as nat) + seq![':'] + pad2(
        (t.second + t.nano / 1_000_000_000) as nat,
    ) + frac_text(t.nano as nat)
}

/// An offset as `+HH:MM`, with `:SS` when it has seconds.
pub open spec fn offset_text(off: int) -> Seq<char> {
    let a: nat = if off < 0 { (-off) as nat } else { off as nat };
    let sign = if off < 0 { seq!['-'] } else { seq!['+'] };
    let sec = a % 60;
    let mins = a / 60;
    sign + pad2(mins / 60) + seq![':'] + pad2(mins % 60) + (if sec == 0 { Seq::empty() } else { seq![':'] + pad2(sec) })
}

/// An offset as `%:z`: `+HH:MM`, rounded to the nearest minute.
pub open spec fn offset_minutes_text(off: int) -> Seq<char> {
    let a: nat = if off < 0 { (-off) as nat } else { off as nat };
    let sign = if off < 0 { seq!['-'] } else { seq!['+'] };
    let minutes = (a + 30) / 60;
    sign + pad2(minutes / 60) + seq![':'] + pad2(minutes % 60)
}

/// The ISO 8601 text of a datetime item.
pub open spec fn iso_text(v: DateTimeValue) -> Seq<char> {
    match v {
        DateTimeValue::Date(d) => date_text(d),
        DateTimeValue::Time(t) => time_text(t),
        DateTimeValue::TimeTz(t, off) => time_text(t) + offset_text(off as int),
        DateTimeValue::Timestamp(d, t) => date_text(d) + seq!['T'] + time_text(t),
        DateTimeValue::TimestampTz(d, t, off, _, _) => date_text(d) + seq!['T'] + time_text(t)
            + offset_minutes_text(off as int),
    }
}

/// The SQL/JSON type name of a datetime item.
pub open spec fn type_name_text(v: DateTimeValue) -> Seq<char> {
    match v {
        DateTimeValue::Date(_) => "date"@,
        DateTimeValue::Time(_) => "time without time zone"@,
        DateTimeValue::TimeTz(_, _) => "time with time zone"@,
        DateTimeValue::Timestamp(_, _) => "timestamp without time zone"@,
        DateTimeValue::TimestampTz(_, _, _, _, _) => "timestamp with time zone"@,
    }
}

/// Appends a number with at least two digits.
fn push_pad2(n: u64, out: &mut String)
    ensures
        final(out)@ == old(out)@ + pad2(n as nat),
{
    if n < 10 {
        push_char(out, '0');
        push_char(out, digit_to_char(n));
    } else {
        push_nat_digits(n as u128, out);
    }
    assert(final(out)@ =~= old(out)@ + pad2(n as nat));
}

/// Appends the text of a year.
fn push_year(y: i32, out: &mut String)
    ensures
        final(out)@ == old(out)@ + year_text(y as int),
{
    if 0 <= y && y <= 9999 {
        push_padded_digits(y as u128, 4, out);
    } else {
        let a: u64 = if y < 0 { (-(y as i64)) as u64 } else { y as u64 };
        if y < 0 {
            push_char(out, '-');
        } else {
            push_char(out, '+');
        }
        if a < 10000 {
            push_padded_digits(a as u128, 4, out);
        } else {
            push_nat_digits(a as u128, out);
        }
    }
    assert(final(out)@ =~= old(out)@ + year_text(y as int));
}

/// Appends the text of a date.
pub fn push_date(d: &Date, out: &mut String)
    ensures
        final(out)@ == old(out)@ + date_text(*d),
{
    push_year(d.year, out);
    push_char(out, '-');
    push_pad2(d.month as u64, out);
    push_char(out, '-');
    push_pad2(d.day as u64, out);
    assert(final(out)@ =~= old(out)@ + date_text(*d));
}

/// Appends the fraction of a second.
fn push_frac(nano: u32, out: &mut String)
    ensures
        final(out)@ == old(out)@ + frac_text(nano as nat),
{
    let n = nano % 1_000_000_000;
    if n == 0 {
    } else if n % 1_000_000 == 0 {
        push_char(out, '.');
        push_padded_digits((n / 1_000_000) as u128, 3, out);
    } else if n % 1_000 == 0 {
        push_char(out, '.');
        push_padded_digits((n / 1_000) as u128, 6, out);
    } else {
        push_char(out, '.');
        push_padded_digits(n as u128, 9, out);
    }
    assert(final(out)@ =~= old(out)@ + frac_text(nano as nat));
}

/// Appends the text of a time.
pub fn push_time(t: &Time, out: &mut String)
    ensures
        final(out)@ == old(out)@ + time_text(*t),
{
    push_pad2(t.hour as u64, out);
    push_char(out, ':');
    push_pad2(t.minute as u64, out);
    push_char(out, ':');
    push_pad2(t.second as u64 + (t.nano / 1_000_000_000) as u64, out);
    push_frac(t.nano, out);
    assert(final(out)@ =~= old(out)@ + time_text(*t));
}

/// Appends an offset as `+HH:MM[:SS]`.
fn push_offset(off: i32, out: &mut String)
    ensures
        final(out)@ == old(out)@ + offset_text(off as int),
{
    let a: u64 = if off < 0 { (-(off as i64)) as u64 } else { off as u64 };
    if off < 0 {
        push_char(out, '-');
    } else {
        push_char(out, '+');
    }
    let sec = a % 60;
    let mins = a / 60;
    push_pad2(mins / 60, out);
    push_char(out, ':');
    push_pad2(mins % 60, out);
    if sec != 0 {
        push_char(out, ':');
        push_pad2(sec, out);
    }
    assert(final(out)@ =~= old(out)@ + offset_text(off as int));
}

/// Appends an offset as `+HH:MM`, rounded to the minute.
fn push_offset_minutes(off: i32, out: &mut String)
    ensures
        final(out)@ == old(out)@ + offset_minutes_text(off as int),
{
    let a: u64 = if off < 0 { (-(off as i64)) as u64 } else { off as u64 };
    if off < 0 {
        push_char(out, '-');
    } else {
        push_char(out, '+');
    }
    let minutes = (a + 30) / 60;
    push_pad2(minutes / 60, out);
    push_char(out, ':');
    push_pad2(minutes % 60, out);
    assert(final(out)@ =~= old(out)@ + offset_minutes_text(off as int));
}

impl DateTimeValue {
    /// The ISO 8601 text of the item.
    pub fn to_iso_string(&self) -> (r: String)
        ensures
            r@ == iso_text(*self),
    {
        let mut s = String::new();
        match self {
            DateTimeValue::Date(d) => push_date(d, &mut s),
            DateTimeValue::Time(t) => push_time(t, &mut s),
            DateTimeValue::TimeTz(t, off) => {
                push_time(t, &mut s);
                push_offset(*off, &mut s);
            },
            DateTimeValue::Timestamp(d, t) => {
                push_date(d, &mut s);
                push_char(&mut s, 'T');
                push_time(t, &mut s);
            },
            DateTimeValue::TimestampTz(d, t, off, _, _) => {
                push_date(d, &mut s);
                push_char(&mut s, 'T');
                push_time(t, &mut s);
                push_offset_minutes(*off, &mut s);
            },
        }
        assert(s@ =~= iso_text(*self));
        s
    }

    /// The SQL/JSON type name of the item.
    pub fn type_label(&self) -> (r: &'static str)
        ensures
            r@ == type_name_text(*self),
    {
        match self {
            DateTimeValue::Date(_) => "date",
            DateTimeValue::Time(_) => "time without time zone",
            DateTimeValue::TimeTz(_, _) => "time with time zone",
            DateTimeValue::Timestamp(_, _) => "timestamp without time zone",
            DateTimeValue::TimestampTz(_, _, _, _, _) => "timestamp with time zone",
        }
    }
}

} // verus!

//! Reading SQL/JSON datetime items from ISO 8601 text, with `chrono` parsing the fields.

use vstd::prelude::*;
use chrono::{Datelike, TimeZone, Timelike};
use crate::datetime::{Date, DateTimeValue, Time};
use crate::json::{chars_of, string_of};
use crate::strings::{trim, trim_end, trim_chars, sub_chars, int_in_range, parse_int_in_range};

verus! {

/// What `chrono::NaiveDate::parse_from_str(s, fmt)` gives: year, month and day.
pub uninterp spec fn chrono_parse_date(s: Seq<char>, fmt: Seq<char>) -> Option<(i32, u32, u32)>;

/// What `chrono::NaiveDateTime::parse_from_str(s, fmt)` gives: year, month, day, hour,
/// minute, second and nanosecond.
pub uninterp spec fn chrono_parse_datetime(s: Seq<char>, fmt: Seq<char>) -> Option<
    (i32, u32, u32, u32, u32, u32, u32),
>;

/// What `chrono::NaiveTime::parse_from_str(s, fmt)` gives: hour, minute, second and nanosecond.
pub uninterp spec fn chrono_parse_time(s: Seq<char>, fmt: Seq<char>) -> Option<(u32, u32, u32, u32)>;

/// What `chrono::TimeZone::from_local_datetime` of a fixed offset (east of UTC, in seconds)
/// gives for a local date and time, as a single UTC date and time.
pub uninterp spec fn chrono_local_to_utc(
    year: i32,
    month: u32,
    day: u32,
    hour: u32,
    minute: u32,
    second: u32,
    nano: u32,
    offset: i32,
) -> Option<(i32, u32, u32, u32, u32, u32, u32)>;

/// Calls `chrono::NaiveDate::parse_from_str`; the fields of the date are named by
/// [`chrono_parse_date`].
#[verifier::external_body]
fn parse_date_fields(s: &str, fmt: &str) -> (r: Option<(i32, u32, u32)>)
    ensures
        r == chrono_parse_date(s@, fmt@),
{
    match chrono::NaiveDate::parse_from_str(s, fmt) {
        Ok(d) => Some((d.year(), d.month(), d.day())),
        Err(_) => None,
    }
}

/// Calls `chrono::NaiveDateTime::parse_from_str`; the fields are named by
/// [`chrono_parse_datetime`].
#[verifier::external_body]
fn parse_datetime_fields(s: &str, fmt: &str) -> (r: Option<(i32, u32, u32, u32, u32, u32, u32)>)
    ensures
        r == chrono_parse_datetime(s@, fmt@),
{
    match chrono::NaiveDateTime::parse_from_str(s, fmt) {
        Ok(v) => Some((v.year(), v.month(), v.day(), v.hour(), v.minute(), v.second(), v.nanosecond())),
        Err(_) => None,
    }
}

/// Calls `chrono::NaiveTime::parse_from_str`; the fields are named by [`chrono_parse_time`].
#[verifier::external_body]
fn parse_time_fields(s: &str, fmt: &str) -> (r: Option<(u32, u32, u32, u32)>)
    ensures
        r == chrono_parse_time(s@, fmt@),
{
    match chrono::NaiveTime::parse_from_str(s, fmt) {
        Ok(t) => Some((t.hour(), t.minute(), t.second(), t.nanosecond())),
        Err(_) => None,
    }
}

/// Calls `chrono::TimeZone::from_local_datetime` on the fixed offset `offset` (seconds east
/// of UTC) and the local date and time, and reads back the UTC date and time of the single
/// result; named by [`chrono_local_to_utc`]. The date, time and offset are rebuilt with
/// `NaiveDate::from_ymd_opt`, `and_hms_nano_opt` and `FixedOffset::east_opt`.
#[verifier::external_body]
fn local_to_utc_fields(
    year: i32,
    month: u32,
    day: u32,
    hour: u32,
    minute: u32,
    second: u32,
    nano: u32,
    offset: i32,
) -> (r: Option<(i32, u32, u32, u32, u32, u32, u32)>)
    ensures
        r == chrono_local_to_utc(year, month, day, hour, minute, second, nano, offset),
{
    let local = chrono::NaiveDate::from_ymd_opt(year, month, day)?.and_hms_nano_opt(hour, minute, second, nano)?;
    let off = chrono::FixedOffset::east_opt(offset)?;
    let u = off.from_local_datetime(&local).single()?.naive_utc();
    Some((u.year(), u.month(), u.day(), u.hour(), u.minute(), u.second(), u.nanosecond()))
}

/// The kind of datetime item a method asks for.
#[derive(Debug, Clone, Copy, PartialEq, Eq, Structural)]
pub enum DateTimeKind {
    Date,
    Time,
    TimeTz,
    Timestamp,
    TimestampTz,
}

/// Whether a fixed offset of this many seconds exists (`chrono::FixedOffset::east_opt`).
pub open spec fn offset_in_range(secs: int) -> bool {
    -86_400 < secs < 86_400
}

/// The position of the last sign (`+` or `-`) in `s[1..k]`.
pub open spec fn last_sign_before(s: Seq<char>, k: nat) -> Option<nat>
    decreases k,
{
    if k <= 1 || k > s.len() {
        None
    } else if s[k - 1] == '+' || s[k - 1] == '-' {
        Some((k - 1) as nat)
    } else {
        last_sign_before(s, (k - 1) as nat)
    }
}

/// The position of the first `:`.
pub open spec fn first_colon(s: Seq<char>) -> Option<nat>
    decreases s.len(),
{
    if s.len() == 0 {
        None
    } else if s[0] == ':' {
        Some(0)
    } else {
        match first_colon(s.drop_first()) {
            Some(i) => Some(i + 1),
            None => None,
        }
    }
}

/// The hour and minute fields of an offset written after its sign, as `h[:m]`;
/// `None` when there are more fields or a field is not a 32-bit integer.
pub open spec fn offset_fields(rest: Seq<char>) -> Option<(int, int)> {
    match first_colon(rest) {
        None => match int_in_range(rest, i32::MIN as int, i32::MAX as int) {
            Some(h) => Some((h, 0)),
            None => None,
        },
        Some(i) => {
            let r2 = rest.subrange(i as int + 1, rest.len() as int);
            if first_colon(r2) is Some {
                None
            } else {
                match (
                    int_in_range(rest.subrange(0, i as int), i32::MIN as int, i32::MAX as int),
                    int_in_range(r2, i32::MIN as int, i32::MAX as int),
                ) {
                    (Some(h), Some(m)) => Some((h, m)),
                    _ => None,
                }
            }
        },
    }
}

/// Splits a trailing time zone off a text: `Z` (when the rest has a `:`), or a sign after
/// the first character followed by `h[:m]`; gives the rest and the offset east of UTC in
/// seconds.
pub open spec fn split_time_zone(input: Seq<char>) -> Option<(Seq<char>, int)> {
    let zulu = input.len() > 0 && (input.last() == 'Z' || input.last() == 'z');
    let zvalue = trim_end(input.drop_last());
    if zulu && zvalue.contains(':') {
        Some((zvalue, 0))
    } else {
        match last_sign_before(input, input.len()) {
            None => None,
            Some(index) => {
                let value = trim_end(input.subrange(0, index as int));
                let offset = trim(input.subrange(index as int, input.len() as int));
                if !value.contains(':') || offset.len() == 0 {
                    None
                } else {
                    let sign = if offset[0] == '-' { -1int } else { 1int };
                    match offset_fields(offset.drop_first()) {
                        Some((h, m)) => {
                            let secs = sign * (h * 3600 + m * 60);
                            if h > 23 || m > 59 || !offset_in_range(secs) {
                                None
                            } else {
                                Some((value, secs))
                            }
                        },
                        None => None,
                    }
                }
            },
        }
    }
}

/// A date from its fields.
pub open spec fn date_of(f: (i32, u32, u32)) -> Date {
    Date { year: f.0, month: f.1, day: f.2 }
}

/// A time from its fields.
pub open spec fn time_of(f: (u32, u32, u32, u32)) -> Time {
    Time { hour: f.0, minute: f.1, second: f.2, nano: f.3 }
}

/// A naive timestamp as `%Y-%m-%dT%H:%M:%S%.f` or `%Y-%m-%d %H:%M:%S%.f`.
pub open spec fn naive_timestamp(input: Seq<char>) -> Option<(i32, u32, u32, u32, u32, u32, u32)> {
    let t = trim(input);
    match chrono_parse_datetime(t, "%Y-%m-%dT%H:%M:%S%.f"@) {
        Some(v) => Some(v),
        None => chrono_parse_datetime(t, "%Y-%m-%d %H:%M:%S%.f"@),
    }
}

/// A naive time as `%H:%M:%S%.f`.
pub open spec fn naive_time(input: Seq<char>) -> Option<(u32, u32, u32, u32)> {
    chrono_parse_time(trim(input), "%H:%M:%S%.f"@)
}

/// The date of a timestamp's fields.
pub open spec fn ts_date(v: (i32, u32, u32, u32, u32, u32, u32)) -> Date {
    Date { year: v.0, month: v.1, day: v.2 }
}

/// The time of a timestamp's fields.
pub open spec fn ts_time(v: (i32, u32, u32, u32, u32, u32, u32)) -> Time {
    Time { hour: v.3, minute: v.4, second: v.5, nano: v.6 }
}

/// The datetime item written in an ISO 8601 text, of whichever kind the text has:
/// a date, a timestamp or a time, each with or without a time zone.
pub open spec fn parse_iso(s: Seq<char>) -> Option<DateTimeValue> {
    let input = trim(s);
    match chrono_parse_date(input, "%Y-%m-%d"@) {
        Some(d) => Some(DateTimeValue::Date(date_of(d))),
        None => {
            let zoned: Option<Option<DateTimeValue>> = match split_time_zone(input) {
                Some((value, off)) => match naive_timestamp(value) {
                    Some(v) => Some(
                        match chrono_local_to_utc(v.0, v.1, v.2, v.3, v.4, v.5, v.6, off as i32) {
                            Some(u) => Some(
                                DateTimeValue::TimestampTz(ts_date(v), ts_time(v), off as i32, ts_date(u), ts_time(u)),
                            ),
                            None => None,
                        },
                    ),
                    None => match naive_time(value) {
                        Some(t) => Some(Some(DateTimeValue::TimeTz(time_of(t), off as i32))),
                        None => None,
                    },
                },
                None => None,
            };
            match zoned {
                Some(r) => r,
                None => match naive_timestamp(input) {
                    Some(v) => Some(DateTimeValue::Timestamp(ts_date(v), ts_time(v))),
                    None => match naive_time(input) {
                        Some(t) => Some(DateTimeValue::Time(time_of(t))),
                        None => None,
                    },
                },
            }
        },
    }
}

/// The datetime item of the asked kind written in a text: a timestamp gives its date or
/// its time, a date gives a timestamp at midnight, a timestamp with time zone gives its
/// time with time zone.
pub open spec fn parse_datetime(s: Seq<char>, kind: DateTimeKind) -> Option<DateTimeValue> {
    let midnight = Time { hour: 0, minute: 0, second: 0, nano: 0 };
    match (kind, parse_iso(s)) {
        (DateTimeKind::Date, Some(DateTimeValue::Date(d))) => Some(DateTimeValue::Date(d)),
        (DateTimeKind::Date, Some(DateTimeValue::Timestamp(d, _))) => Some(DateTimeValue::Date(d)),
        (DateTimeKind::Time, Some(DateTimeValue::Time(t))) => Some(DateTimeValue::Time(t)),
        (DateTimeKind::Time, Some(DateTimeValue::Timestamp(_, t))) => Some(DateTimeValue::Time(t)),
        (DateTimeKind::TimeTz, Some(DateTimeValue::TimeTz(t, o))) => Some(DateTimeValue::TimeTz(t, o)),
        (DateTimeKind::TimeTz, Some(DateTimeValue::TimestampTz(_, t, o, _, _))) => Some(DateTimeValue::TimeTz(t, o)),
        (DateTimeKind::Timestamp, Some(DateTimeValue::Date(d))) => Some(DateTimeValue::Timestamp(d, midnight)),
        (DateTimeKind::Timestamp, Some(DateTimeValue::Timestamp(d, t))) => Some(DateTimeValue::Timestamp(d, t)),
        (DateTimeKind::TimestampTz, Some(DateTimeValue::TimestampTz(d, t, o, ud, ut))) => Some(
            DateTimeValue::TimestampTz(d, t, o, ud, ut),
        ),
        _ => None,
    }
}

/// Whether a character sequence holds a character.
fn has_char(s: &Vec<char>, c: char) -> (b: bool)
    ensures
        b == s@.contains(c),
{
    let mut i: usize = 0;
    while i < s.len()
        invariant
            i <= s.len(),
            forall|j: int| 0 <= j < i ==> s@[j] != c,
        decreases s.len() - i,
    {
        if s[i] == c {
            return true;
        }
        i = i + 1;
    }
    false
}

/// The characters without trailing white space.
fn trim_end_chars(s: &Vec<char>) -> (r: Vec<char>)
    ensures
        r@ == trim_end(s@),
{
    let mut j = s.len();
    assert(s@.subrange(0, s@.len() as int) =~= s@);
    while j > 0 && crate::strings::is_white_space(s[j - 1])
        invariant
            j <= s.len(),
            trim_end(s@) == trim_end(s@.subrange(0, j as int)),
        decreases j,
    {
        assert(s@.subrange(0, j as int).drop_last() =~= s@.subrange(0, j - 1));
        j = j - 1;
    }
    sub_chars(s, 0, j)
}

/// Exec counterpart of [`last_sign_before`] for the whole sequence.
fn last_sign(s: &Vec<char>) -> (r: Option<usize>)
    ensures
        match r {
            Some(i) => last_sign_before(s@, s@.len()) == Some(i as nat) && 0 < i < s.len(),
            None => last_sign_before(s@, s@.len()) is None,
        },
{
    let mut k = s.len();
    while k > 1
        invariant
            k <= s.len(),
            last_sign_before(s@, s@.len()) == last_sign_before(s@, k as nat),
        decreases k,
    {
        if s[k - 1] == '+' || s[k - 1] == '-' {
            return Some(k - 1);
        }
        k = k - 1;
    }
    None
}

/// Exec counterpart of [`first_colon`].
fn find_colon(s: &Vec<char>, from: usize) -> (r: Option<usize>)
    requires
        from <= s.len(),
    ensures
        match r {
            Some(i) => first_colon(s@.subrange(from as int, s@.len() as int)) == Some((i - from) as nat) && from <= i
                < s.len(),
            None => first_colon(s@.subrange(from as int, s@.len() as int)) is None,
        },
{
    let mut i = from;
    while i < s.len()
        invariant
            from <= i <= s.len(),
            forall|j: int| from <= j < i ==> s@[j] != ':',
        decreases s.len() - i,
    {
        if s[i] == ':' {
            proof {
                lemma_first_colon(s@, from as nat, i as nat);
            }
            return Some(i);
        }
        i = i + 1;
    }
    proof {
        lemma_no_colon(s@.subrange(from as int, s@.len() as int));
    }
    None
}

proof fn lemma_first_colon(s: Seq<char>, from: nat, i: nat)
    requires
        from <= i < s.len(),
        s[i as int] == ':',
        forall|j: int| from <= j < i ==> s[j] != ':',
    ensures
        first_colon(s.subrange(from as int, s.len() as int)) == Some((i - from) as nat),
    decreases i - from,
{
    if from < i {
        lemma_first_colon(s, from + 1, i);
        assert(s.subrange(from as int, s.len() as int).drop_first() =~= s.subrange(from as int + 1, s.len() as int));
    }
}

proof fn lemma_no_colon(s: Seq<char>)
    requires
        forall|j: int| 0 <= j < s.len() ==> s[j] != ':',
    ensures
        first_colon(s) is None,
    decreases s.len(),
{
    if s.len() > 0 {
        lemma_no_colon(s.drop_first());
    }
}

/// Exec counterpart of [`offset_fields`] on `s[from..]`.
fn read_offset_fields(s: &Vec<char>, from: usize) -> (r: Option<(i64, i64)>)
    requires
        from <= s.len(),
    ensures
        match r {
            Some((h, m)) => offset_fields(s@.subrange(from as int, s@.len() as int)) == Some((h as int, m as int)),
            None => offset_fields(s@.subrange(from as int, s@.len() as int)) is None,
        },
{
    let ghost rest = s@.subrange(from as int, s@.len() as int);
    match find_colon(s, from) {
        None => {
            let t = sub_chars(s, from, s.len());
            match parse_int_in_range(&t, i32::MIN as i64, i32::MAX as i64) {
                Some(h) => Some((h, 0)),
                None => None,
            }
        },
        Some(i) => {
            assert(rest.subrange((i - from) + 1, rest.len() as int) =~= s@.subrange(i + 1, s@.len() as int));
            assert(rest.subrange(0, (i - from) as int) =~= s@.subrange(from as int, i as int));
            match find_colon(s, i + 1) {
                Some(_) => None,
                None => {
                    let ht = sub_chars(s, from, i);
                    let mt = sub_chars(s, i + 1, s.len());
                    match (
                        parse_int_in_range(&ht, i32::MIN as i64, i32::MAX as i64),
                        parse_int_in_range(&mt, i32::MIN as i64, i32::MAX as i64),
                    ) {
                        (Some(h), Some(m)) => Some((h, m)),
                        _ => None,
                    }
                },
            }
        },
    }
}

/// Exec counterpart of [`split_time_zone`].
fn split_zone(input: &Vec<char>) -> (r: Option<(Vec<char>, i32)>)
    ensures
        match r {
            Some((v, off)) => split_time_zone(input@) == Some((v@, off as int)),
            None => split_time_zone(input@) is None,
        },
{
    let n = input.len();
    if n > 0 && (input[n - 1] == 'Z' || input[n - 1] == 'z') {
        let head = sub_chars(input, 0, n - 1);
        assert(head@ =~= input@.drop_last());
        let zvalue = trim_end_chars(&head);
        if has_char(&zvalue, ':') {
            return Some((zvalue, 0));
        }
    }
    match last_sign(input) {
        None => None,
        Some(index) => {
            let head = sub_chars(input, 0, index);
            let value = trim_end_chars(&head);
            let tail = sub_chars(input, index, n);
            let offset = trim_chars(&tail);
            if !has_char(&value, ':') || offset.len() == 0 {
                return None;
            }
            let sign: i64 = if offset[0] == '-' {
                -1
            } else {
                1
            };
            assert(offset@.subrange(1, offset@.len() as int) =~= offset@.drop_first());
            match read_offset_fields(&offset, 1) {
                Some((h, m)) => {
                    if h > 23 || m > 59 {
                        return None;
                    }
                    let secs: i64 = sign * (h * 3600 + m * 60);
                    if -86_400 < secs && secs < 86_400 {
                        Some((value, secs as i32))
                    } else {
                        None
                    }
                },
                None => None,
            }
        },
    }
}

/// Exec counterpart of [`naive_timestamp`].
fn read_naive_timestamp(input: &Vec<char>) -> (r: Option<(i32, u32, u32, u32, u32, u32, u32)>)
    ensures
        r == naive_timestamp(input@),
{
    let t = string_of(&trim_chars(input));
    match parse_datetime_fields(t.as_str(), "%Y-%m-%dT%H:%M:%S%.f") {
        Some(v) => Some(v),
        None => parse_datetime_fields(t.as_str(), "%Y-%m-%d %H:%M:%S%.f"),
    }
}

/// Exec counterpart of [`naive_time`].
fn read_naive_time(input: &Vec<char>) -> (r: Option<(u32, u32, u32, u32)>)
    ensures
        r == naive_time(input@),
{
    let t = string_of(&trim_chars(input));
    parse_time_fields(t.as_str(), "%H:%M:%S%.f")
}

/// Reads a datetime item of whichever kind an ISO 8601 text has.
pub fn read_iso(s: &str) -> (r: Option<DateTimeValue>)
    ensures
        r == parse_iso(s@),
{
    let input = trim_chars(&chars_of(s));
    let text = string_of(&input);
    if let Some((y, m, d)) = parse_date_fields(text.as_str(), "%Y-%m-%d") {
        return Some(DateTimeValue::Date(Date { year: y, month: m, day: d }));
    }
    if let Some((value, off)) = split_zone(&input) {
        if let Some(v) = read_naive_timestamp(&value) {
            return match local_to_utc_fields(v.0, v.1, v.2, v.3, v.4, v.5, v.6, off) {
                Some(u) => Some(
                    DateTimeValue::TimestampTz(
                        Date { year: v.0, month: v.1, day: v.2 },
                        Time { hour: v.3, minute: v.4, second: v.5, nano: v.6 },
                        off,
                        Date { year: u.0, month: u.1, day: u.2 },
                        Time { hour: u.3, minute: u.4, second: u.5, nano: u.6 },
                    ),
                ),
                None => None,
            };
        }
        if let Some(t) = read_naive_time(&value) {
            return Some(DateTimeValue::TimeTz(Time { hour: t.0, minute: t.1, second: t.2, nano: t.3 }, off));
        }
    }
    if let Some(v) = read_naive_timestamp(&input) {
        return Some(
            DateTimeValue::Timestamp(
                Date { year: v.0, month: v.1, day: v.2 },
                Time { hour: v.3, minute: v.4, second: v.5, nano: v.6 },
            ),
        );
    }
    match read_naive_time(&input) {
        Some(t) => Some(DateTimeValue::Time(Time { hour: t.0, minute: t.1, second: t.2, nano: t.3 })),
        None => None,
    }
}

/// Reads a datetime item of the asked kind (see [`parse_datetime`]).
pub fn read_datetime(s: &str, kind: DateTimeKind) -> (r: Option<DateTimeValue>)
    ensures
        r == parse_datetime(s@, kind),
{
    let midnight = Time { hour: 0, minute: 0, second: 0, nano: 0 };
    match (kind, read_iso(s)) {
        (DateTimeKind::Date, Some(DateTimeValue::Date(d))) => Some(DateTimeValue::Date(d)),
        (DateTimeKind::Date, Some(DateTimeValue::Timestamp(d, _))) => Some(DateTimeValue::Date(d)),
        (DateTimeKind::Time, Some(DateTimeValue::Time(t))) => Some(DateTimeValue::Time(t)),
        (DateTimeKind::Time, Some(DateTimeValue::Timestamp(_, t))) => Some(DateTimeValue::Time(t)),
        (DateTimeKind::TimeTz, Some(DateTimeValue::TimeTz(t, o))) => Some(DateTimeValue::TimeTz(t, o)),
        (DateTimeKind::TimeTz, Some(DateTimeValue::TimestampTz(_, t, o, _, _))) => Some(DateTimeValue::TimeTz(t, o)),
        (DateTimeKind::Timestamp, Some(DateTimeValue::Date(d))) => Some(DateTimeValue::Timestamp(d, midnight)),
        (DateTimeKind::Timestamp, Some(DateTimeValue::Timestamp(d, t))) => Some(DateTimeValue::Timestamp(d, t)),
        (DateTimeKind::TimestampTz, Some(DateTimeValue::TimestampTz(d, t, o, ud, ut))) => Some(
            DateTimeValue::TimestampTz(d, t, o, ud, ut),
        ),
        _ => None,
    }
}

} // verus!

//! Laws of the comparisons, methods and subscripts of single items: what each gives, stated
//! over its inputs.

use vstd::prelude::*;
use crate::ast::{ArrayIndex, CompareOp, Method, Predicate};
use crate::compare::{compare_items, ord_result};
use crate::datetime::{Date, DateTimeValue, Time, lex_less, timestamp_key, time_nanos, date_key, time_key};
use crate::ast::Expr;
use crate::truth::{Truth, truth_of};
use crate::dtparse::{DateTimeKind, parse_datetime};
use crate::compare::{compare_json, compare_product, product_from};
use crate::error::ErrorView;
use crate::item::SItem;
use crate::json::{Json, chars_less};
use crate::number::{Number, spec_num_round};
use crate::sem::{
    method_json, method_on, slice_step, index_step, elem_count, elem_at, sem_pred, Ctx, element_wildcard_result,
    member_wildcard_result, is_first, last_index, sem_expr, first_of,
};

verus! {

/// Whether `a` comes before `b` by its first differing character, compared by code point, or
/// is a proper prefix of `b`.
pub open spec fn first_difference_less(a: Seq<char>, b: Seq<char>) -> bool {
    ||| (a.len() < b.len() && b.subrange(0, a.len() as int) == a)
    ||| exists|k: int|
        0 <= k < a.len() && k < b.len() && a.subrange(0, k) == b.subrange(0, k) && (#[trigger] a[k] as u32) < (
        b[k] as u32)
}

/// The order of strings is the order of their first differing character by code point, and
/// a proper prefix comes before the longer string (as `str::cmp` orders them).
pub proof fn law_string_order(a: Seq<char>, b: Seq<char>)
    ensures
        chars_less(a, b) <==> first_difference_less(a, b),
    decreases a.len(),
{
    if a.len() == 0 || b.len() == 0 {
        if a.len() == 0 && b.len() > 0 {
            assert(b.subrange(0, 0) =~= a);
        }
        if first_difference_less(a, b) {
            if a.len() < b.len() {
            } else {
                let k = choose|k: int|
                    0 <= k < a.len() && k < b.len() && a.subrange(0, k) == b.subrange(0, k) && (#[trigger] a[k]
                        as u32) < (b[k] as u32);
            }
        }
    } else if a[0] != b[0] {
        if (a[0] as u32) < (b[0] as u32) {
            assert(a.subrange(0, 0) =~= b.subrange(0, 0));
            assert(first_difference_less(a, b));
        } else {
            if first_difference_less(a, b) {
                if a.len() < b.len() && b.subrange(0, a.len() as int) == a {
                    assert(b.subrange(0, a.len() as int)[0] == b[0]);
                } else {
                    let k = choose|k: int|
                        0 <= k < a.len() && k < b.len() && a.subrange(0, k) == b.subrange(0, k) && (
                        #[trigger] a[k] as u32) < (b[k] as u32);
                    if k > 0 {
                        assert(a.subrange(0, k)[0] == b.subrange(0, k)[0]);
                    }
                    assert(false);
                }
            }
        }
    } else {
        let a1 = a.drop_first();
        let b1 = b.drop_first();
        law_string_order(a1, b1);
        if first_difference_less(a1, b1) {
            if a1.len() < b1.len() && b1.subrange(0, a1.len() as int) == a1 {
                assert(b.subrange(0, a.len() as int) =~= seq![a[0]] + b1.subrange(0, a1.len() as int));
                assert(a =~= seq![a[0]] + a1);
            } else {
                let k = choose|k: int|
                    0 <= k < a1.len() && k < b1.len() && a1.subrange(0, k) == b1.subrange(0, k) && (
                    #[trigger] a1[k] as u32) < (b1[k] as u32);
                assert(a.subrange(0, k + 1) =~= seq![a[0]] + a1.subrange(0, k));
                assert(b.subrange(0, k + 1) =~= seq![b[0]] + b1.subrange(0, k));
                assert(a[k + 1] == a1[k]);
                assert(b[k + 1] == b1[k]);
            }
        }
        if first_difference_less(a, b) {
            if a.len() < b.len() && b.subrange(0, a.len() as int) == a {
                assert(b1.subrange(0, a1.len() as int) =~= b.subrange(0, a.len() as int).drop_first());
                assert(a1 =~= a.drop_first());
            } else {
                let k = choose|k: int|
                    0 <= k < a.len() && k < b.len() && a.subrange(0, k) == b.subrange(0, k) && (#[trigger] a[k]
                        as u32) < (b[k] as u32);
                assert(k > 0);
                assert(a1.subrange(0, k - 1) =~= a.subrange(0, k).drop_first());
                assert(b1.subrange(0, k - 1) =~= b.subrange(0, k).drop_first());
                assert(a1[k - 1] == a[k]);
                assert(b1[k - 1] == b[k]);
            }
        }
    }
}

/// A string comes before any longer string that it begins.
pub proof fn law_prefix_is_less(p: Seq<char>, t: Seq<char>)
    requires
        t.len() > 0,
    ensures
        chars_less(p, p + t),
        !chars_less(p + t, p),
{
    law_string_order(p, p + t);
    law_string_order(p + t, p);
    assert((p + t).subrange(0, p.len() as int) =~= p);
    if first_difference_less(p + t, p) {
        if (p + t).len() < p.len() {
        } else {
            let k = choose|k: int|
                0 <= k < (p + t).len() && k < p.len() && (p + t).subrange(0, k) == p.subrange(0, k) && (
                #[trigger] (p + t)[k] as u32) < (p[k] as u32);
            assert((p + t)[k] == p[k]);
        }
    }
}

/// `.boolean()` of a number whose rounded value fits 32 bits is true exactly when that value
/// is not zero; negative values give true.
pub proof fn law_boolean_of_number(n: Number, lax: bool)
    requires
        spec_num_round(n) matches Some(v) && i32::MIN <= v <= i32::MAX,
    ensures
        method_json(Method::Boolean, Json::Number(n), lax) == Ok::<Seq<SItem>, ErrorView>(
            seq![SItem::Json(Json::Bool(spec_num_round(n)->Some_0 != 0))],
        ),
        spec_num_round(n)->Some_0 < 0 ==> method_json(Method::Boolean, Json::Number(n), lax) == Ok::<
            Seq<SItem>,
            ErrorView,
        >(seq![SItem::Json(Json::Bool(true))]),
{
}

/// `.boolean()` of a 32-bit integer is true exactly when it is not zero.
pub proof fn law_boolean_of_integer(i: i64, lax: bool)
    requires
        i32::MIN <= i <= i32::MAX,
    ensures
        method_json(Method::Boolean, Json::Number(Number::Int(i)), lax) == Ok::<Seq<SItem>, ErrorView>(
            seq![SItem::Json(Json::Bool(i != 0))],
        ),
{
    let n = Number::Int(i);
    assert(crate::number::pow10(0) == 1);
    let m = crate::number::abs_int(i as int) as int;
    assert((2 * m + 1) / 2 == m);
    assert(spec_num_round(n) == Some(i));
}

/// `.size()` of an array is its length; of anything else it is 1 in lax mode and an error in
/// strict mode.
pub proof fn law_size(j: Json, lax: bool)
    ensures
        j is Array ==> method_json(Method::Size, j, lax) == Ok::<Seq<SItem>, ErrorView>(
            seq![SItem::Json(Json::Number(Number::Int(j->Array_0.len() as i64)))],
        ) || j->Array_0.len() > i64::MAX,
        !(j is Array) && lax ==> method_json(Method::Size, j, lax) == Ok::<Seq<SItem>, ErrorView>(
            seq![SItem::Json(Json::Number(Number::Int(1)))],
        ),
        !(j is Array) && !lax ==> method_json(Method::Size, j, lax) == Err::<Seq<SItem>, ErrorView>(
            ErrorView::SizeNotArray,
        ),
{
}

/// A slice `[b to e]` selects, in order, the elements whose index is at least `b` (at least 0)
/// and at most `e`, and below the number of elements: in lax mode always, with nothing
/// selected when no index is in that range; in strict mode only when `0 <= b <= e` and `e`
/// is the index of an element, and otherwise it is an error.
pub proof fn law_slice(t: Json, b: i64, e: i64, lax: bool)
    ensures
        ({
            let n = elem_count(t) as int;
            let lo: int = if b < 0 { 0 } else { b as int };
            let hi: int = if e + 1 < n { e + 1 } else { n };
            let len: nat = if hi > lo { (hi - lo) as nat } else { 0 };
            let r = slice_step(t, b, e, lax);
            &&& lax ==> r is Ok
            &&& !lax ==> (r is Ok <==> 0 <= b <= e < n)
            &&& r is Ok ==> r->Ok_0.len() == len
            &&& r is Ok ==> forall|k: int| 0 <= k < len ==> #[trigger] r->Ok_0[k] == SItem::Json(elem_at(t, lo + k))
            &&& r is Err ==> r == Err::<Seq<SItem>, ErrorView>(ErrorView::ArrayIndexOutOfBounds)
        }),
{
}

// The calendar, to say which instant a date and time denote.

/// Whether a year is a leap year of the proleptic Gregorian calendar.
pub open spec fn is_leap(y: int) -> bool {
    y % 4 == 0 && (y % 100 != 0 || y % 400 == 0)
}

/// The number of days of a month.
pub open spec fn month_len(y: int, m: int) -> int {
    if m == 2 {
        if is_leap(y) {
            29
        } else {
            28
        }
    } else if m == 4 || m == 6 || m == 9 || m == 11 {
        30
    } else {
        31
    }
}

/// The days of a year before the first of a month.
pub open spec fn days_before_month(y: int, m: int) -> int
    decreases m,
{
    if m <= 1 {
        0
    } else {
        days_before_month(y, m - 1) + month_len(y, m - 1)
    }
}

/// The days before the first of January of a year, counted from the first of January of year 1.
pub open spec fn days_before_year(y: int) -> int {
    let z = y - 1;
    365 * z + z / 4 - z / 100 + z / 400
}

/// The day number of a date.
pub open spec fn day_number(d: Date) -> int {
    days_before_year(d.year as int) + days_before_month(d.year as int, d.month as int) + d.day - 1
}

/// Whether a date exists in the calendar.
pub open spec fn date_valid(d: Date) -> bool {
    1 <= d.month <= 12 && 1 <= d.day <= month_len(d.year as int, d.month as int)
}

/// Whether a time of day is an ordinary one (no leap second).
pub open spec fn time_valid(t: Time) -> bool {
    t.hour < 24 && t.minute < 60 && t.second < 60 && t.nano < 1_000_000_000
}

/// The instant of a date and time, in nanoseconds.
pub open spec fn instant(d: Date, t: Time) -> int {
    day_number(d) * 86_400_000_000_000 + time_nanos(t)
}

/// The instant that a timestamp with time zone denotes: its local date and time less its
/// offset.
pub open spec fn tz_instant(v: DateTimeValue) -> int {
    match v {
        DateTimeValue::TimestampTz(ld, lt, off, _, _) => instant(ld, lt) - off * 1_000_000_000,
        _ => 0,
    }
}

/// Whether a timestamp with time zone is made of a real local date and time and holds, as its
/// UTC date and time, the instant that these less the offset denote.
pub open spec fn timestamp_tz_wf(v: DateTimeValue) -> bool {
    match v {
        DateTimeValue::TimestampTz(ld, lt, off, ud, ut) => date_valid(ld) && time_valid(lt) && date_valid(ud)
            && time_valid(ut) && instant(ud, ut) == instant(ld, lt) - off * 1_000_000_000,
        _ => false,
    }
}

/// Going one down from `y` lowers the quotient by `k` exactly when `k` divides `y`.
proof fn lemma_div_step(y: int, k: int)
    requires
        k > 0,
    ensures
        y / k - (y - 1) / k == if y % k == 0 { 1int } else { 0int },
{
    let q = y / k;
    let r = y % k;
    vstd::arithmetic::div_mod::lemma_fundamental_div_mod(y, k);
    vstd::arithmetic::div_mod::lemma_mod_bound(y, k);
    assert(k * q == q * k) by (nonlinear_arith);
    if r > 0 {
        vstd::arithmetic::div_mod::lemma_fundamental_div_mod_converse(y - 1, k, q, r - 1);
    } else {
        assert((q - 1) * k + (k - 1) == q * k - 1) by (nonlinear_arith);
        vstd::arithmetic::div_mod::lemma_fundamental_div_mod_converse(y - 1, k, q - 1, k - 1);
    }
}

/// A multiple of `a * b` is a multiple of `a`.
proof fn lemma_multiple(y: int, a: int, b: int)
    requires
        a > 0,
        b > 0,
        y % (a * b) == 0,
    ensures
        y % a == 0,
{
    assert(a * b > 0) by (nonlinear_arith)
        requires
            a > 0,
            b > 0,
    ;
    let q = y / (a * b);
    vstd::arithmetic::div_mod::lemma_fundamental_div_mod(y, a * b);
    assert(y == (q * b) * a + 0) by (nonlinear_arith)
        requires
            y == (a * b) * q + 0,
    ;
    vstd::arithmetic::div_mod::lemma_fundamental_div_mod_converse(y, a, q * b, 0);
}

/// A year has 365 days, 366 in a leap year.
proof fn lemma_year_length(y: int)
    ensures
        days_before_year(y + 1) == days_before_year(y) + days_before_month(y, 13),
        days_before_month(y, 13) == if is_leap(y) { 366int } else { 365int },
{
    lemma_month_days(y);
    lemma_div_step(y, 4);
    lemma_div_step(y, 100);
    lemma_div_step(y, 400);
    if y % 400 == 0 {
        lemma_multiple(y, 100, 4);
    }
    if y % 100 == 0 {
        lemma_multiple(y, 4, 25);
    }
}

/// The days of the twelve months.
proof fn lemma_month_days(y: int)
    ensures
        days_before_month(y, 13) == if is_leap(y) { 366int } else { 365int },
{
    reveal_with_fuel(days_before_month, 13);
}

/// Later years begin later.
proof fn lemma_years_ordered(y1: int, y2: int)
    requires
        y1 <= y2,
    ensures
        days_before_year(y1) + (y2 - y1) * 365 <= days_before_year(y2),
    decreases y2 - y1,
{
    if y1 < y2 {
        lemma_years_ordered(y1, y2 - 1);
        lemma_year_length(y2 - 1);
    }
}

/// Later months of a year begin later.
proof fn lemma_months_ordered(y: int, m1: int, m2: int)
    requires
        1 <= m1 <= m2,
    ensures
        days_before_month(y, m1) + (m2 - m1) * 28 <= days_before_month(y, m2),
    decreases m2 - m1,
{
    if m1 < m2 {
        lemma_months_ordered(y, m1, m2 - 1);
    }
}

/// The day number of a real date lies within its year.
proof fn lemma_day_in_year(d: Date)
    requires
        date_valid(d),
    ensures
        days_before_year(d.year as int) <= day_number(d) < days_before_year(d.year as int + 1),
{
    let y = d.year as int;
    let m = d.month as int;
    lemma_year_length(y);
    lemma_months_ordered(y, m + 1, 13);
    lemma_months_ordered(y, 1, m);
    assert(days_before_month(y, m + 1) == days_before_month(y, m) + month_len(y, m));
}

/// Real dates are ordered by their day numbers as their keys are ordered.
proof fn lemma_dates_ordered(d1: Date, d2: Date)
    requires
        date_valid(d1),
        date_valid(d2),
    ensures
        (d1.year < d2.year || (d1.year == d2.year && (d1.month < d2.month || (d1.month == d2.month && d1.day
            < d2.day)))) ==> day_number(d1) < day_number(d2),
{
    lemma_day_in_year(d1);
    lemma_day_in_year(d2);
    if d1.year < d2.year {
        lemma_years_ordered(d1.year as int + 1, d2.year as int);
    } else if d1.year == d2.year && d1.month < d2.month {
        lemma_months_ordered(d1.year as int, d1.month as int + 1, d2.month as int);
    }
}

/// The key of a date and time, and the instant they denote.
proof fn lemma_key_order(d1: Date, t1: Time, d2: Date, t2: Time)
    requires
        date_valid(d1),
        time_valid(t1),
        date_valid(d2),
        time_valid(t2),
    ensures
        lex_less(timestamp_key(d1, t1), timestamp_key(d2, t2)) <==> instant(d1, t1) < instant(d2, t2),
        (timestamp_key(d1, t1) == timestamp_key(d2, t2)) <==> instant(d1, t1) == instant(d2, t2),
{
    reveal_with_fuel(lex_less, 8);
    lemma_dates_ordered(d1, d2);
    lemma_dates_ordered(d2, d1);
    let k1 = timestamp_key(d1, t1);
    let k2 = timestamp_key(d2, t2);
    assert(k1.len() == 7 && k2.len() == 7);
    assert(k1.drop_first() =~= seq![d1.month as int, d1.day as int, t1.hour as int, t1.minute as int, t1.second as int, t1.nano as int]);
    assert(k2.drop_first() =~= seq![d2.month as int, d2.day as int, t2.hour as int, t2.minute as int, t2.second as int, t2.nano as int]);
    if k1 =~= k2 {
        assert(d1 == d2 && t1 == t2) by {
            assert(k1[0] == k2[0] && k1[1] == k2[1] && k1[2] == k2[2] && k1[3] == k2[3]);
            assert(k1[4] == k2[4] && k1[5] == k2[5] && k1[6] == k2[6]);
        }
    }
}

/// Two timestamps with time zone compare by the instants they denote, whatever offsets they
/// are written with: the same instant written with different offsets is equal.
pub proof fn law_timestamp_tz_order(op: CompareOp, x: DateTimeValue, y: DateTimeValue)
    requires
        timestamp_tz_wf(x),
        timestamp_tz_wf(y),
    ensures
        compare_items(op, SItem::DateTime(x), SItem::DateTime(y)) == truth_of(
            ord_result(
                op,
                tz_instant(x) == tz_instant(y),
                tz_instant(x) < tz_instant(y),
                tz_instant(y) < tz_instant(x),
            ),
        ),
{
    match (x, y) {
        (DateTimeValue::TimestampTz(_, _, _, ux, vx), DateTimeValue::TimestampTz(_, _, _, uy, vy)) => {
            lemma_key_order(ux, vx, uy, vy);
            lemma_key_order(uy, vy, ux, vx);
        },
        _ => {},
    }
}

// Three-valued logic.

/// `&&`, `||` and `!` of predicates that give truth values follow SQL's three-valued logic:
/// a conjunction is false when either side is false and true only when both are; a
/// disjunction is true when either side is true and false only when both are; a negation
/// swaps true and false and keeps unknown; `is unknown` is true exactly of unknown.
pub proof fn law_three_valued_logic(a: Predicate, b: Predicate, c: Ctx, ta: Truth, tb: Truth)
    requires
        sem_pred(a, c) == Ok::<Truth, ErrorView>(ta),
        sem_pred(b, c) == Ok::<Truth, ErrorView>(tb),
    ensures
        ({
            let and = sem_pred(Predicate::And(Box::new(a), Box::new(b)), c);
            let or = sem_pred(Predicate::Or(Box::new(a), Box::new(b)), c);
            let not = sem_pred(Predicate::Not(Box::new(a)), c);
            let unk = sem_pred(Predicate::IsUnknown(Box::new(a)), c);
            &&& and is Ok && or is Ok && not is Ok && unk is Ok
            &&& (and->Ok_0 == Truth::False <==> (ta == Truth::False || tb == Truth::False))
            &&& (and->Ok_0 == Truth::True <==> (ta == Truth::True && tb == Truth::True))
            &&& (or->Ok_0 == Truth::True <==> (ta == Truth::True || tb == Truth::True))
            &&& (or->Ok_0 == Truth::False <==> (ta == Truth::False && tb == Truth::False))
            &&& (ta == Truth::True ==> not->Ok_0 == Truth::False)
            &&& (ta == Truth::False ==> not->Ok_0 == Truth::True)
            &&& (ta == Truth::Unknown ==> not->Ok_0 == Truth::Unknown)
            &&& (unk->Ok_0 == Truth::True <==> ta == Truth::Unknown)
            &&& (unk->Ok_0 == Truth::False <==> ta != Truth::Unknown)
        }),
{
}

/// A predicate negated twice is the predicate, and the negation of a conjunction is the
/// disjunction of the negations, whatever the operands give, errors included.
pub proof fn law_negation(a: Predicate, b: Predicate, c: Ctx)
    ensures
        sem_pred(Predicate::Not(Box::new(Predicate::Not(Box::new(a)))), c) == sem_pred(a, c),
        sem_pred(Predicate::Not(Box::new(Predicate::And(Box::new(a), Box::new(b)))), c) == sem_pred(
            Predicate::Or(Box::new(Predicate::Not(Box::new(a))), Box::new(Predicate::Not(Box::new(b)))),
            c,
        ),
{
    let na = Predicate::Not(Box::new(a));
    let nb = Predicate::Not(Box::new(b));
    let ab = Predicate::And(Box::new(a), Box::new(b));
    assert(sem_pred(na, c) == match sem_pred(a, c) {
        Err(e) => Err(e),
        Ok(t) => Ok(crate::truth::truth_not(t)),
    });
    assert(sem_pred(nb, c) == match sem_pred(b, c) {
        Err(e) => Err(e),
        Ok(t) => Ok(crate::truth::truth_not(t)),
    });
    assert(sem_pred(Predicate::Not(Box::new(na)), c) == match sem_pred(na, c) {
        Err(e) => Err(e),
        Ok(t) => Ok(crate::truth::truth_not(t)),
    });
    assert(sem_pred(Predicate::Not(Box::new(ab)), c) == match sem_pred(ab, c) {
        Err(e) => Err(e),
        Ok(t) => Ok(crate::truth::truth_not(t)),
    });
    assert(sem_pred(ab, c) == match sem_pred(a, c) {
        Err(e) => Err(e),
        Ok(ta) => match sem_pred(b, c) {
            Err(e) => Err(e),
            Ok(tb) => Ok(crate::truth::truth_and(ta, tb)),
        },
    });
    assert(sem_pred(Predicate::Or(Box::new(na), Box::new(nb)), c) == match sem_pred(na, c) {
        Err(e) => Err(e),
        Ok(ta) => match sem_pred(nb, c) {
            Err(e) => Err(e),
            Ok(tb) => Ok(crate::truth::truth_or(ta, tb)),
        },
    });
}

// Comparison of JSON values.

/// How JSON values compare: `null` equals only `null` (and differs from anything else); false
/// comes before true; 64-bit integers compare as integers; a string comes before a longer one
/// it begins; arrays and objects, and scalars of different types, are not comparable.
pub proof fn law_compare_values(op: CompareOp, x: Json, i: i64, j: i64, p: Seq<char>, t: Seq<char>)
    ensures
        compare_json(CompareOp::Eq, Json::Null, Json::Null) == Truth::True,
        !(x is Null) && !(x is Array) && !(x is Object) ==> compare_json(CompareOp::Eq, Json::Null, x)
            == Truth::False && compare_json(CompareOp::Ne, Json::Null, x) == Truth::True,
        compare_json(CompareOp::Lt, Json::Bool(false), Json::Bool(true)) == Truth::True,
        compare_json(CompareOp::Lt, Json::Bool(true), Json::Bool(false)) == Truth::False,
        compare_json(op, Json::Number(Number::Int(i)), Json::Number(Number::Int(j))) == truth_of(
            ord_result(op, i == j, i < j, j < i),
        ),
        t.len() > 0 ==> compare_json(CompareOp::Lt, Json::String(p), Json::String(p + t)) == Truth::True
            && compare_json(CompareOp::Eq, Json::String(p), Json::String(p + t)) == Truth::False,
        x is Array || x is Object ==> compare_json(op, x, x) == Truth::Unknown,
        compare_json(op, Json::Number(Number::Int(i)), Json::String(p)) == Truth::Unknown,
        compare_json(op, Json::Bool(true), Json::Number(Number::Int(i))) == Truth::Unknown,
{
    assert(crate::number::pow10(0) == 1);
    assert(crate::number::num_scale(Number::Int(i)) == 0);
    assert(crate::number::num_mant(Number::Int(i)) == i as int);
    assert(crate::number::num_mant(Number::Int(j)) == j as int);
    assert((i as int) * 1 == i as int);
    assert((j as int) * 1 == j as int);
    assert(crate::number::max_scale(Number::Int(i), Number::Int(j)) == 0);
    if t.len() > 0 {
        law_prefix_is_less(p, t);
        assert((p + t).len() != p.len());
    }
}

// Subscripts.

/// A subscript `[i]` selects the element at `i` when it is one (a value that is not an array
/// counts as an array of itself alone); otherwise nothing in lax mode and an error in strict
/// mode.
pub proof fn law_index(t: Json, v: i64, lax: bool)
    ensures
        0 <= v < elem_count(t) ==> index_step(t, v, lax) == Ok::<Seq<SItem>, ErrorView>(
            seq![SItem::Json(elem_at(t, v as int))],
        ),
        !(0 <= v < elem_count(t)) && lax ==> index_step(t, v, lax) == Ok::<Seq<SItem>, ErrorView>(
            Seq::empty(),
        ),
        !(0 <= v < elem_count(t)) && !lax ==> index_step(t, v, lax) == Err::<Seq<SItem>, ErrorView>(
            ErrorView::ArrayIndexOutOfBounds,
        ),
        t is Array && 0 <= v < t->Array_0.len() ==> elem_at(t, v as int) == t->Array_0[v as int] && elem_count(t) == t->Array_0.len(),
        !(t is Array) ==> elem_count(t) == 1 && elem_at(t, 0) == t,
{
}

// Datetime items.

/// A date compares with a timestamp as the timestamp at midnight of that date.
pub proof fn law_date_as_midnight(op: CompareOp, d: Date, d2: Date, t2: Time)
    ensures
        compare_items(op, SItem::DateTime(DateTimeValue::Date(d)), SItem::DateTime(DateTimeValue::Timestamp(d2, t2)))
            == compare_items(
            op,
            SItem::DateTime(DateTimeValue::Timestamp(d, Time { hour: 0, minute: 0, second: 0, nano: 0 })),
            SItem::DateTime(DateTimeValue::Timestamp(d2, t2)),
        ),
        compare_items(op, SItem::DateTime(DateTimeValue::Timestamp(d2, t2)), SItem::DateTime(DateTimeValue::Date(d)))
            == compare_items(
            op,
            SItem::DateTime(DateTimeValue::Timestamp(d2, t2)),
            SItem::DateTime(DateTimeValue::Timestamp(d, Time { hour: 0, minute: 0, second: 0, nano: 0 })),
        ),
{
}

/// Two timestamps without time zone, of real dates and times, compare by the instants they
/// denote.
pub proof fn law_timestamp_order(op: CompareOp, d1: Date, t1: Time, d2: Date, t2: Time)
    requires
        date_valid(d1),
        time_valid(t1),
        date_valid(d2),
        time_valid(t2),
    ensures
        compare_items(
            op,
            SItem::DateTime(DateTimeValue::Timestamp(d1, t1)),
            SItem::DateTime(DateTimeValue::Timestamp(d2, t2)),
        ) == truth_of(
            ord_result(
                op,
                instant(d1, t1) == instant(d2, t2),
                instant(d1, t1) < instant(d2, t2),
                instant(d2, t2) < instant(d1, t1),
            ),
        ),
{
    lemma_key_order(d1, t1, d2, t2);
    lemma_key_order(d2, t2, d1, t1);
}

// Rounding numbers.

/// The divisor of a number's mantissa is positive.
proof fn lemma_pow10_positive(n: nat)
    ensures
        crate::number::pow10(n) >= 1,
    decreases n,
{
    if n > 0 {
        lemma_pow10_positive((n - 1) as nat);
    }
}

/// `.floor()` gives the largest integer not above the number and `.ceiling()` the smallest
/// not below it (the value of a number being its mantissa over `10^scale`), unless that
/// integer lies outside 64 bits.
pub proof fn law_floor_ceiling(a: Number)
    ensures
        ({
            let m = crate::number::num_mant(a);
            let p = crate::number::pow10(crate::number::num_scale(a));
            let f = crate::number::spec_num_floor(a)->Int_0 as int;
            let c = crate::number::spec_num_ceil(a)->Int_0 as int;
            &&& crate::number::spec_num_floor(a) is Int
            &&& crate::number::spec_num_ceil(a) is Int
            &&& (i64::MIN < f < i64::MAX ==> f * p <= m < (f + 1) * p)
            &&& (i64::MIN < c < i64::MAX ==> (c - 1) * p < m <= c * p)
        }),
{
    let m = crate::number::num_mant(a);
    let p = crate::number::pow10(crate::number::num_scale(a));
    lemma_pow10_positive(crate::number::num_scale(a));
    match a {
        Number::Int(i) => {
            assert(p == 1);
        },
        Number::Float(d) => {
            vstd::arithmetic::div_mod::lemma_fundamental_div_mod(m, p);
            vstd::arithmetic::div_mod::lemma_mod_bound(m, p);
            vstd::arithmetic::div_mod::lemma_fundamental_div_mod(-m, p);
            vstd::arithmetic::div_mod::lemma_mod_bound(-m, p);
            let q = m / p;
            let q2 = (-m) / p;
            assert(q * p <= m < (q + 1) * p) by (nonlinear_arith)
                requires
                    m == p * q + m % p,
                    0 <= m % p < p,
            ;
            assert((-q2 - 1) * p < m <= (-q2) * p) by (nonlinear_arith)
                requires
                    -m == p * q2 + (-m) % p,
                    0 <= (-m) % p < p,
            ;
        },
    }
}

/// Rounding (as `.integer()`, `.bigint()` and `.boolean()` do) goes to the nearest integer,
/// halves away from zero: the rounded value `v` of a number `m / p` has the sign of `m` and
/// `|m| - p/2 < |v| p <= |m| + p/2`, with equality only for halves.
pub proof fn law_round_nearest(a: Number)
    ensures
        ({
            let m = crate::number::num_mant(a);
            let p = crate::number::pow10(crate::number::num_scale(a));
            let am = crate::number::abs_int(m) as int;
            spec_num_round(a) matches Some(v) ==> {
                let av: int = if v < 0 { -(v as int) } else { v as int };
                &&& 2 * am - p < 2 * av * p <= 2 * am + p
                &&& (m < 0 ==> v <= 0) && (m >= 0 ==> v >= 0)
            }
        }),
{
    let m = crate::number::num_mant(a);
    let p = crate::number::pow10(crate::number::num_scale(a));
    let am = crate::number::abs_int(m) as int;
    lemma_pow10_positive(crate::number::num_scale(a));
    let x = 2 * am + p;
    vstd::arithmetic::div_mod::lemma_fundamental_div_mod(x, 2 * p);
    vstd::arithmetic::div_mod::lemma_mod_bound(x, 2 * p);
    let t = x / (2 * p);
    assert(2 * am - p < 2 * t * p <= 2 * am + p) by (nonlinear_arith)
        requires
            x == (2 * p) * t + x % (2 * p),
            0 <= x % (2 * p) < 2 * p,
            x == 2 * am + p,
            p >= 1,
    ;
    assert(t >= 0) by (nonlinear_arith)
        requires
            2 * am - p < 2 * t * p,
            am >= 0,
            p >= 1,
    ;
}

// Comparison predicates over sequences.

/// The comparison of the left item `i` with the right item `j`.
pub open spec fn pair_value(op: CompareOp, l: Seq<SItem>, r: Seq<SItem>, i: int, j: int) -> Truth {
    compare_items(op, l[i], r[j])
}

/// Whether the pair `(i, j)` is an index pair of the two sequences.
pub open spec fn is_pair(l: Seq<SItem>, r: Seq<SItem>, i: int, j: int) -> bool {
    0 <= i < l.len() && 0 <= j < r.len()
}

/// Whether the pair `(i2, j2)` is looked at before `(i, j)`: right items in order, and for
/// each the left items in order.
pub open spec fn pair_before(i2: int, j2: int, i: int, j: int) -> bool {
    j2 < j || (j2 == j && i2 < i)
}

/// Whether every pair looked at before `(i, j)` compares false.
pub open spec fn false_before(op: CompareOp, l: Seq<SItem>, r: Seq<SItem>, i: int, j: int) -> bool {
    forall|i2: int, j2: int|
        #![trigger pair_value(op, l, r, i2, j2)]
        is_pair(l, r, i2, j2) && pair_before(i2, j2, i, j) ==> pair_value(op, l, r, i2, j2) == Truth::False
}

/// What a comparison of two sequences gives: in strict mode unknown when any pair of items is
/// not comparable, else true when some pair compares true; in lax mode the first pair that
/// does not compare false decides; false when every pair compares false.
pub open spec fn product_truth(op: CompareOp, l: Seq<SItem>, r: Seq<SItem>, lax: bool) -> Truth {
    if lax {
        if exists|i: int, j: int|
            #![trigger pair_value(op, l, r, i, j)]
            is_pair(l, r, i, j) && pair_value(op, l, r, i, j) == Truth::True && false_before(op, l, r, i, j) {
            Truth::True
        } else if exists|i: int, j: int|
            #![trigger pair_value(op, l, r, i, j)]
            is_pair(l, r, i, j) && pair_value(op, l, r, i, j) == Truth::Unknown && false_before(op, l, r, i, j) {
            Truth::Unknown
        } else {
            Truth::False
        }
    } else {
        if exists|i: int, j: int|
            #![trigger pair_value(op, l, r, i, j)]
            is_pair(l, r, i, j) && pair_value(op, l, r, i, j) == Truth::Unknown {
            Truth::Unknown
        } else if exists|i: int, j: int|
            #![trigger pair_value(op, l, r, i, j)]
            is_pair(l, r, i, j) && pair_value(op, l, r, i, j) == Truth::True {
            Truth::True
        } else {
            Truth::False
        }
    }
}

/// The pairs from `(i, j)` on, after the truth `acc` of those before, as a comparison takes
/// them.
proof fn lemma_product_from(op: CompareOp, l: Seq<SItem>, r: Seq<SItem>, j: nat, i: nat, acc: Truth, lax: bool)
    requires
        j <= r.len(),
        i <= l.len(),
        forall|i2: int, j2: int|
            #![trigger pair_value(op, l, r, i2, j2)]
            is_pair(l, r, i2, j2) && pair_before(i2, j2, i as int, j as int) ==> pair_value(op, l, r, i2, j2)
                != Truth::Unknown,
        lax ==> false_before(op, l, r, i as int, j as int),
        acc == truth_of(
            exists|i2: int, j2: int|
                #![trigger pair_value(op, l, r, i2, j2)]
                is_pair(l, r, i2, j2) && pair_before(i2, j2, i as int, j as int) && pair_value(op, l, r, i2, j2)
                    == Truth::True,
        ),
    ensures
        product_from(op, l, r, j, i, acc, lax) == product_truth(op, l, r, lax),
    decreases r.len() - j, l.len() - i,
{
    if j >= r.len() {
        assert forall|i2: int, j2: int| is_pair(l, r, i2, j2) implies pair_before(i2, j2, i as int, j as int) by {}
        if lax {
            assert(!exists|i2: int, j2: int|
                #![trigger pair_value(op, l, r, i2, j2)]
                is_pair(l, r, i2, j2) && pair_value(op, l, r, i2, j2) == Truth::True && false_before(
                    op,
                    l,
                    r,
                    i2,
                    j2,
                ));
            assert(!exists|i2: int, j2: int|
                #![trigger pair_value(op, l, r, i2, j2)]
                is_pair(l, r, i2, j2) && pair_value(op, l, r, i2, j2) == Truth::Unknown && false_before(
                    op,
                    l,
                    r,
                    i2,
                    j2,
                ));
        }
    } else if i >= l.len() {
        assert forall|i2: int, j2: int| is_pair(l, r, i2, j2) implies pair_before(i2, j2, i as int, j as int)
            == pair_before(i2, j2, 0, j + 1 as int) by {}
        lemma_product_from(op, l, r, j + 1, 0, acc, lax);
    } else {
        let res = pair_value(op, l, r, i as int, j as int);
        assert(res == compare_items(op, l[i as int], r[j as int]));
        if res == Truth::Unknown {
            if lax {
                assert(is_pair(l, r, i as int, j as int) && pair_value(op, l, r, i as int, j as int) == Truth::Unknown
                    && false_before(op, l, r, i as int, j as int));
                assert forall|i2: int, j2: int|
                    #![trigger pair_value(op, l, r, i2, j2)]
                    is_pair(l, r, i2, j2) && pair_value(op, l, r, i2, j2) == Truth::True implies !false_before(
                    op,
                    l,
                    r,
                    i2,
                    j2,
                ) by {
                    if pair_before(i2, j2, i as int, j as int) {
                    } else {
                        assert(pair_before(i as int, j as int, i2, j2));
                        assert(pair_value(op, l, r, i as int, j as int) != Truth::False);
                    }
                }
            } else {
                assert(is_pair(l, r, i as int, j as int) && pair_value(op, l, r, i as int, j as int) == Truth::Unknown);
            }
        } else if res == Truth::True && lax {
            assert(is_pair(l, r, i as int, j as int) && pair_value(op, l, r, i as int, j as int) == Truth::True
                && false_before(op, l, r, i as int, j as int));
        } else {
            let acc2 = crate::truth::truth_merge(acc, res);
            assert forall|i2: int, j2: int| is_pair(l, r, i2, j2) implies pair_before(i2, j2, i + 1 as int, j as int) == (
            pair_before(i2, j2, i as int, j as int) || (i2 == i && j2 == j)) by {}
            if res == Truth::True {
                assert(is_pair(l, r, i as int, j as int) && pair_before(i as int, j as int, i + 1 as int, j as int)
                    && pair_value(op, l, r, i as int, j as int) == Truth::True);
            }
            lemma_product_from(op, l, r, j, i + 1, acc2, lax);
        }
    }
}

/// A comparison of two sequences (as a filter predicate makes it) compares every pair of
/// items, right items in order and for each the left items in order: in strict mode it is
/// unknown when any pair is not comparable, else true when some pair compares true; in lax
/// mode the first pair that does not compare false decides; it is false when every pair
/// compares false.
pub proof fn law_compare_sequences(op: CompareOp, l: Seq<SItem>, r: Seq<SItem>, lax: bool)
    ensures
        compare_product(op, l, r, lax) == product_truth(op, l, r, lax),
{
    lemma_product_from(op, l, r, 0, 0, Truth::False, lax);
}

// Datetime methods.

/// The kind of a datetime item.
pub open spec fn kind_of(v: DateTimeValue) -> DateTimeKind {
    match v {
        DateTimeValue::Date(_) => DateTimeKind::Date,
        DateTimeValue::Time(_) => DateTimeKind::Time,
        DateTimeValue::TimeTz(_, _) => DateTimeKind::TimeTz,
        DateTimeValue::Timestamp(_, _) => DateTimeKind::Timestamp,
        DateTimeValue::TimestampTz(_, _, _, _, _) => DateTimeKind::TimestampTz,
    }
}

/// A datetime method gives an item of its own kind; a text read as a timestamp reads, as a
/// date, its date and, as a timestamp, a date alone is its midnight; a text read as a
/// timestamp with time zone reads, as a time with time zone, its time and offset.
pub proof fn law_datetime_kinds(s: Seq<char>, k: DateTimeKind, d: Date, t: Time, o: i32, ud: Date, ut: Time)
    ensures
        parse_datetime(s, k) matches Some(v) ==> kind_of(v) == k,
        parse_datetime(s, DateTimeKind::Timestamp) == Some(DateTimeValue::Timestamp(d, t)) ==> parse_datetime(
            s,
            DateTimeKind::Date,
        ) == Some(DateTimeValue::Date(d)),
        parse_datetime(s, DateTimeKind::Date) == Some(DateTimeValue::Date(d)) ==> parse_datetime(
            s,
            DateTimeKind::Timestamp,
        ) is Some && parse_datetime(s, DateTimeKind::Timestamp)->Some_0->Timestamp_0 == d,
        parse_datetime(s, DateTimeKind::TimestampTz) == Some(DateTimeValue::TimestampTz(d, t, o, ud, ut))
            ==> parse_datetime(s, DateTimeKind::TimeTz) == Some(DateTimeValue::TimeTz(t, o)),
{
}

// Wildcards and item methods.

/// `[*]` gives the elements of an array in order (the first only, when only the first result
/// is asked for); in lax mode anything else stands for itself, in strict mode it is an error.
/// `last` is the index of the last element (0 for a value that is not an array).
pub proof fn law_element_wildcard(c: Ctx)
    ensures
        c.current is Json && c.current->Json_0 is Array && !is_first(c) ==> element_wildcard_result(c) == Ok::<
            Seq<SItem>,
            ErrorView,
        >(Seq::new(c.current->Json_0->Array_0.len(), |k: int| SItem::Json(c.current->Json_0->Array_0[k]))),
        !(c.current matches SItem::Json(Json::Array(_))) && c.lax ==> element_wildcard_result(c) == Ok::<
            Seq<SItem>,
            ErrorView,
        >(seq![c.current]),
        !(c.current matches SItem::Json(Json::Array(_))) && !c.lax ==> element_wildcard_result(c) == Err::<
            Seq<SItem>,
            ErrorView,
        >(ErrorView::WildcardArrayAccess),
        c.array is Array ==> last_index(c.array) == c.array->Array_0.len() - 1,
{
}

/// `.*` of an object gives the values of its members in order.
pub proof fn law_member_wildcard(c: Ctx, es: Seq<(Seq<char>, Json)>)
    requires
        c.current == SItem::Json(Json::Object(es)),
    ensures
        member_wildcard_result(c) == Ok::<Seq<SItem>, ErrorView>(Seq::new(es.len(), |k: int| SItem::Json(es[k].1))),
{
    let items = crate::sem::lax_items(Json::Object(es), c.lax);
    assert(items == seq![Json::Object(es)]);
    let vals = crate::sem::json_items(Seq::new(es.len(), |k: int| es[k].1));
    assert(Seq::<SItem>::empty() + vals =~= Seq::new(es.len(), |k: int| SItem::Json(es[k].1)));
    assert(crate::sem::member_wildcard_from(items, 1, Seq::empty() + vals, c.lax) == Ok::<Seq<SItem>, ErrorView>(
        Seq::empty() + vals,
    ));
}

/// `.double()` of a number is the number; `.keyvalue()` of an object gives, for each member
/// in order, an object of its key and value.
pub proof fn law_double_and_keyvalue(n: Number, es: Seq<(Seq<char>, Json)>, lax: bool)
    ensures
        method_json(Method::Double, Json::Number(n), lax) == Ok::<Seq<SItem>, ErrorView>(
            seq![SItem::Json(Json::Number(n))],
        ),
        method_json(Method::Keyvalue, Json::Object(es), lax) is Ok,
        ({
            let kv = method_json(Method::Keyvalue, Json::Object(es), lax)->Ok_0;
            &&& kv.len() == es.len()
            &&& forall|k: int|
                0 <= k < es.len() ==> (#[trigger] kv[k] matches SItem::Json(Json::Object(o)) && o.len() == 3
                    && crate::json::object_lookup(o, "key"@) == Some(Json::String(es[k].0))
                    && crate::json::object_lookup(o, "value"@) == Some(es[k].1))
        }),
{
    reveal_strlit("key");
    reveal_strlit("value");
    reveal_strlit("id");
    let kv = method_json(Method::Keyvalue, Json::Object(es), lax)->Ok_0;
    assert forall|k: int| 0 <= k < es.len() implies (#[trigger] kv[k] matches SItem::Json(Json::Object(o)) && o.len()
        == 3 && crate::json::object_lookup(o, "key"@) == Some(Json::String(es[k].0))
        && crate::json::object_lookup(o, "value"@) == Some(es[k].1)) by {
        let o = seq![
            ("id"@, Json::Number(Number::Int(0))),
            ("key"@, Json::String(es[k].0)),
            ("value"@, es[k].1),
        ];
        assert("id"@ != "key"@) by {
            assert("id"@[0] != "key"@[0]);
        }
        assert("id"@ != "value"@);
        assert("key"@ != "value"@);
        assert(o.drop_first() =~= seq![("key"@, Json::String(es[k].0)), ("value"@, es[k].1)]);
        assert(o.drop_first().drop_first() =~= seq![("value"@, es[k].1)]);
        assert(kv == crate::sem::keyvalue_items(es));
        assert(kv[k] == SItem::Json(Json::Object(o)));
        reveal_with_fuel(crate::json::object_lookup, 4);
        assert(crate::json::object_lookup(o, "key"@) == Some(Json::String(es[k].0)));
        assert(crate::json::object_lookup(o, "value"@) == Some(es[k].1));
    }
}

// Conversion methods.

/// `.integer()` and `.bigint()` of a number give its rounded value when it fits 32 and 64 bits
/// respectively, and fail otherwise; within 32 bits the two agree; an integer converts to
/// itself.
pub proof fn law_integer_conversion(n: Number, i: i64, lax: bool)
    ensures
        spec_num_round(n) is Some && i32::MIN <= spec_num_round(n)->Some_0 <= i32::MAX ==> method_json(
            Method::Integer,
            Json::Number(n),
            lax,
        ) == Ok::<Seq<SItem>, ErrorView>(seq![SItem::Json(Json::Number(Number::Int(spec_num_round(n)->Some_0)))])
            && method_json(
            Method::Bigint,
            Json::Number(n),
            lax,
        ) == method_json(Method::Integer, Json::Number(n), lax),
        spec_num_round(n) matches Some(v) ==> method_json(Method::Bigint, Json::Number(n), lax) == Ok::<
            Seq<SItem>,
            ErrorView,
        >(seq![SItem::Json(Json::Number(Number::Int(v)))]),
        (spec_num_round(n) is None || spec_num_round(n)->Some_0 < i32::MIN || spec_num_round(n)->Some_0 > i32::MAX)
            ==> method_json(Method::Integer, Json::Number(n), lax) is Err,
        method_json(Method::Bigint, Json::Number(Number::Int(i)), lax) == Ok::<Seq<SItem>, ErrorView>(
            seq![SItem::Json(Json::Number(Number::Int(i)))],
        ),
{
    let m = crate::number::abs_int(i as int) as int;
    assert(crate::number::pow10(0) == 1);
    assert((2 * m + 1) / 2 == m);
    assert(spec_num_round(Number::Int(i)) == Some(i));
}

// More filter predicates.

/// `exists (e)` is true when `e` gives some item, false when it gives none, and unknown when
/// it fails (a missing variable stays an error).
pub proof fn law_exists(x: Expr, c: Ctx)
    ensures
        ({
            let r = sem_pred(Predicate::Exists(Box::new(x)), c);
            match sem_expr(x, first_of(c)) {
                Ok(s) => r == Ok::<Truth, ErrorView>(if s.len() > 0 { Truth::True } else { Truth::False }),
                Err(ErrorView::NoVariable(n)) => r == Err::<Truth, ErrorView>(ErrorView::NoVariable(n)),
                Err(_) => r == Ok::<Truth, ErrorView>(Truth::Unknown),
            }
        }),
{
}

/// `starts with` tests whether the string is the prefix followed by something (possibly
/// nothing).
pub proof fn law_prefix(p: Seq<char>, s: Seq<char>, t: Seq<char>)
    ensures
        crate::json::is_prefix(p, p + t),
        crate::json::is_prefix(p, s) ==> s == p + s.subrange(p.len() as int, s.len() as int),
        p.len() > s.len() ==> !crate::json::is_prefix(p, s),
{
    assert((p + t).subrange(0, p.len() as int) =~= p);
    if crate::json::is_prefix(p, s) {
        assert(s =~= p + s.subrange(p.len() as int, s.len() as int));
    }
}

/// Two dates that exist compare by their day numbers, and two ordinary times by the
/// nanoseconds since midnight.
pub proof fn law_date_time_order(op: CompareOp, d1: Date, d2: Date, t1: Time, t2: Time)
    requires
        date_valid(d1),
        date_valid(d2),
        time_valid(t1),
        time_valid(t2),
    ensures
        compare_items(op, SItem::DateTime(DateTimeValue::Date(d1)), SItem::DateTime(DateTimeValue::Date(d2)))
            == truth_of(
            ord_result(
                op,
                day_number(d1) == day_number(d2),
                day_number(d1) < day_number(d2),
                day_number(d2) < day_number(d1),
            ),
        ),
        compare_items(op, SItem::DateTime(DateTimeValue::Time(t1)), SItem::DateTime(DateTimeValue::Time(t2)))
            == truth_of(
            ord_result(
                op,
                time_nanos(t1) == time_nanos(t2),
                time_nanos(t1) < time_nanos(t2),
                time_nanos(t2) < time_nanos(t1),
            ),
        ),
{
    reveal_with_fuel(lex_less, 5);
    lemma_dates_ordered(d1, d2);
    lemma_dates_ordered(d2, d1);
    let a = date_key(d1);
    let b = date_key(d2);
    assert(a.drop_first() =~= seq![d1.month as int, d1.day as int]);
    assert(b.drop_first() =~= seq![d2.month as int, d2.day as int]);
    assert(a.drop_first().drop_first() =~= seq![d1.day as int]);
    assert(b.drop_first().drop_first() =~= seq![d2.day as int]);
    if a =~= b {
        assert(a[0] == b[0] && a[1] == b[1] && a[2] == b[2]);
    }
    let x = time_key(t1);
    let y = time_key(t2);
    assert(x.drop_first() =~= seq![t1.minute as int, t1.second as int, t1.nano as int]);
    assert(y.drop_first() =~= seq![t2.minute as int, t2.second as int, t2.nano as int]);
    assert(x.drop_first().drop_first() =~= seq![t1.second as int, t1.nano as int]);
    assert(y.drop_first().drop_first() =~= seq![t2.second as int, t2.nano as int]);
    assert(x.drop_first().drop_first().drop_first() =~= seq![t1.nano as int]);
    assert(y.drop_first().drop_first().drop_first() =~= seq![t2.nano as int]);
    if x =~= y {
        assert(x[0] == y[0] && x[1] == y[1] && x[2] == y[2] && x[3] == y[3]);
    }
}

} // verus!

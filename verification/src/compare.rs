//! Comparison of SQL/JSON items.

use vstd::prelude::*;
use crate::ast::CompareOp;
use crate::datetime::{
    Date, DateTimeValue, Time, datetime_keys, lex_less, date_key, time_key, timestamp_key, time_tz_key,
};
use crate::item::{Item, SItem, item_view};
use crate::json::{JsonValue, Json, json_view, chars_less, string_less};
use crate::number::{NumberExt, num_equal, num_less};
use crate::truth::{Truth, truth_of, truth_not};

verus! {

/// The outcome of a comparison in a total order, given whether the operands are equal,
/// whether the left one is less, and whether it is greater.
pub open spec fn ord_result(op: CompareOp, eq: bool, lt: bool, gt: bool) -> bool {
    match op {
        CompareOp::Eq => eq,
        CompareOp::Ne => !eq,
        CompareOp::Lt => lt,
        CompareOp::Le => !gt,
        CompareOp::Gt => gt,
        CompareOp::Ge => !lt,
    }
}

/// Comparison of two JSON values: unknown when they are not comparable
/// (arrays, objects, or scalars of different types other than null).
pub open spec fn compare_json(op: CompareOp, a: Json, b: Json) -> Truth {
    if a is Array || a is Object || b is Array || b is Object {
        Truth::Unknown
    } else {
        match (a, b) {
            (Json::Null, Json::Null) => truth_of(ord_result(op, true, false, false)),
            (Json::Null, _) => truth_of(op == CompareOp::Ne),
            (_, Json::Null) => truth_of(op == CompareOp::Ne),
            (Json::Bool(x), Json::Bool(y)) => truth_of(ord_result(op, x == y, !x && y, x && !y)),
            (Json::Number(x), Json::Number(y)) => truth_of(ord_result(op, num_equal(x, y), num_less(x, y), num_less(y, x))),
            (Json::String(x), Json::String(y)) => truth_of(ord_result(op, x == y, chars_less(x, y), chars_less(y, x))),
            _ => Truth::Unknown,
        }
    }
}

/// Comparison of two items: JSON values with JSON values, datetime values with
/// datetime values of a comparable kind; unknown otherwise.
pub open spec fn compare_items(op: CompareOp, a: SItem, b: SItem) -> Truth {
    match (a, b) {
        (SItem::Json(x), SItem::Json(y)) => compare_json(op, x, y),
        (SItem::DateTime(x), SItem::DateTime(y)) => match datetime_keys(x, y) {
            Some((ka, kb)) => truth_of(ord_result(op, ka == kb, lex_less(ka, kb), lex_less(kb, ka))),
            None => Truth::Unknown,
        },
        _ => Truth::Unknown,
    }
}

/// Exec counterpart of [`ord_result`].
fn ord_outcome(op: CompareOp, eq: bool, lt: bool, gt: bool) -> (r: bool)
    ensures
        r == ord_result(op, eq, lt, gt),
{
    match op {
        CompareOp::Eq => eq,
        CompareOp::Ne => !eq,
        CompareOp::Lt => lt,
        CompareOp::Le => !gt,
        CompareOp::Gt => gt,
        CompareOp::Ge => !lt,
    }
}

/// Compares two JSON values.
pub fn compare_json_values(op: CompareOp, a: &JsonValue, b: &JsonValue) -> (t: Truth)
    ensures
        t == compare_json(op, json_view(*a), json_view(*b)),
{
    match (a, b) {
        (JsonValue::Array(_), _) | (JsonValue::Object(_), _) | (_, JsonValue::Array(_)) | (_, JsonValue::Object(_)) => {
            Truth::Unknown
        },
        (JsonValue::Null, JsonValue::Null) => Truth::from_bool(ord_outcome(op, true, false, false)),
        (JsonValue::Null, _) | (_, JsonValue::Null) => Truth::from_bool(op == CompareOp::Ne),
        (JsonValue::Bool(x), JsonValue::Bool(y)) => Truth::from_bool(ord_outcome(op, *x == *y, !*x && *y, *x && !*y)),
        (JsonValue::Number(x), JsonValue::Number(y)) => Truth::from_bool(
            ord_outcome(op, x.equal(y), x.less_than(y), y.less_than(x)),
        ),
        (JsonValue::String(x), JsonValue::String(y)) => Truth::from_bool(
            ord_outcome(op, *x == *y, string_less(x, y), string_less(y, x)),
        ),
        _ => Truth::Unknown,
    }
}

/// The integers of a key array.
pub open spec fn key_ints(v: Seq<i128>) -> Seq<int> {
    v.map_values(|x: i128| x as int)
}

/// The sort key of a date.
fn date_key_vec(d: &Date) -> (r: Vec<i128>)
    ensures
        key_ints(r@) == date_key(*d),
{
    let r = vec![d.year as i128, d.month as i128, d.day as i128];
    assert(key_ints(r@) =~= date_key(*d));
    r
}

/// The sort key of a time.
fn time_key_vec(t: &Time) -> (r: Vec<i128>)
    ensures
        key_ints(r@) == time_key(*t),
{
    let r = vec![t.hour as i128, t.minute as i128, t.second as i128, t.nano as i128];
    assert(key_ints(r@) =~= time_key(*t));
    r
}

/// The sort key of a date and a time.
fn timestamp_key_vec(d: &Date, t: &Time) -> (r: Vec<i128>)
    ensures
        key_ints(r@) == timestamp_key(*d, *t),
{
    let r = vec![
        d.year as i128,
        d.month as i128,
        d.day as i128,
        t.hour as i128,
        t.minute as i128,
        t.second as i128,
        t.nano as i128,
    ];
    assert(key_ints(r@) =~= timestamp_key(*d, *t));
    r
}

/// The sort key of a time with time zone.
fn time_tz_key_vec(t: &Time, offset: i32) -> (r: Vec<i128>)
    ensures
        key_ints(r@) == time_tz_key(*t, offset),
{
    let nanos = ((t.hour as i128) * 3600 + (t.minute as i128) * 60 + (t.second as i128)) * 1_000_000_000
        + (t.nano as i128);
    let west: i128 = -(offset as i128);
    let utc: i128 = nanos - (offset as i128) * 1_000_000_000;
    let r = vec![utc, west];
    assert(key_ints(r@) =~= time_tz_key(*t, offset));
    r
}

/// Lexicographic order of two key arrays.
fn keys_less(a: &Vec<i128>, b: &Vec<i128>) -> (r: bool)
    ensures
        r == lex_less(key_ints(a@), key_ints(b@)),
{
    let ghost ka = key_ints(a@);
    let ghost kb = key_ints(b@);
    let mut i: usize = 0;
    assert(ka.skip(0) =~= ka);
    assert(kb.skip(0) =~= kb);
    while i < a.len() && i < b.len()
        invariant
            i <= a.len(),
            i <= b.len(),
            ka == key_ints(a@),
            kb == key_ints(b@),
            lex_less(ka, kb) == lex_less(ka.skip(i as int), kb.skip(i as int)),
        decreases a.len() - i,
    {
        assert(ka.skip(i as int).drop_first() =~= ka.skip(i + 1));
        assert(kb.skip(i as int).drop_first() =~= kb.skip(i + 1));
        if a[i] != b[i] {
            return a[i] < b[i];
        }
        i = i + 1;
    }
    a.len() - i < b.len() - i
}

/// Whether two key arrays are equal.
fn keys_equal(a: &Vec<i128>, b: &Vec<i128>) -> (r: bool)
    ensures
        r == (key_ints(a@) == key_ints(b@)),
{
    let ghost ka = key_ints(a@);
    let ghost kb = key_ints(b@);
    if a.len() != b.len() {
        assert(ka.len() != kb.len());
        return false;
    }
    let mut i: usize = 0;
    while i < a.len()
        invariant
            a.len() == b.len(),
            i <= a.len(),
            ka == key_ints(a@),
            kb == key_ints(b@),
            forall|j: int| 0 <= j < i ==> ka[j] == kb[j],
        decreases a.len() - i,
    {
        if a[i] != b[i] {
            assert(ka[i as int] != kb[i as int]);
            return false;
        }
        i = i + 1;
    }
    assert(ka =~= kb);
    true
}

/// The sort keys of two datetime items, when they are comparable.
fn datetime_key_vecs(a: &DateTimeValue, b: &DateTimeValue) -> (r: Option<(Vec<i128>, Vec<i128>)>)
    ensures
        match r {
            Some((x, y)) => datetime_keys(*a, *b) == Some((key_ints(x@), key_ints(y@))),
            None => datetime_keys(*a, *b) is None,
        },
{
    let midnight = Time { hour: 0, minute: 0, second: 0, nano: 0 };
    match (a, b) {
        (DateTimeValue::Date(x), DateTimeValue::Date(y)) => Some((date_key_vec(x), date_key_vec(y))),
        (DateTimeValue::Time(x), DateTimeValue::Time(y)) => Some((time_key_vec(x), time_key_vec(y))),
        (DateTimeValue::TimeTz(x, ox), DateTimeValue::TimeTz(y, oy)) => Some(
            (time_tz_key_vec(x, *ox), time_tz_key_vec(y, *oy)),
        ),
        (DateTimeValue::Timestamp(dx, tx), DateTimeValue::Timestamp(dy, ty)) => Some(
            (timestamp_key_vec(dx, tx), timestamp_key_vec(dy, ty)),
        ),
        (DateTimeValue::TimestampTz(_, _, _, ux, vx), DateTimeValue::TimestampTz(_, _, _, uy, vy)) => Some(
            (timestamp_key_vec(ux, vx), timestamp_key_vec(uy, vy)),
        ),
        (DateTimeValue::Date(x), DateTimeValue::Timestamp(dy, ty)) => Some(
            (timestamp_key_vec(x, &midnight), timestamp_key_vec(dy, ty)),
        ),
        (DateTimeValue::Timestamp(dx, tx), DateTimeValue::Date(y)) => Some(
            (timestamp_key_vec(dx, tx), timestamp_key_vec(y, &midnight)),
        ),
        _ => None,
    }
}

/// Compares two items.
pub fn compare_item_values(op: CompareOp, a: &Item, b: &Item) -> (t: Truth)
    ensures
        t == compare_items(op, item_view(*a), item_view(*b)),
{
    match (a, b) {
        (Item::Json(x), Item::Json(y)) => compare_json_values(op, x, y),
        (Item::DateTime(x), Item::DateTime(y)) => match datetime_key_vecs(x, y) {
            Some((kx, ky)) => {
                let eq = keys_equal(&kx, &ky);
                let lt = keys_less(&kx, &ky);
                let gt = keys_less(&ky, &kx);
                Truth::from_bool(ord_outcome(op, eq, lt, gt))
            },
            None => Truth::Unknown,
        },
        _ => Truth::Unknown,
    }
}

/// The comparison of the cross product of two sequences, from the pair
/// (`left[i]`, `right[j]`) on: every item of `left` is compared with every item of
/// `right` (right-major order) and the results are merged; it stops at the first
/// unknown result, and in lax mode also at the first true one.
pub open spec fn product_from(
    op: CompareOp,
    left: Seq<SItem>,
    right: Seq<SItem>,
    j: nat,
    i: nat,
    acc: Truth,
    lax: bool,
) -> Truth
    decreases right.len() - j, left.len() - i,
{
    if j >= right.len() {
        acc
    } else if i >= left.len() {
        product_from(op, left, right, j + 1, 0, acc, lax)
    } else {
        let res = compare_items(op, left[i as int], right[j as int]);
        let acc2 = crate::truth::truth_merge(acc, res);
        if res == Truth::Unknown || (res == Truth::True && lax) {
            acc2
        } else {
            product_from(op, left, right, j, i + 1, acc2, lax)
        }
    }
}

/// The result of a comparison predicate over two sequences.
pub open spec fn compare_product(op: CompareOp, left: Seq<SItem>, right: Seq<SItem>, lax: bool) -> Truth {
    product_from(op, left, right, 0, 0, Truth::False, lax)
}

/// Exec counterpart of [`compare_product`].
pub fn compare_sequences(op: CompareOp, left: &Vec<Item>, right: &Vec<Item>, lax: bool) -> (t: Truth)
    ensures
        t == compare_product(
            op,
            left@.map_values(|x: Item| item_view(x)),
            right@.map_values(|x: Item| item_view(x)),
            lax,
        ),
{
    let ghost l = left@.map_values(|x: Item| item_view(x));
    let ghost r = right@.map_values(|x: Item| item_view(x));
    let mut result = Truth::False;
    let mut j: usize = 0;
    while j < right.len()
        invariant
            j <= right.len(),
            l == left@.map_values(|x: Item| item_view(x)),
            r == right@.map_values(|x: Item| item_view(x)),
            compare_product(op, l, r, lax) == product_from(op, l, r, j as nat, 0, result, lax),
        decreases right.len() - j,
    {
        let mut i: usize = 0;
        while i < left.len()
            invariant
                i <= left.len(),
                j < right.len(),
                l == left@.map_values(|x: Item| item_view(x)),
                r == right@.map_values(|x: Item| item_view(x)),
                compare_product(op, l, r, lax) == product_from(op, l, r, j as nat, i as nat, result, lax),
            decreases left.len() - i,
        {
            let res = compare_item_values(op, &left[i], &right[j]);
            result = result.merge(res);
            if res.is_unknown() || (res.is_true() && lax) {
                return result;
            }
            i = i + 1;
        }
        j = j + 1;
    }
    result
}

/// Comparison is symmetric in its operands: `<` is `>` swapped, `<=` is `>=` swapped,
/// and `==` and `!=` do not depend on the order.
pub proof fn law_compare_converse(a: SItem, b: SItem)
    ensures
        compare_items(CompareOp::Lt, a, b) == compare_items(CompareOp::Gt, b, a),
        compare_items(CompareOp::Le, a, b) == compare_items(CompareOp::Ge, b, a),
        compare_items(CompareOp::Eq, a, b) == compare_items(CompareOp::Eq, b, a),
        compare_items(CompareOp::Ne, a, b) == compare_items(CompareOp::Ne, b, a),
{
}

/// `!=` is the negation of `==`; on operands that are not null, `>=` is the negation
/// of `<` and `<=` that of `>`; items that are not comparable give unknown throughout.
pub proof fn law_compare_negation(a: SItem, b: SItem)
    ensures
        compare_items(CompareOp::Ne, a, b) == truth_not(compare_items(CompareOp::Eq, a, b)),
        a != SItem::Json(Json::Null) && b != SItem::Json(Json::Null) ==> compare_items(CompareOp::Ge, a, b)
            == truth_not(compare_items(CompareOp::Lt, a, b)),
        a != SItem::Json(Json::Null) && b != SItem::Json(Json::Null) ==> compare_items(CompareOp::Le, a, b)
            == truth_not(compare_items(CompareOp::Gt, a, b)),
{
}

} // verus!

//! Item methods: `.type()`, `.size()`, numeric, conversion and datetime methods.

use vstd::prelude::*;
use crate::ast::Method;
use crate::dtparse::{DateTimeKind, read_datetime};
use crate::error::{EvalError, ErrorView, error_view, text};
use crate::item::{Item, ItemRef, SItem, item_view, item_ref_view};
use crate::json::{JsonValue, Json, json_view, chars_of, string_of, lemma_array_view, lemma_object_view};
use crate::number::{Number, NumberExt, round_to_i64};
use crate::sem::{
    method_text, item_type_text, int_item, method_on, method_json, method_elems_from, sem_method, method_kind,
    number_of_serde, parse_serde_number, keyvalue_items, single, method_double, method_numeric,
    method_integer, method_number, method_boolean, method_string, method_datetime,
};
use crate::strings::{trim_chars, parse_int_in_range, parse_boolean, strip_plus_chars};
use crate::text::{number_to_string, double_from_str, number_from_text};

verus! {

/// The items of a result.
pub open spec fn items_result(r: Result<Vec<Item>, EvalError>) -> Result<Seq<SItem>, ErrorView> {
    match r {
        Ok(v) => Ok(v@.map_values(|i: Item| item_view(i))),
        Err(e) => Err(error_view(e)),
    }
}

/// The item of a result.
pub open spec fn item_result(r: Result<Item, EvalError>) -> Result<SItem, ErrorView> {
    match r {
        Ok(i) => Ok(item_view(i)),
        Err(e) => Err(error_view(e)),
    }
}

/// The name of a method.
pub fn method_name(m: Method) -> (r: &'static str)
    ensures
        r@ == method_text(m),
{
    match m {
        Method::Type => "type",
        Method::Size => "size",
        Method::Double => "double",
        Method::Ceiling => "ceiling",
        Method::Floor => "floor",
        Method::Abs => "abs",
        Method::Keyvalue => "keyvalue",
        Method::Bigint => "bigint",
        Method::Integer => "integer",
        Method::Decimal => "decimal",
        Method::Number => "number",
        Method::String => "string",
        Method::Boolean => "boolean",
        Method::Date => "date",
        Method::Time => "time",
        Method::TimeTz => "time_tz",
        Method::Timestamp => "timestamp",
        Method::TimestampTz => "timestamp_tz",
    }
}

/// A single item as a vector.
fn one(r: Result<Item, EvalError>) -> (v: Result<Vec<Item>, EvalError>)
    ensures
        items_result(v) == single(item_result(r)),
{
    match r {
        Ok(i) => {
            let v = vec![i];
            assert(v@.map_values(|i: Item| item_view(i)) =~= seq![item_view(v@[0])]);
            Ok(v)
        },
        Err(e) => Err(e),
    }
}

/// An integer item.
pub fn int_items(n: usize) -> (r: Result<Vec<Item>, EvalError>)
    ensures
        items_result(r) == int_item(n as int),
{
    if n as u128 <= i64::MAX as u128 {
        one(Ok(Item::Json(JsonValue::Number(Number::Int(n as i64)))))
    } else {
        Err(EvalError::NumericOutOfRange)
    }
}

/// The SQL/JSON type name of an item.
fn type_name_of(cur: &ItemRef) -> (r: &'static str)
    ensures
        r@ == item_type_text(item_ref_view(*cur)),
{
    match cur {
        ItemRef::DateTime(d) => d.type_label(),
        ItemRef::Json(JsonValue::Null) => "null",
        ItemRef::Json(JsonValue::Bool(_)) => "boolean",
        ItemRef::Json(JsonValue::Number(_)) => "number",
        ItemRef::Json(JsonValue::String(_)) => "string",
        ItemRef::Json(JsonValue::Array(_)) => "array",
        ItemRef::Json(JsonValue::Object(_)) => "object",
    }
}

/// The number that a string converts to under `.number()` or `.decimal()`, given what
/// `serde_json` read from the trimmed string without a leading `+`: an error naming the
/// string when it read nothing.
pub fn number_from_serde(parsed: Option<String>, s: &String, name: &'static str) -> (r: Result<Number, EvalError>)
    ensures
        result_number_view(r) == number_of_serde(
            match parsed {
                Some(t) => Some(t@),
                None => None,
            },
            s@,
            name@,
        ),
{
    match parsed {
        None => Err(EvalError::InvalidConversion(s.clone(), name, "numeric")),
        Some(t) => match number_from_text(t.as_str()) {
            Some(n) => Ok(n),
            None => Err(EvalError::NumericOutOfRange),
        },
    }
}

/// A number result with its error viewed.
pub open spec fn result_number_view(r: Result<Number, EvalError>) -> Result<Number, ErrorView> {
    match r {
        Ok(n) => Ok(n),
        Err(e) => Err(error_view(e)),
    }
}

/// `.double()`.
fn method_double_exec(cur: &ItemRef) -> (r: Result<Item, EvalError>)
    ensures
        item_result(r) == method_double(item_ref_view(*cur)),
{
    match cur {
        ItemRef::Json(JsonValue::String(s)) => match double_from_str(s.as_str()) {
            Some(n) => Ok(Item::Json(JsonValue::Number(n))),
            None => Err(EvalError::InvalidDouble),
        },
        ItemRef::Json(JsonValue::Number(n)) => Ok(Item::Json(JsonValue::Number(*n))),
        _ => Err(EvalError::DoubleTypeError),
    }
}

/// `.ceiling()`, `.floor()` and `.abs()`.
fn method_numeric_exec(m: Method, cur: &ItemRef) -> (r: Result<Item, EvalError>)
    ensures
        item_result(r) == method_numeric(m, item_ref_view(*cur)),
{
    match cur {
        ItemRef::Json(JsonValue::Number(n)) => match m {
            Method::Ceiling => Ok(Item::Json(JsonValue::Number(n.ceil()))),
            Method::Floor => Ok(Item::Json(JsonValue::Number(n.floor()))),
            _ => Ok(Item::Json(JsonValue::Number(n.abs()))),
        },
        _ => Err(EvalError::MethodNotNumeric(method_name(m))),
    }
}

/// `.keyvalue()`.
fn method_keyvalue_exec(cur: &ItemRef) -> (r: Result<Vec<Item>, EvalError>)
    ensures
        items_result(r) == method_on(Method::Keyvalue, item_ref_view(*cur), false),
{
    match cur {
        ItemRef::Json(JsonValue::Object(es)) => {
            let ghost ev = json_view(JsonValue::Object(*es))->Object_0;
            proof {
                lemma_object_view(*es);
            }
            let mut out: Vec<Item> = Vec::new();
            let mut i: usize = 0;
            assert(out@.map_values(|x: Item| item_view(x)) =~= keyvalue_items(ev).subrange(0, 0));
            while i < es.len()
                invariant
                    i <= es.len(),
                    ev == json_view(JsonValue::Object(*es))->Object_0,
                    ev.len() == es@.len(),
                    forall|k: int| 0 <= k < es@.len() ==> #[trigger] ev[k] == (es@[k].0@, json_view(es@[k].1)),
                    out@.map_values(|x: Item| item_view(x)) == keyvalue_items(ev).subrange(0, i as int),
                decreases es.len() - i,
            {
                let entry = vec![
                    (text("id"), JsonValue::Number(Number::Int(0))),
                    (text("key"), JsonValue::String(es[i].0.clone())),
                    (text("value"), es[i].1.copy()),
                ];
                let obj = JsonValue::Object(entry);
                proof {
                    lemma_object_view(entry);
                    assert(json_view(obj)->Object_0 =~= seq![
                        ("id"@, Json::Number(Number::Int(0))),
                        ("key"@, Json::String(ev[i as int].0)),
                        ("value"@, ev[i as int].1),
                    ]);
                }
                let ghost old = out@;
                let ghost ov = json_view(obj);
                assert(ov == Json::Object(seq![
                    ("id"@, Json::Number(Number::Int(0))),
                    ("key"@, Json::String(ev[i as int].0)),
                    ("value"@, ev[i as int].1),
                ]));
                assert(keyvalue_items(ev)[i as int] == SItem::Json(ov));
                out.push(Item::Json(obj));
                assert(out@.map_values(|x: Item| item_view(x)) =~= old.map_values(|x: Item| item_view(x)).push(
                    SItem::Json(ov),
                ));
                i = i + 1;
                assert(out@.map_values(|x: Item| item_view(x)) =~= keyvalue_items(ev).subrange(0, i as int));
            }
            assert(keyvalue_items(ev).subrange(0, es@.len() as int) =~= keyvalue_items(ev));
            Ok(out)
        },
        _ => Err(EvalError::KeyValueNotObject),
    }
}

/// `.bigint()` and `.integer()`.
fn method_integer_exec(cur: &ItemRef, name: &'static str, lo: i64, hi: i64) -> (r: Result<Item, EvalError>)
    ensures
        item_result(r) == method_integer(item_ref_view(*cur), name@, lo as int, hi as int),
{
    match cur {
        ItemRef::Json(JsonValue::Number(n)) => match round_to_i64(n) {
            Some(v) => if lo <= v && v <= hi {
                Ok(Item::Json(JsonValue::Number(Number::Int(v))))
            } else {
                Err(EvalError::InvalidConversion(number_to_string(n), name, name))
            },
            None => Err(EvalError::InvalidConversion(number_to_string(n), name, name)),
        },
        ItemRef::Json(JsonValue::String(s)) => {
            let t = trim_chars(&chars_of(s.as_str()));
            match parse_int_in_range(&t, lo, hi) {
                Some(v) => Ok(Item::Json(JsonValue::Number(Number::Int(v)))),
                None => Err(EvalError::InvalidConversion(s.clone(), name, name)),
            }
        },
        _ => Err(EvalError::NumericConversionType(name)),
    }
}

/// `.number()` and `.decimal()`.
fn method_number_exec(cur: &ItemRef, name: &'static str) -> (r: Result<Item, EvalError>)
    ensures
        item_result(r) == method_number(item_ref_view(*cur), name@),
{
    match cur {
        ItemRef::Json(JsonValue::Number(n)) => Ok(Item::Json(JsonValue::Number(*n))),
        ItemRef::Json(JsonValue::String(s)) => {
            let t = string_of(&strip_plus_chars(&trim_chars(&chars_of(s.as_str()))));
            let parsed = parse_serde_number(t.as_str());
            match number_from_serde(parsed, s, name) {
                Ok(n) => Ok(Item::Json(JsonValue::Number(n))),
                Err(e) => Err(e),
            }
        },
        _ => Err(EvalError::NumericConversionType(name)),
    }
}

/// `.boolean()`.
fn method_boolean_exec(cur: &ItemRef) -> (r: Result<Item, EvalError>)
    ensures
        item_result(r) == method_boolean(item_ref_view(*cur)),
{
    match cur {
        ItemRef::Json(JsonValue::Bool(b)) => Ok(Item::Json(JsonValue::Bool(*b))),
        ItemRef::Json(JsonValue::Number(n)) => match round_to_i64(n) {
            Some(v) => if i32::MIN as i64 <= v && v <= i32::MAX as i64 {
                Ok(Item::Json(JsonValue::Bool(v != 0)))
            } else {
                Err(EvalError::InvalidConversion(number_to_string(n), "boolean", "boolean"))
            },
            None => Err(EvalError::InvalidConversion(number_to_string(n), "boolean", "boolean")),
        },
        ItemRef::Json(JsonValue::String(s)) => match parse_boolean(s.as_str()) {
            Some(b) => Ok(Item::Json(JsonValue::Bool(b))),
            None => Err(EvalError::InvalidConversion(s.clone(), "boolean", "boolean")),
        },
        _ => Err(EvalError::BooleanTypeError),
    }
}

/// `.string()`.
fn method_string_exec(cur: &ItemRef) -> (r: Result<Item, EvalError>)
    ensures
        item_result(r) == method_string(item_ref_view(*cur)),
{
    match cur {
        ItemRef::DateTime(d) => Ok(Item::Json(JsonValue::String(d.to_iso_string()))),
        ItemRef::Json(JsonValue::String(s)) => Ok(Item::Json(JsonValue::String(s.clone()))),
        ItemRef::Json(JsonValue::Number(n)) => Ok(Item::Json(JsonValue::String(number_to_string(n)))),
        ItemRef::Json(JsonValue::Bool(b)) => Ok(
            Item::Json(
                JsonValue::String(
                    if *b {
                        text("true")
                    } else {
                        text("false")
                    },
                ),
            ),
        ),
        _ => Err(EvalError::StringTypeError),
    }
}

/// The kind of datetime item a method asks for.
fn kind_of(m: Method) -> (k: DateTimeKind)
    ensures
        k == method_kind(m),
{
    match m {
        Method::Date => DateTimeKind::Date,
        Method::Time => DateTimeKind::Time,
        Method::TimeTz => DateTimeKind::TimeTz,
        Method::Timestamp => DateTimeKind::Timestamp,
        _ => DateTimeKind::TimestampTz,
    }
}

/// The datetime methods.
fn method_datetime_exec(cur: &ItemRef, m: Method) -> (r: Result<Item, EvalError>)
    ensures
        item_result(r) == method_datetime(item_ref_view(*cur), m),
{
    match cur {
        ItemRef::Json(JsonValue::String(s)) => match read_datetime(s.as_str(), kind_of(m)) {
            Some(v) => Ok(Item::DateTime(v)),
            None => Err(EvalError::InvalidDateTime(method_name(m), s.clone())),
        },
        _ => Err(EvalError::DateTimeTypeError(method_name(m))),
    }
}

/// An item method applied to one item, without unwrapping arrays.
fn method_on_exec(m: Method, cur: &ItemRef, lax: bool) -> (r: Result<Vec<Item>, EvalError>)
    ensures
        items_result(r) == method_on(m, item_ref_view(*cur), lax),
{
    match m {
        Method::Type => one(Ok(Item::Json(JsonValue::String(text(type_name_of(cur)))))),
        Method::Size => match cur {
            ItemRef::Json(JsonValue::Array(a)) => {
                proof {
                    lemma_array_view(*a);
                }
                int_items(a.len())
            },
            _ => if lax {
                int_items(1)
            } else {
                Err(EvalError::SizeNotArray)
            },
        },
        Method::Double => one(method_double_exec(cur)),
        Method::Ceiling | Method::Floor | Method::Abs => one(method_numeric_exec(m, cur)),
        Method::Keyvalue => method_keyvalue_exec(cur),
        Method::Bigint => one(method_integer_exec(cur, "bigint", i64::MIN, i64::MAX)),
        Method::Integer => one(method_integer_exec(cur, "integer", i32::MIN as i64, i32::MAX as i64)),
        Method::Decimal => one(method_number_exec(cur, "decimal")),
        Method::Number => one(method_number_exec(cur, "number")),
        Method::String => one(method_string_exec(cur)),
        Method::Boolean => one(method_boolean_exec(cur)),
        _ => one(method_datetime_exec(cur, m)),
    }
}

/// An item method applied to a JSON value, unwrapping arrays in lax mode.
fn method_json_exec(m: Method, j: &JsonValue, lax: bool) -> (r: Result<Vec<Item>, EvalError>)
    ensures
        items_result(r) == method_json(m, json_view(*j), lax),
    decreases j,
{
    match j {
        JsonValue::Array(a) => {
            if lax && m != Method::Size && m != Method::Type {
                let ghost av = json_view(*j)->Array_0;
                proof {
                    lemma_array_view(*a);
                }
                let mut out: Vec<Item> = Vec::new();
                let mut k: usize = 0;
                assert(out@.map_values(|x: Item| item_view(x)) =~= Seq::<SItem>::empty());
                while k < a.len()
                    invariant
                        *j == JsonValue::Array(*a),
                        av == json_view(*j)->Array_0,
                        av.len() == a@.len(),
                        forall|i: int| 0 <= i < a@.len() ==> #[trigger] av[i] == json_view(a@[i]),
                        lax && m != Method::Size && m != Method::Type,
                        k <= a.len(),
                        method_elems_from(m, av, 0, Seq::empty(), lax) == method_elems_from(
                            m,
                            av,
                            k as nat,
                            out@.map_values(|x: Item| item_view(x)),
                            lax,
                        ),
                    decreases a.len() - k,
                {
                    proof {
                        vstd::std_specs::vec::axiom_vec_index_decreases(*a, k as int);
                        assert(decreases_to!(*j => (*j)->Array_0));
                    }
                    match method_json_exec(m, &a[k], lax) {
                        Ok(s) => {
                            let mut s = s;
                            let ghost old_out = out@;
                            let ghost sv = s@;
                            out.append(&mut s);
                            assert(out@.map_values(|x: Item| item_view(x)) =~= old_out.map_values(
                                |x: Item| item_view(x),
                            ) + sv.map_values(|x: Item| item_view(x)));
                        },
                        Err(e) => {
                            return Err(e);
                        },
                    }
                    k = k + 1;
                }
                Ok(out)
            } else {
                method_on_exec(m, &ItemRef::Json(j), lax)
            }
        },
        _ => method_on_exec(m, &ItemRef::Json(j), lax),
    }
}

/// An item method applied to the current item.
pub fn eval_method(m: Method, cur: &ItemRef, lax: bool) -> (r: Result<Vec<Item>, EvalError>)
    ensures
        items_result(r) == sem_method(m, item_ref_view(*cur), lax),
{
    match cur {
        ItemRef::Json(j) => method_json_exec(m, j, lax),
        ItemRef::DateTime(_) => method_on_exec(m, cur, lax),
    }
}

} // verus!

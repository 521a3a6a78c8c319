//! What evaluating a JSON path gives: the meaning of every part of a path, over the
//! mathematical values of JSON documents.

use vstd::prelude::*;
use crate::ast::{
    AccessorOp, ArrayIndex, BinaryOp, ExprOrPredicate, Expr, JsonPath, Method, Mode, PathPrimary, Predicate,
    UnaryOp, Value,
};
use crate::compare::compare_product;
use crate::datetime::type_name_text;
use crate::dtparse::{DateTimeKind, parse_datetime};
use crate::error::ErrorView;
use crate::item::{SItem, item_json, items_json, truth_json};
use crate::json::{Json, object_lookup, is_prefix};
use crate::like_regex::LikeRegex;
use crate::number::{
    Number, spec_num_neg, spec_num_add, spec_num_sub, spec_num_mul, spec_num_div, spec_num_rem, spec_num_ceil,
    spec_num_floor, spec_num_abs, spec_num_to_i64, spec_num_round, num_is_zero,
};
use crate::strings::{trim, int_in_range, boolean_text, strip_plus};
use crate::text::{number_text, double_from_text, text_number};
use crate::truth::{Truth, truth_of, truth_and, truth_or, truth_not, truth_merge};
use crate::datetime::iso_text;

verus! {

/// What `serde_json::Number::from_str` gives for a text, written back with its `Display`;
/// `None` when it rejects the text.
pub uninterp spec fn serde_number_text(s: Seq<char>) -> Option<Seq<char>>;

/// Calls `serde_json::Number::from_str` and writes the number back with its `Display`;
/// the text is named by [`serde_number_text`].
#[verifier::external_body]
pub(crate) fn parse_serde_number(s: &str) -> (r: Option<String>)
    ensures
        match r {
            Some(t) => serde_number_text(s@) == Some(t@),
            None => serde_number_text(s@) is None,
        },
{
    match s.parse::<serde_json::Number>() {
        Ok(n) => Some(n.to_string()),
        Err(_) => None,
    }
}

/// The context of an evaluation.
pub struct Ctx {
    /// The item referenced by `@`.
    pub current: SItem,
    /// The document referenced by `$`.
    pub root: Json,
    /// The innermost array being subscripted, referenced by `last`.
    pub array: Json,
    /// The variables, referenced by `$name`.
    pub vars: Json,
    /// Whether the path is in lax mode.
    pub lax: bool,
    /// Whether only the first result is asked for.
    pub first: bool,
}

pub open spec fn with_current(c: Ctx, i: SItem) -> Ctx {
    Ctx { current: i, ..c }
}

pub open spec fn with_array(c: Ctx, a: Json) -> Ctx {
    Ctx { array: a, ..c }
}

pub open spec fn all_of(c: Ctx) -> Ctx {
    Ctx { first: false, ..c }
}

pub open spec fn first_of(c: Ctx) -> Ctx {
    Ctx { first: true, ..c }
}

/// Whether evaluation may stop at the first result (only in lax mode).
pub open spec fn is_first(c: Ctx) -> bool {
    c.first && c.lax
}

/// The value of a variable.
pub open spec fn var_lookup(vars: Json, name: Seq<char>) -> Option<Json> {
    match vars {
        Json::Object(es) => object_lookup(es, name),
        _ => None,
    }
}

/// The item of a scalar literal or variable.
pub open spec fn sem_value(v: Value, c: Ctx) -> Result<SItem, ErrorView> {
    match v {
        Value::Null => Ok(SItem::Json(Json::Null)),
        Value::Boolean(b) => Ok(SItem::Json(Json::Bool(b))),
        Value::Number(n) => Ok(SItem::Json(Json::Number(n))),
        Value::String(s) => Ok(SItem::Json(Json::String(s@))),
        Value::Variable(name) => match var_lookup(c.vars, name@) {
            Some(j) => Ok(SItem::Json(j)),
            None => Err(ErrorView::NoVariable(name@)),
        },
    }
}

/// An integer item, when the integer fits 64 bits.
pub open spec fn int_item(v: int) -> Result<Seq<SItem>, ErrorView> {
    if i64::MIN <= v <= i64::MAX {
        Ok(seq![SItem::Json(Json::Number(Number::Int(v as i64)))])
    } else {
        Err(ErrorView::NumericOutOfRange)
    }
}

/// The index of the last element of the array being subscripted (a scalar counts as an
/// array of one element).
pub open spec fn last_index(array: Json) -> int {
    match array {
        Json::Array(a) => a.len() - 1,
        _ => 0,
    }
}

/// The items of a sequence of JSON values.
pub open spec fn json_items(a: Seq<Json>) -> Seq<SItem> {
    Seq::new(a.len(), |i: int| SItem::Json(a[i]))
}

/// The values an accessor applies to: the elements of an array in lax mode, else the value.
pub open spec fn lax_items(j: Json, lax: bool) -> Seq<Json> {
    match j {
        Json::Array(a) => if lax {
            a
        } else {
            seq![j]
        },
        _ => seq![j],
    }
}

/// `.*` over values from `i` on: the member values of objects; anything else is an error,
/// which lax mode skips.
pub open spec fn member_wildcard_from(items: Seq<Json>, i: nat, acc: Seq<SItem>, lax: bool) -> Result<
    Seq<SItem>,
    ErrorView,
>
    decreases items.len() - i,
{
    if i >= items.len() {
        Ok(acc)
    } else {
        match items[i as int] {
            Json::Object(es) => member_wildcard_from(
                items,
                i + 1,
                acc + json_items(Seq::new(es.len(), |k: int| es[k].1)),
                lax,
            ),
            _ => if lax {
                member_wildcard_from(items, i + 1, acc, lax)
            } else {
                Err(ErrorView::WildcardMemberAccess)
            },
        }
    }
}

/// `.name` over a sequence of values: the member of each object, in order; a value that is
/// not an object, or an object without the member, is an error, which lax mode skips.
pub open spec fn members_over(name: Seq<char>, items: Seq<Json>, lax: bool) -> Result<Seq<SItem>, ErrorView>
    decreases items.len(),
{
    if items.len() == 0 {
        Ok(Seq::empty())
    } else {
        match members_over(name, items.drop_last(), lax) {
            Err(e) => Err(e),
            Ok(prev) => match items.last() {
                Json::Object(es) => match object_lookup(es, name) {
                    Some(v) => Ok(prev.push(SItem::Json(v))),
                    None => if lax {
                        Ok(prev)
                    } else {
                        Err(ErrorView::NoKey(name))
                    },
                },
                _ => if lax {
                    Ok(prev)
                } else {
                    Err(ErrorView::MemberAccess)
                },
            },
        }
    }
}

/// The number of elements of a subscripted value (a scalar counts as one).
pub open spec fn elem_count(t: Json) -> nat {
    match t {
        Json::Array(a) => a.len(),
        _ => 1,
    }
}

/// The element at an index of a subscripted value.
pub open spec fn elem_at(t: Json, i: int) -> Json {
    match t {
        Json::Array(a) => a[i],
        _ => t,
    }
}

/// The elements `b..e` of a subscripted value.
pub open spec fn elems_range(t: Json, b: int, e: int) -> Seq<SItem> {
    Seq::new((e - b) as nat, |k: int| SItem::Json(elem_at(t, b + k)))
}

/// The elements that one subscript `[i]` selects: none when out of bounds in lax mode.
pub open spec fn index_step(t: Json, v: i64, lax: bool) -> Result<Seq<SItem>, ErrorView> {
    if 0 <= v < elem_count(t) {
        Ok(seq![SItem::Json(elem_at(t, v as int))])
    } else if lax {
        Ok(Seq::empty())
    } else {
        Err(ErrorView::ArrayIndexOutOfBounds)
    }
}

/// The elements that one subscript `[b to e]` selects. In lax mode a negative start
/// counts as 0, a negative end selects nothing, and the range is cut at the end of the
/// array; in strict mode each of these is an error.
pub open spec fn slice_step(t: Json, vb: i64, ve: i64, lax: bool) -> Result<Seq<SItem>, ErrorView> {
    let n = elem_count(t) as int;
    let begin: int = if vb < 0 { 0 } else { vb as int };
    if vb < 0 && !lax {
        Err(ErrorView::ArrayIndexOutOfBounds)
    } else if ve < 0 {
        if lax {
            Ok(Seq::empty())
        } else {
            Err(ErrorView::ArrayIndexOutOfBounds)
        }
    } else if begin > ve {
        if lax {
            Ok(Seq::empty())
        } else {
            Err(ErrorView::ArrayIndexOutOfBounds)
        }
    } else if ve < n {
        Ok(elems_range(t, begin, ve + 1))
    } else if lax {
        if begin >= n {
            Ok(Seq::empty())
        } else {
            Ok(elems_range(t, begin, n))
        }
    } else {
        Err(ErrorView::ArrayIndexOutOfBounds)
    }
}

/// `+` or `-` applied to one JSON value.
pub open spec fn unary_json(op: UnaryOp, j: Json) -> Result<SItem, ErrorView> {
    match j {
        Json::Number(n) => match op {
            UnaryOp::Plus => Ok(SItem::Json(j)),
            UnaryOp::Minus => match spec_num_neg(n) {
                Some(r) => Ok(SItem::Json(Json::Number(r))),
                None => Err(ErrorView::NumericOutOfRange),
            },
        },
        _ => Err(ErrorView::UnaryOperandNotNumeric(op)),
    }
}

/// `+` or `-` applied to the elements of an array from `k` on.
pub open spec fn unary_elems_from(op: UnaryOp, a: Seq<Json>, k: nat, acc: Seq<SItem>) -> Result<
    Seq<SItem>,
    ErrorView,
>
    decreases a.len() - k,
{
    if k >= a.len() {
        Ok(acc)
    } else {
        match unary_json(op, a[k as int]) {
            Ok(x) => unary_elems_from(op, a, k + 1, acc.push(x)),
            Err(e) => Err(e),
        }
    }
}

/// `+` or `-` applied to the items from `i` on; lax mode applies it to the elements of arrays.
pub open spec fn unary_from(op: UnaryOp, set: Seq<SItem>, i: nat, acc: Seq<SItem>, lax: bool) -> Result<
    Seq<SItem>,
    ErrorView,
>
    decreases set.len() - i,
{
    if i >= set.len() {
        Ok(acc)
    } else {
        match set[i as int] {
            SItem::DateTime(_) => Err(ErrorView::UnaryOperandNotNumeric(op)),
            SItem::Json(j) => {
                let step = match j {
                    Json::Array(a) => if lax {
                        unary_elems_from(op, a, 0, acc)
                    } else {
                        match unary_json(op, j) {
                            Ok(x) => Ok(acc.push(x)),
                            Err(e) => Err(e),
                        }
                    },
                    _ => match unary_json(op, j) {
                        Ok(x) => Ok(acc.push(x)),
                        Err(e) => Err(e),
                    },
                };
                match step {
                    Ok(acc2) => unary_from(op, set, i + 1, acc2, lax),
                    Err(e) => Err(e),
                }
            },
        }
    }
}

/// A number result of an arithmetic operation, or the error it raises.
pub open spec fn number_result(o: Option<Number>) -> Result<Seq<SItem>, ErrorView> {
    match o {
        Some(n) => Ok(seq![SItem::Json(Json::Number(n))]),
        None => Err(ErrorView::NumericOutOfRange),
    }
}

/// A binary operation on two JSON values.
pub open spec fn binary_json(op: BinaryOp, l: Json, r: Json) -> Result<Seq<SItem>, ErrorView> {
    match (l, r) {
        (Json::Number(a), Json::Number(b)) => match op {
            BinaryOp::Add => number_result(spec_num_add(a, b)),
            BinaryOp::Sub => number_result(spec_num_sub(a, b)),
            BinaryOp::Mul => number_result(spec_num_mul(a, b)),
            BinaryOp::Div => if num_is_zero(b) {
                Err(ErrorView::DivisionByZero)
            } else {
                number_result(spec_num_div(a, b))
            },
            BinaryOp::Rem => if num_is_zero(b) {
                Err(ErrorView::DivisionByZero)
            } else {
                number_result(spec_num_rem(a, b))
            },
        },
        (Json::Number(_), _) => Err(ErrorView::RightOperandNotNumeric(op)),
        _ => Err(ErrorView::LeftOperandNotNumeric(op)),
    }
}

/// The operand that an item gives to a binary operation: lax mode unwraps an array of one
/// element; `None` for a datetime item or, in lax mode, an array of another size.
pub open spec fn operand(i: SItem, lax: bool) -> Option<Json> {
    match i {
        SItem::DateTime(_) => None,
        SItem::Json(j) => match j {
            Json::Array(a) => if lax {
                if a.len() == 1 {
                    Some(a[0])
                } else {
                    None
                }
            } else {
                Some(j)
            },
            _ => Some(j),
        },
    }
}

/// A binary operation on two sequences, each of which must hold a single number.
pub open spec fn binary_result(op: BinaryOp, ls: Seq<SItem>, rs: Seq<SItem>, lax: bool) -> Result<
    Seq<SItem>,
    ErrorView,
> {
    if ls.len() != 1 {
        Err(ErrorView::LeftOperandNotNumeric(op))
    } else if rs.len() != 1 {
        Err(ErrorView::RightOperandNotNumeric(op))
    } else {
        match operand(ls[0], lax) {
            None => Err(ErrorView::LeftOperandNotNumeric(op)),
            Some(l) => match operand(rs[0], lax) {
                None => Err(ErrorView::RightOperandNotNumeric(op)),
                Some(r) => binary_json(op, l, r),
            },
        }
    }
}

/// Whether an item is not a string: `starts with` and `like_regex` find it unknown.
pub open spec fn not_string(x: SItem) -> bool {
    !(x matches SItem::Json(Json::String(_)))
}

/// A test of strings over a sequence of items, as `starts with` and `like_regex` apply it:
/// in strict mode, unknown when any item is not a string, else true when some string passes;
/// in lax mode, the first item that is not a string (unknown) or that passes (true) decides;
/// false when no item does.
#[verifier::opaque]
pub open spec fn string_test_over(s: Seq<SItem>, pass: spec_fn(Seq<char>) -> bool, lax: bool) -> Truth {
    if lax {
        if exists|i: int|
            0 <= i < s.len() && !not_string(#[trigger] s[i]) && pass(s[i]->Json_0->String_0) && forall|j: int|
                0 <= j < i ==> !not_string(#[trigger] s[j]) {
            Truth::True
        } else if exists|i: int| 0 <= i < s.len() && not_string(#[trigger] s[i]) {
            Truth::Unknown
        } else {
            Truth::False
        }
    } else {
        if exists|i: int| 0 <= i < s.len() && not_string(#[trigger] s[i]) {
            Truth::Unknown
        } else if exists|i: int| 0 <= i < s.len() && !not_string(#[trigger] s[i]) && pass(s[i]->Json_0->String_0) {
            Truth::True
        } else {
            Truth::False
        }
    }
}

/// `starts with` over a sequence of items.
pub open spec fn starts_over(prefix: Seq<char>, s: Seq<SItem>, lax: bool) -> Truth {
    string_test_over(s, |x: Seq<char>| is_prefix(prefix, x), lax)
}

/// `like_regex` over a sequence of items.
pub open spec fn regex_over(re: LikeRegex, s: Seq<SItem>, lax: bool) -> Truth {
    string_test_over(s, |x: Seq<char>| re.spec_matches(x), lax)
}

/// The name of an item method, as written in a path.
pub open spec fn method_text(m: Method) -> Seq<char> {
    match m {
        Method::Type => "type"@,
        Method::Size => "size"@,
        Method::Double => "double"@,
        Method::Ceiling => "ceiling"@,
        Method::Floor => "floor"@,
        Method::Abs => "abs"@,
        Method::Keyvalue => "keyvalue"@,
        Method::Bigint => "bigint"@,
        Method::Integer => "integer"@,
        Method::Decimal => "decimal"@,
        Method::Number => "number"@,
        Method::String => "string"@,
        Method::Boolean => "boolean"@,
        Method::Date => "date"@,
        Method::Time => "time"@,
        Method::TimeTz => "time_tz"@,
        Method::Timestamp => "timestamp"@,
        Method::TimestampTz => "timestamp_tz"@,
    }
}

/// The SQL/JSON type name of an item.
pub open spec fn item_type_text(i: SItem) -> Seq<char> {
    match i {
        SItem::DateTime(d) => type_name_text(d),
        SItem::Json(Json::Null) => "null"@,
        SItem::Json(Json::Bool(_)) => "boolean"@,
        SItem::Json(Json::Number(_)) => "number"@,
        SItem::Json(Json::String(_)) => "string"@,
        SItem::Json(Json::Array(_)) => "array"@,
        SItem::Json(Json::Object(_)) => "object"@,
    }
}

/// A single item as a sequence.
pub open spec fn single(r: Result<SItem, ErrorView>) -> Result<Seq<SItem>, ErrorView> {
    match r {
        Ok(i) => Ok(seq![i]),
        Err(e) => Err(e),
    }
}

/// `.double()`: a number as it is, or the number written in a string.
pub open spec fn method_double(cur: SItem) -> Result<SItem, ErrorView> {
    match cur {
        SItem::Json(Json::String(s)) => match double_from_text(s) {
            Some(n) => Ok(SItem::Json(Json::Number(n))),
            None => Err(ErrorView::InvalidDouble),
        },
        SItem::Json(Json::Number(_)) => Ok(cur),
        _ => Err(ErrorView::DoubleTypeError),
    }
}

/// `.ceiling()`, `.floor()` and `.abs()`.
pub open spec fn method_numeric(m: Method, cur: SItem) -> Result<SItem, ErrorView> {
    match cur {
        SItem::Json(Json::Number(n)) => match m {
            Method::Ceiling => Ok(SItem::Json(Json::Number(spec_num_ceil(n)))),
            Method::Floor => Ok(SItem::Json(Json::Number(spec_num_floor(n)))),
            _ => match spec_num_abs(n) {
                Some(r) => Ok(SItem::Json(Json::Number(r))),
                None => Err(ErrorView::NumericOutOfRange),
            },
        },
        _ => Err(ErrorView::MethodNotNumeric(method_text(m))),
    }
}

/// `.keyvalue()`: one object `{"id": 0, "key": k, "value": v}` per member.
pub open spec fn keyvalue_items(es: Seq<(Seq<char>, Json)>) -> Seq<SItem> {
    Seq::new(
        es.len(),
        |i: int|
            SItem::Json(
                Json::Object(
                    seq![
                        ("id"@, Json::Number(Number::Int(0))),
                        ("key"@, Json::String(es[i].0)),
                        ("value"@, es[i].1),
                    ],
                ),
            ),
    )
}

/// `.bigint()` and `.integer()`: a number rounded half away from zero, or an integer
/// written in a string, within `lo..=hi`.
pub open spec fn method_integer(cur: SItem, name: Seq<char>, lo: int, hi: int) -> Result<SItem, ErrorView> {
    match cur {
        SItem::Json(Json::Number(n)) => match spec_num_round(n) {
            Some(v) => if lo <= v <= hi {
                Ok(SItem::Json(Json::Number(Number::Int(v))))
            } else {
                Err(ErrorView::InvalidConversion(number_text(n), name, name))
            },
            None => Err(ErrorView::InvalidConversion(number_text(n), name, name)),
        },
        SItem::Json(Json::String(s)) => match int_in_range(trim(s), lo, hi) {
            Some(v) => Ok(SItem::Json(Json::Number(Number::Int(v as i64)))),
            None => Err(ErrorView::InvalidConversion(s, name, name)),
        },
        _ => Err(ErrorView::NumericConversionType(name)),
    }
}

/// The number that a string converts to under `.number()` or `.decimal()`, given what
/// `serde_json` read from the trimmed string without a leading `+`.
pub open spec fn number_of_serde(parsed: Option<Seq<char>>, s: Seq<char>, name: Seq<char>) -> Result<
    Number,
    ErrorView,
> {
    match parsed {
        None => Err(ErrorView::InvalidConversion(s, name, "numeric"@)),
        Some(t) => match text_number(t) {
            Some(n) => Ok(n),
            None => Err(ErrorView::NumericOutOfRange),
        },
    }
}

/// `.number()` and `.decimal()`: a number as it is, or the number written in a string.
pub open spec fn method_number(cur: SItem, name: Seq<char>) -> Result<SItem, ErrorView> {
    match cur {
        SItem::Json(Json::Number(_)) => Ok(cur),
        SItem::Json(Json::String(s)) => match number_of_serde(serde_number_text(strip_plus(trim(s))), s, name) {
            Ok(n) => Ok(SItem::Json(Json::Number(n))),
            Err(e) => Err(e),
        },
        _ => Err(ErrorView::NumericConversionType(name)),
    }
}

/// `.boolean()`: a boolean as it is, a non-zero 32-bit integer, or a boolean spelled in a string.
pub open spec fn method_boolean(cur: SItem) -> Result<SItem, ErrorView> {
    match cur {
        SItem::Json(Json::Bool(b)) => Ok(cur),
        SItem::Json(Json::Number(n)) => match spec_num_round(n) {
            Some(v) => if i32::MIN <= v <= i32::MAX {
                Ok(SItem::Json(Json::Bool(v != 0)))
            } else {
                Err(ErrorView::InvalidConversion(number_text(n), "boolean"@, "boolean"@))
            },
            None => Err(ErrorView::InvalidConversion(number_text(n), "boolean"@, "boolean"@)),
        },
        SItem::Json(Json::String(s)) => match boolean_text(s) {
            Some(b) => Ok(SItem::Json(Json::Bool(b))),
            None => Err(ErrorView::InvalidConversion(s, "boolean"@, "boolean"@)),
        },
        _ => Err(ErrorView::BooleanTypeError),
    }
}

/// `.string()`: the text of a string, number, boolean or datetime item.
pub open spec fn method_string(cur: SItem) -> Result<SItem, ErrorView> {
    match cur {
        SItem::DateTime(d) => Ok(SItem::Json(Json::String(iso_text(d)))),
        SItem::Json(Json::String(_)) => Ok(cur),
        SItem::Json(Json::Number(n)) => Ok(SItem::Json(Json::String(number_text(n)))),
        SItem::Json(Json::Bool(b)) => Ok(SItem::Json(Json::String(if b { "true"@ } else { "false"@ }))),
        _ => Err(ErrorView::StringTypeError),
    }
}

/// The kind of datetime item a method asks for.
pub open spec fn method_kind(m: Method) -> DateTimeKind {
    match m {
        Method::Date => DateTimeKind::Date,
        Method::Time => DateTimeKind::Time,
        Method::TimeTz => DateTimeKind::TimeTz,
        Method::Timestamp => DateTimeKind::Timestamp,
        _ => DateTimeKind::TimestampTz,
    }
}

/// `.date()`, `.time()`, `.time_tz()`, `.timestamp()` and `.timestamp_tz()`.
pub open spec fn method_datetime(cur: SItem, m: Method) -> Result<SItem, ErrorView> {
    match cur {
        SItem::Json(Json::String(s)) => match parse_datetime(s, method_kind(m)) {
            Some(v) => Ok(SItem::DateTime(v)),
            None => Err(ErrorView::InvalidDateTime(method_text(m), s)),
        },
        _ => Err(ErrorView::DateTimeTypeError(method_text(m))),
    }
}

/// An item method applied to one item, without unwrapping arrays.
pub open spec fn method_on(m: Method, cur: SItem, lax: bool) -> Result<Seq<SItem>, ErrorView> {
    match m {
        Method::Type => Ok(seq![SItem::Json(Json::String(item_type_text(cur)))]),
        Method::Size => match cur {
            SItem::Json(Json::Array(a)) => int_item(a.len() as int),
            _ => if lax {
                int_item(1)
            } else {
                Err(ErrorView::SizeNotArray)
            },
        },
        Method::Double => single(method_double(cur)),
        Method::Ceiling => single(method_numeric(m, cur)),
        Method::Floor => single(method_numeric(m, cur)),
        Method::Abs => single(method_numeric(m, cur)),
        Method::Keyvalue => match cur {
            SItem::Json(Json::Object(es)) => Ok(keyvalue_items(es)),
            _ => Err(ErrorView::KeyValueNotObject),
        },
        Method::Bigint => single(method_integer(cur, "bigint"@, i64::MIN as int, i64::MAX as int)),
        Method::Integer => single(method_integer(cur, "integer"@, i32::MIN as int, i32::MAX as int)),
        Method::Decimal => single(method_number(cur, "decimal"@)),
        Method::Number => single(method_number(cur, "number"@)),
        Method::String => single(method_string(cur)),
        Method::Boolean => single(method_boolean(cur)),
        _ => single(method_datetime(cur, m)),
    }
}

/// An item method applied to a JSON value; lax mode applies every method but `.type()` and
/// `.size()` to the elements of an array.
pub open spec fn method_json(m: Method, j: Json, lax: bool) -> Result<Seq<SItem>, ErrorView>
    decreases j, 0nat,
{
    match j {
        Json::Array(a) => if lax && m != Method::Size && m != Method::Type {
            method_elems_from(m, a, 0, Seq::empty(), lax)
        } else {
            method_on(m, SItem::Json(j), lax)
        },
        _ => method_on(m, SItem::Json(j), lax),
    }
}

/// An item method applied to the elements of an array from `k` on.
pub open spec fn method_elems_from(m: Method, a: Seq<Json>, k: nat, acc: Seq<SItem>, lax: bool) -> Result<
    Seq<SItem>,
    ErrorView,
>
    decreases a, a.len() - k,
{
    if k >= a.len() {
        Ok(acc)
    } else {
        match method_json(m, a[k as int], lax) {
            Ok(s) => method_elems_from(m, a, k + 1, acc + s, lax),
            Err(e) => Err(e),
        }
    }
}

/// An item method applied to the current item.
pub open spec fn sem_method(m: Method, cur: SItem, lax: bool) -> Result<Seq<SItem>, ErrorView> {
    match cur {
        SItem::Json(j) => method_json(m, j, lax),
        SItem::DateTime(_) => method_on(m, cur, lax),
    }
}

/// The result of an expression or a predicate.
pub open spec fn sem_eop(e: ExprOrPredicate, c: Ctx) -> Result<Seq<SItem>, ErrorView>
    decreases e, 0nat,
{
    match e {
        ExprOrPredicate::Expr(x) => sem_expr(x, c),
        ExprOrPredicate::Pred(p) => match sem_pred(p, c) {
            Ok(t) => Ok(seq![SItem::Json(truth_json(t))]),
            Err(err) => Err(err),
        },
    }
}

/// The truth of a predicate. Errors of the expressions it tests give unknown, but for a
/// missing variable.
pub open spec fn sem_pred(p: Predicate, c: Ctx) -> Result<Truth, ErrorView>
    decreases p, 0nat,
{
    match p {
        Predicate::Compare(op, l, r) => match sem_expr(*l, all_of(c)) {
            Err(ErrorView::NoVariable(n)) => Err(ErrorView::NoVariable(n)),
            Err(_) => Ok(Truth::Unknown),
            Ok(ls) => match sem_expr(*r, all_of(c)) {
                Err(ErrorView::NoVariable(n)) => Err(ErrorView::NoVariable(n)),
                Err(_) => Ok(Truth::Unknown),
                Ok(rs) => Ok(compare_product(op, ls, rs, c.lax)),
            },
        },
        Predicate::Exists(x) => match sem_expr(*x, first_of(c)) {
            Err(ErrorView::NoVariable(n)) => Err(ErrorView::NoVariable(n)),
            Err(_) => Ok(Truth::Unknown),
            Ok(s) => Ok(truth_of(s.len() > 0)),
        },
        Predicate::And(a, b) => match sem_pred(*a, c) {
            Err(e) => Err(e),
            Ok(ta) => match sem_pred(*b, c) {
                Err(e) => Err(e),
                Ok(tb) => Ok(truth_and(ta, tb)),
            },
        },
        Predicate::Or(a, b) => match sem_pred(*a, c) {
            Err(e) => Err(e),
            Ok(ta) => match sem_pred(*b, c) {
                Err(e) => Err(e),
                Ok(tb) => Ok(truth_or(ta, tb)),
            },
        },
        Predicate::Not(a) => match sem_pred(*a, c) {
            Err(e) => Err(e),
            Ok(t) => Ok(truth_not(t)),
        },
        Predicate::IsUnknown(a) => match sem_pred(*a, c) {
            Err(e) => Err(e),
            Ok(t) => Ok(truth_of(t == Truth::Unknown)),
        },
        Predicate::StartsWith(x, v) => match sem_expr(*x, all_of(c)) {
            Err(ErrorView::NoVariable(n)) => Err(ErrorView::NoVariable(n)),
            Err(_) => Ok(Truth::Unknown),
            Ok(s) => match sem_value(v, c) {
                Err(e) => Err(e),
                Ok(SItem::Json(Json::String(prefix))) => Ok(starts_over(prefix, s, c.lax)),
                Ok(_) => Ok(Truth::Unknown),
            },
        },
        Predicate::LikeRegex(x, re) => match sem_expr(*x, all_of(c)) {
            Err(ErrorView::NoVariable(n)) => Err(ErrorView::NoVariable(n)),
            Err(_) => Ok(Truth::Unknown),
            Ok(s) => Ok(regex_over(*re, s, c.lax)),
        },
    }
}

/// The result of an expression.
pub open spec fn sem_expr(e: Expr, c: Ctx) -> Result<Seq<SItem>, ErrorView>
    decreases e, 0nat,
{
    match e {
        Expr::PathPrimary(p) => sem_primary(p, c),
        Expr::Accessor(base, op) => match sem_expr(*base, all_of(c)) {
            Err(err) => Err(err),
            Ok(set) => accessor_from(op, set, 0, Seq::empty(), c),
        },
        Expr::UnaryOp(op, x) => match sem_expr(*x, c) {
            Err(err) => Err(err),
            Ok(set) => unary_from(op, set, 0, Seq::empty(), c.lax),
        },
        Expr::BinaryOp(op, l, r) => match sem_expr(*l, c) {
            Err(err) => Err(err),
            Ok(ls) => match sem_expr(*r, c) {
                Err(err) => Err(err),
                Ok(rs) => binary_result(op, ls, rs, c.lax),
            },
        },
    }
}

/// The result of a primary expression.
pub open spec fn sem_primary(p: PathPrimary, c: Ctx) -> Result<Seq<SItem>, ErrorView>
    decreases p, 0nat,
{
    match p {
        PathPrimary::Root => Ok(seq![SItem::Json(c.root)]),
        PathPrimary::Current => Ok(seq![c.current]),
        PathPrimary::Last => int_item(last_index(c.array)),
        PathPrimary::Value(v) => single(sem_value(v, c)),
        PathPrimary::ExprOrPred(x) => sem_eop(*x, c),
    }
}

/// An accessor applied to each item from `i` on, the results concatenated; when only the
/// first result is asked for, it stops at the first item that gives any.
pub open spec fn accessor_from(op: AccessorOp, set: Seq<SItem>, i: nat, acc: Seq<SItem>, c: Ctx) -> Result<
    Seq<SItem>,
    ErrorView,
>
    decreases op, set.len() - i + 1,
{
    if i >= set.len() {
        Ok(acc)
    } else {
        match sem_accessor(op, with_current(c, set[i as int])) {
            Err(err) => Err(err),
            Ok(s) => {
                let acc2 = acc + s;
                if is_first(c) && acc2.len() > 0 {
                    Ok(acc2)
                } else {
                    accessor_from(op, set, i + 1, acc2, c)
                }
            },
        }
    }
}

/// `.*` applied to the current item.
pub open spec fn member_wildcard_result(c: Ctx) -> Result<Seq<SItem>, ErrorView> {
    match c.current {
        SItem::DateTime(_) => if c.lax {
            Ok(Seq::empty())
        } else {
            Err(ErrorView::WildcardMemberAccess)
        },
        SItem::Json(j) => member_wildcard_from(lax_items(j, c.lax), 0, Seq::empty(), c.lax),
    }
}

/// `[*]` applied to the current item.
pub open spec fn element_wildcard_result(c: Ctx) -> Result<Seq<SItem>, ErrorView> {
    match c.current {
        SItem::DateTime(_) => if c.lax {
            Ok(seq![c.current])
        } else {
            Err(ErrorView::WildcardArrayAccess)
        },
        SItem::Json(Json::Array(a)) => if is_first(c) {
            Ok(if a.len() > 0 { seq![SItem::Json(a[0])] } else { Seq::empty() })
        } else {
            Ok(json_items(a))
        },
        SItem::Json(j) => if c.lax {
            Ok(seq![SItem::Json(j)])
        } else {
            Err(ErrorView::WildcardArrayAccess)
        },
    }
}

/// `.name` applied to the current item.
pub open spec fn member_result(name: Seq<char>, c: Ctx) -> Result<Seq<SItem>, ErrorView> {
    match c.current {
        SItem::DateTime(_) => if c.lax {
            Ok(Seq::empty())
        } else {
            Err(ErrorView::MemberAccess)
        },
        SItem::Json(j) => members_over(name, lax_items(j, c.lax), c.lax),
    }
}

/// An accessor applied to the current item.
pub open spec fn sem_accessor(op: AccessorOp, c: Ctx) -> Result<Seq<SItem>, ErrorView>
    decreases op, 0nat,
{
    match op {
        AccessorOp::MemberWildcard => member_wildcard_result(c),
        AccessorOp::ElementWildcard => element_wildcard_result(c),
        AccessorOp::Member(name) => member_result(name@, c),
        AccessorOp::Element(indices) => element_result(indices@, c),
        AccessorOp::FilterExpr(pred) => filter_result(*pred, c),
        AccessorOp::Method(m) => sem_method(m, c.current, c.lax),
    }
}

/// The number of values a filter or subscript walks, for termination.
pub open spec fn walk_len(c: Ctx) -> nat {
    match c.current {
        SItem::Json(j) => lax_items(j, c.lax).len(),
        _ => 0,
    }
}

/// A subscript accessor `[...]` applied to the current item.
pub open spec fn element_result(indices: Seq<ArrayIndex>, c: Ctx) -> Result<Seq<SItem>, ErrorView>
    decreases indices, indices.len() + 2,
{
    match c.current {
        SItem::DateTime(_) => if c.lax {
            Ok(Seq::empty())
        } else {
            Err(ErrorView::ArrayAccess)
        },
        SItem::Json(j) => if !(j is Array) && !c.lax {
            Err(ErrorView::ArrayAccess)
        } else {
            index_from(indices, 0, Seq::empty(), c, j)
        },
    }
}

/// A filter accessor `?(...)` applied to the current item.
pub open spec fn filter_result(pred: Predicate, c: Ctx) -> Result<Seq<SItem>, ErrorView>
    decreases pred, walk_len(c) + 2,
{
    match c.current {
        SItem::DateTime(_) => match sem_pred(pred, c) {
            Err(err) => Err(err),
            Ok(t) => Ok(if t == Truth::True { seq![c.current] } else { Seq::empty() }),
        },
        SItem::Json(j) => filter_from(pred, lax_items(j, c.lax), 0, Seq::empty(), c),
    }
}

/// The values from `i` on that satisfy a filter; when only the first result is asked for,
/// it stops at the first one.
pub open spec fn filter_from(pred: Predicate, items: Seq<Json>, i: nat, acc: Seq<SItem>, c: Ctx) -> Result<
    Seq<SItem>,
    ErrorView,
>
    decreases pred, items.len() - i + 1,
{
    if i >= items.len() {
        Ok(acc)
    } else {
        match sem_pred(pred, with_current(c, SItem::Json(items[i as int]))) {
            Err(err) => Err(err),
            Ok(t) => if t == Truth::True {
                let acc2 = acc.push(SItem::Json(items[i as int]));
                if is_first(c) {
                    Ok(acc2)
                } else {
                    filter_from(pred, items, i + 1, acc2, c)
                }
            } else {
                filter_from(pred, items, i + 1, acc, c)
            },
        }
    }
}

/// What a filter accessor gives, by the kind of the current item.
pub proof fn lemma_filter_result(pred: Predicate, c: Ctx)
    ensures
        c.current is Json ==> filter_result(pred, c) == filter_from(
            pred,
            lax_items(c.current->Json_0, c.lax),
            0,
            Seq::empty(),
            c,
        ),
        c.current is DateTime ==> filter_result(pred, c) == (match sem_pred(pred, c) {
            Err(err) => Err(err),
            Ok(t) => Ok(if t == Truth::True { seq![c.current] } else { Seq::empty() }),
        }),
{
}

/// One step of [`filter_from`], given the truth of the filter on the value at `i`.
pub proof fn lemma_filter_step(
    pred: Predicate,
    items: Seq<Json>,
    i: nat,
    acc: Seq<SItem>,
    c: Ctx,
    t: Result<Truth, ErrorView>,
)
    requires
        i < items.len(),
        t == sem_pred(pred, with_current(c, SItem::Json(items[i as int]))),
    ensures
        match t {
            Err(e) => filter_from(pred, items, i, acc, c) == Err::<Seq<SItem>, ErrorView>(e),
            Ok(tt) => if tt == Truth::True {
                if is_first(c) {
                    filter_from(pred, items, i, acc, c) == Ok::<Seq<SItem>, ErrorView>(
                        acc.push(SItem::Json(items[i as int])),
                    )
                } else {
                    filter_from(pred, items, i, acc, c) == filter_from(
                        pred,
                        items,
                        i + 1,
                        acc.push(SItem::Json(items[i as int])),
                        c,
                    )
                }
            } else {
                filter_from(pred, items, i, acc, c) == filter_from(pred, items, i + 1, acc, c)
            },
        },
{
}

/// The integer value of a subscript expression (evaluated with `last` referring to the
/// subscripted value): a single number, truncated, within the range of JSON integers.
pub open spec fn index_value(e: Expr, c: Ctx) -> Result<i64, ErrorView>
    decreases e, 1nat,
{
    match sem_expr(e, c) {
        Err(err) => Err(err),
        Ok(s) => if s.len() != 1 {
            Err(ErrorView::ArrayIndexNotNumeric)
        } else {
            match s[0] {
                SItem::Json(Json::Number(n)) => match spec_num_to_i64(n) {
                    Some(v) => Ok(v),
                    None => Err(ErrorView::ArrayIndexOutOfRange),
                },
                _ => Err(ErrorView::ArrayIndexNotNumeric),
            }
        },
    }
}

/// The elements that the subscripts from `k` on select from `t`.
pub open spec fn index_from(idx: Seq<ArrayIndex>, k: nat, acc: Seq<SItem>, c: Ctx, t: Json) -> Result<
    Seq<SItem>,
    ErrorView,
>
    decreases idx, idx.len() - k + 1,
{
    if k >= idx.len() {
        Ok(acc)
    } else {
        let ca = with_array(c, t);
        let step = match idx[k as int] {
            ArrayIndex::Index(e) => match index_value(e, ca) {
                Err(err) => Err(err),
                Ok(v) => index_step(t, v, c.lax),
            },
            ArrayIndex::Slice(b, e) => match index_value(b, ca) {
                Err(err) => Err(err),
                Ok(vb) => match index_value(e, ca) {
                    Err(err) => Err(err),
                    Ok(ve) => slice_step(t, vb, ve, c.lax),
                },
            },
        };
        match step {
            Err(err) => Err(err),
            Ok(s) => index_from(idx, k + 1, acc + s, c, t),
        }
    }
}

/// The context in which a path is evaluated on a document.
pub open spec fn initial_ctx(root: Json, vars: Json, mode: Mode, first: bool) -> Ctx {
    Ctx { current: SItem::Json(root), root, array: Json::Null, vars, lax: mode == Mode::Lax, first }
}

/// The items a path gives on a document with variables.
pub open spec fn path_items(p: JsonPath, root: Json, vars: Json, first: bool) -> Result<Seq<SItem>, ErrorView> {
    sem_eop(p.expr, initial_ctx(root, vars, p.mode, first))
}

/// The JSON values a path gives on a document with variables.
pub open spec fn query_result(p: JsonPath, root: Json, vars: Json) -> Result<Seq<Json>, ErrorView> {
    match path_items(p, root, vars, false) {
        Ok(s) => Ok(items_json(s)),
        Err(e) => Err(e),
    }
}

/// The first JSON value a path gives on a document with variables, evaluated so that it
/// may stop at the first result.
pub open spec fn query_first_result(p: JsonPath, root: Json, vars: Json) -> Result<Option<Json>, ErrorView> {
    match path_items(p, root, vars, true) {
        Ok(s) => Ok(if s.len() > 0 { Some(item_json(s[0])) } else { None }),
        Err(e) => Err(e),
    }
}

} // verus!

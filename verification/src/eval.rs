//! Evaluation of JSON paths over JSON documents.

use vstd::prelude::*;
use crate::ast::{
    AccessorOp, ArrayIndex, BinaryOp, ExprOrPredicate, Expr, JsonPath, Mode, PathPrimary, Predicate, UnaryOp,
    Value,
};
use crate::compare::compare_sequences;
use crate::error::{EvalError, ErrorView, error_view, result_view};
use crate::item::{Item, ItemRef, SItem, item_view, item_ref_view, items_json, truth_to_json, items_into_json};
use crate::json::{JsonValue, Json, json_view, lemma_array_view, lemma_object_view, object_get, starts_with};
use crate::methods::{items_result, item_result, eval_method};
use crate::number::{Number, NumberExt};
use crate::sem::{
    Ctx, with_current, with_array, all_of, first_of, is_first, sem_value, lax_items, elem_count, elem_at,
    unary_json, unary_elems_from, unary_from, binary_json, operand, binary_result, int_item, last_index,
    starts_over, regex_over, string_test_over, not_string, sem_eop, sem_pred, sem_expr, sem_primary, accessor_from, sem_accessor,
    filter_from, lemma_filter_step, lemma_filter_result, element_wildcard_result, index_value, index_from,
    index_step, slice_step, elems_range, json_items, member_wildcard_from, members_over, initial_ctx,
    path_items, query_result, query_first_result,
};
use crate::truth::{Truth, truth_of, truth_merge};

verus! {

/// The views of a sequence of items.
pub open spec fn views(s: Seq<Item>) -> Seq<SItem> {
    s.map_values(|i: Item| item_view(i))
}

proof fn lemma_views_append(a: Seq<Item>, b: Seq<Item>)
    ensures
        views(a + b) == views(a) + views(b),
{
    assert(views(a + b) =~= views(a) + views(b));
}

proof fn lemma_views_push(a: Seq<Item>, x: Item)
    ensures
        views(a.push(x)) == views(a).push(item_view(x)),
{
    assert(views(a.push(x)) =~= views(a).push(item_view(x)));
}

/// Appends the items of `b` to `a`.
fn append_items(a: &mut Vec<Item>, b: Vec<Item>)
    ensures
        views(final(a)@) == views(old(a)@) + views(b@),
{
    let mut b = b;
    let ghost bv = b@;
    let ghost av = a@;
    a.append(&mut b);
    proof {
        lemma_views_append(av, bv);
    }
}

/// The values an accessor walks: the elements of an array, or a single value.
pub enum Source<'b> {
    Many(&'b Vec<JsonValue>),
    One(&'b JsonValue),
}

impl<'b> Source<'b> {
    pub open spec fn view(self) -> Seq<Json> {
        match self {
            Source::Many(v) => json_view(JsonValue::Array(*v))->Array_0,
            Source::One(j) => seq![json_view(*j)],
        }
    }

    fn count(&self) -> (n: usize)
        ensures
            n == self.view().len(),
    {
        match self {
            Source::Many(v) => {
                proof {
                    lemma_array_view(**v);
                }
                v.len()
            },
            Source::One(_) => 1,
        }
    }

    fn at(&self, i: usize) -> (r: &'b JsonValue)
        requires
            i < self.view().len(),
        ensures
            json_view(*r) == self.view()[i as int],
    {
        match self {
            Source::Many(v) => {
                proof {
                    lemma_array_view(**v);
                }
                &v[i]
            },
            Source::One(j) => *j,
        }
    }
}

/// The values an accessor applies to (see [`lax_items`]).
fn lax_source<'b>(j: &'b JsonValue, lax: bool) -> (s: Source<'b>)
    ensures
        s.view() == lax_items(json_view(*j), lax),
{
    match j {
        JsonValue::Array(a) => if lax {
            Source::Many(a)
        } else {
            Source::One(j)
        },
        _ => Source::One(j),
    }
}

/// The elements of a subscripted value (a scalar is its only element).
fn element_source<'b>(j: &'b JsonValue) -> (s: Source<'b>)
    ensures
        s.view().len() == elem_count(json_view(*j)),
        forall|i: int| 0 <= i < s.view().len() ==> #[trigger] s.view()[i] == elem_at(json_view(*j), i),
{
    match j {
        JsonValue::Array(a) => Source::Many(a),
        _ => Source::One(j),
    }
}

/// The context of an evaluation.
#[derive(Clone, Copy)]
pub struct Evaluator<'a> {
    /// The item referenced by `@`.
    pub current: ItemRef<'a>,
    /// The document referenced by `$`.
    pub root: &'a JsonValue,
    /// The innermost array being subscripted, referenced by `last`.
    pub array: &'a JsonValue,
    /// The variables.
    pub vars: &'a JsonValue,
    /// Whether the path is in lax mode.
    pub lax: bool,
    /// Whether only the first result is asked for.
    pub first: bool,
}

impl<'a> Evaluator<'a> {
    /// The context as a mathematical value.
    pub open spec fn ctx(self) -> Ctx {
        Ctx {
            current: item_ref_view(self.current),
            root: json_view(*self.root),
            array: json_view(*self.array),
            vars: json_view(*self.vars),
            lax: self.lax,
            first: self.first,
        }
    }

    /// Whether evaluation may stop at the first result.
    fn is_first(&self) -> (b: bool)
        ensures
            b == is_first(self.ctx()),
    {
        self.first && self.lax
    }

    /// The same context, asking for every result.
    fn all(&self) -> (r: Evaluator<'a>)
        ensures
            r.ctx() == all_of(self.ctx()),
    {
        Evaluator { current: self.current, root: self.root, array: self.array, vars: self.vars, lax: self.lax, first: false }
    }

    /// The same context, asking for the first result only.
    fn first_only(&self) -> (r: Evaluator<'a>)
        ensures
            r.ctx() == first_of(self.ctx()),
    {
        Evaluator { current: self.current, root: self.root, array: self.array, vars: self.vars, lax: self.lax, first: true }
    }

    /// The same context with another current item.
    fn with_current<'b>(&self, current: ItemRef<'b>) -> (r: Evaluator<'b>) where 'a: 'b
        ensures
            r.ctx() == with_current(self.ctx(), item_ref_view(current)),
    {
        Evaluator { current, root: self.root, array: self.array, vars: self.vars, lax: self.lax, first: self.first }
    }

    /// The same context with another subscripted array.
    fn with_array<'b>(&self, array: &'b JsonValue) -> (r: Evaluator<'b>) where 'a: 'b
        ensures
            r.ctx() == with_array(self.ctx(), json_view(*array)),
    {
        Evaluator { current: self.current, root: self.root, array, vars: self.vars, lax: self.lax, first: self.first }
    }
}

/// The item of a scalar literal or variable.
fn eval_value(ev: Evaluator, v: &Value) -> (r: Result<Item, EvalError>)
    ensures
        item_result(r) == sem_value(*v, ev.ctx()),
{
    match v {
        Value::Null => Ok(Item::Json(JsonValue::Null)),
        Value::Boolean(b) => Ok(Item::Json(JsonValue::Bool(*b))),
        Value::Number(n) => Ok(Item::Json(JsonValue::Number(*n))),
        Value::String(s) => Ok(Item::Json(JsonValue::String(s.clone()))),
        Value::Variable(name) => match ev.vars {
            JsonValue::Object(es) => match object_get(es, name) {
                Some(x) => Ok(Item::Json(x.copy())),
                None => Err(EvalError::NoVariable(name.clone())),
            },
            _ => Err(EvalError::NoVariable(name.clone())),
        },
    }
}

/// `+` or `-` applied to one JSON value.
fn unary_value(op: UnaryOp, j: &JsonValue) -> (r: Result<Item, EvalError>)
    ensures
        item_result(r) == unary_json(op, json_view(*j)),
{
    match j {
        JsonValue::Number(n) => match op {
            UnaryOp::Plus => Ok(Item::Json(JsonValue::Number(*n))),
            UnaryOp::Minus => Ok(Item::Json(JsonValue::Number(n.neg()))),
        },
        _ => Err(EvalError::UnaryOperandNotNumeric(op)),
    }
}

/// `+` or `-` applied to every item; lax mode applies it to the elements of arrays.
fn eval_unary(op: UnaryOp, set: &Vec<Item>, lax: bool) -> (r: Result<Vec<Item>, EvalError>)
    ensures
        items_result(r) == unary_from(op, views(set@), 0, Seq::empty(), lax),
{
    let ghost sv = views(set@);
    let mut out: Vec<Item> = Vec::new();
    let mut i: usize = 0;
    assert(views(out@) =~= Seq::<SItem>::empty());
    while i < set.len()
        invariant
            i <= set.len(),
            sv == views(set@),
            unary_from(op, sv, 0, Seq::empty(), lax) == unary_from(op, sv, i as nat, views(out@), lax),
        decreases set.len() - i,
    {
        assert(sv[i as int] == item_view(set@[i as int]));
        match &set[i] {
            Item::DateTime(_) => {
                return Err(EvalError::UnaryOperandNotNumeric(op));
            },
            Item::Json(j) => {
                match j {
                    JsonValue::Array(a) => {
                        if lax {
                            let ghost av = json_view(*j)->Array_0;
                            proof {
                                lemma_array_view(*a);
                            }
                            let ghost acc0 = views(out@);
                            let mut k: usize = 0;
                            while k < a.len()
                                invariant
                                    k <= a.len(),
                                    av == json_view(JsonValue::Array(*a))->Array_0,
                                    av.len() == a@.len(),
                                    forall|x: int| 0 <= x < a@.len() ==> #[trigger] av[x] == json_view(a@[x]),
                                    unary_elems_from(op, av, 0, acc0) == unary_elems_from(op, av, k as nat, views(out@)),
                                    i < set.len(),
                                    sv == views(set@),
                                    sv[i as int] == SItem::Json(Json::Array(av)),
                                    lax,
                                    unary_from(op, sv, 0, Seq::empty(), lax) == unary_from(op, sv, i as nat, acc0, lax),
                                decreases a.len() - k,
                            {
                                match unary_value(op, &a[k]) {
                                    Ok(x) => {
                                        proof {
                                            lemma_views_push(out@, x);
                                        }
                                        out.push(x);
                                    },
                                    Err(e) => {
                                        return Err(e);
                                    },
                                }
                                k = k + 1;
                            }
                        } else {
                            match unary_value(op, j) {
                                Ok(x) => {
                                    proof {
                                        lemma_views_push(out@, x);
                                    }
                                    out.push(x);
                                },
                                Err(e) => {
                                    return Err(e);
                                },
                            }
                        }
                    },
                    _ => {
                        match unary_value(op, j) {
                            Ok(x) => {
                                proof {
                                    lemma_views_push(out@, x);
                                }
                                out.push(x);
                            },
                            Err(e) => {
                                return Err(e);
                            },
                        }
                    },
                }
            },
        }
        i = i + 1;
    }
    Ok(out)
}

/// A number result as an item vector.
fn number_items(r: Result<Number, EvalError>) -> (v: Result<Vec<Item>, EvalError>)
    ensures
        items_result(v) == (match r {
            Ok(n) => Ok(seq![SItem::Json(Json::Number(n))]),
            Err(e) => Err(error_view(e)),
        }),
{
    match r {
        Ok(n) => {
            let v = vec![Item::Json(JsonValue::Number(n))];
            assert(views(v@) =~= seq![SItem::Json(Json::Number(n))]);
            Ok(v)
        },
        Err(e) => Err(e),
    }
}

/// A binary operation on two JSON values.
fn binary_values(op: BinaryOp, l: &JsonValue, r: &JsonValue) -> (res: Result<Vec<Item>, EvalError>)
    ensures
        items_result(res) == binary_json(op, json_view(*l), json_view(*r)),
{
    match (l, r) {
        (JsonValue::Number(a), JsonValue::Number(b)) => match op {
            BinaryOp::Add => number_items(a.add(b)),
            BinaryOp::Sub => number_items(a.sub(b)),
            BinaryOp::Mul => number_items(a.mul(b)),
            BinaryOp::Div => number_items(a.div(b)),
            BinaryOp::Rem => number_items(a.rem(b)),
        },
        (JsonValue::Number(_), _) => Err(EvalError::RightOperandNotNumeric(op)),
        _ => Err(EvalError::LeftOperandNotNumeric(op)),
    }
}

/// The operand that an item gives to a binary operation (see [`operand`]).
fn operand_of<'b>(i: &'b Item, lax: bool) -> (r: Option<&'b JsonValue>)
    ensures
        match r {
            Some(j) => operand(item_view(*i), lax) == Some(json_view(*j)),
            None => operand(item_view(*i), lax) is None,
        },
{
    match i {
        Item::DateTime(_) => None,
        Item::Json(j) => match j {
            JsonValue::Array(a) => {
                proof {
                    lemma_array_view(*a);
                }
                if lax {
                    if a.len() == 1 {
                        Some(&a[0])
                    } else {
                        None
                    }
                } else {
                    Some(j)
                }
            },
            _ => Some(j),
        },
    }
}

/// A binary operation on two sequences (see [`binary_result`]).
fn eval_binary(op: BinaryOp, ls: &Vec<Item>, rs: &Vec<Item>, lax: bool) -> (r: Result<Vec<Item>, EvalError>)
    ensures
        items_result(r) == binary_result(op, views(ls@), views(rs@), lax),
{
    if ls.len() != 1 {
        return Err(EvalError::LeftOperandNotNumeric(op));
    }
    if rs.len() != 1 {
        return Err(EvalError::RightOperandNotNumeric(op));
    }
    assert(views(ls@)[0] == item_view(ls@[0]));
    assert(views(rs@)[0] == item_view(rs@[0]));
    let l = match operand_of(&ls[0], lax) {
        Some(j) => j,
        None => {
            return Err(EvalError::LeftOperandNotNumeric(op));
        },
    };
    let r = match operand_of(&rs[0], lax) {
        Some(j) => j,
        None => {
            return Err(EvalError::RightOperandNotNumeric(op));
        },
    };
    binary_values(op, l, r)
}

/// The last index of the array being subscripted.
fn eval_last(array: &JsonValue) -> (r: Result<Vec<Item>, EvalError>)
    ensures
        items_result(r) == int_item(last_index(json_view(*array))),
{
    match array {
        JsonValue::Array(a) => {
            proof {
                lemma_array_view(*a);
            }
            let n = a.len() as u128;
            if n <= i64::MAX as u128 + 1 {
                let v: i64 = (n as i128 - 1) as i64;
                let out = vec![Item::Json(JsonValue::Number(Number::Int(v)))];
                assert(views(out@) =~= seq![SItem::Json(Json::Number(Number::Int(v)))]);
                Ok(out)
            } else {
                Err(EvalError::NumericOutOfRange)
            }
        },
        _ => {
            let out = vec![Item::Json(JsonValue::Number(Number::Int(0)))];
            assert(views(out@) =~= seq![SItem::Json(Json::Number(Number::Int(0)))]);
            Ok(out)
        },
    }
}

/// A missing variable passes through a predicate; every other error makes it unknown.
fn lax_error(e: EvalError) -> (r: Result<Truth, EvalError>)
    ensures
        result_view(r) == (match error_view(e) {
            ErrorView::NoVariable(n) => Err(ErrorView::NoVariable(n)),
            _ => Ok(Truth::Unknown),
        }),
{
    match e {
        EvalError::NoVariable(_) => Err(e),
        _ => Ok(Truth::Unknown),
    }
}

/// A test of strings over the items from `i` on, folded into the truth `acc` of those
/// before, stopping where the result is settled.
spec fn test_fold(s: Seq<SItem>, pass: spec_fn(Seq<char>) -> bool, i: nat, acc: Truth, lax: bool) -> Truth
    decreases s.len() - i,
{
    if i >= s.len() {
        acc
    } else {
        let res = if not_string(s[i as int]) {
            Truth::Unknown
        } else {
            truth_of(pass(s[i as int]->Json_0->String_0))
        };
        let acc2 = truth_merge(acc, res);
        if acc2 == Truth::Unknown || (acc2 == Truth::True && lax) {
            acc2
        } else {
            test_fold(s, pass, i + 1, acc2, lax)
        }
    }
}

/// Folding a test from the start gives the test over the sequence.
proof fn lemma_test_fold(s: Seq<SItem>, pass: spec_fn(Seq<char>) -> bool, i: nat, acc: Truth, lax: bool)
    requires
        i <= s.len(),
        forall|j: int| 0 <= j < i ==> !not_string(#[trigger] s[j]),
        lax ==> forall|j: int| 0 <= j < i ==> !pass(#[trigger] s[j]->Json_0->String_0),
        acc == truth_of(exists|j: int| 0 <= j < i && pass(#[trigger] s[j]->Json_0->String_0)),
    ensures
        test_fold(s, pass, i, acc, lax) == string_test_over(s, pass, lax),
    decreases s.len() - i,
{
    reveal(string_test_over);
    if i < s.len() {
        let x = s[i as int];
        if not_string(x) {
            assert(exists|k: int| 0 <= k < s.len() && not_string(#[trigger] s[k])) by {
                assert(not_string(s[i as int]));
            }
            if lax {
                assert forall|k: int|
                    0 <= k < s.len() && !not_string(#[trigger] s[k]) && pass(s[k]->Json_0->String_0) implies !(
                forall|j: int| 0 <= j < k ==> !not_string(#[trigger] s[j])) by {
                    if k < i {
                        assert(!pass(s[k]->Json_0->String_0));
                    } else {
                        assert(k != i);
                        assert(not_string(s[i as int]));
                    }
                }
            }
        } else if pass(x->Json_0->String_0) {
            if lax {
                assert(forall|j: int| 0 <= j < i ==> !not_string(#[trigger] s[j]));
                assert(!not_string(s[i as int]) && pass(s[i as int]->Json_0->String_0));
            } else {
                assert(exists|j: int| 0 <= j < i + 1 && pass(#[trigger] s[j]->Json_0->String_0)) by {
                    assert(pass(s[i as int]->Json_0->String_0));
                }
                lemma_test_fold(s, pass, i + 1, Truth::True, lax);
            }
        } else {
            assert((exists|j: int| 0 <= j < i + 1 && pass(#[trigger] s[j]->Json_0->String_0)) == (exists|j: int|
                0 <= j < i && pass(#[trigger] s[j]->Json_0->String_0))) by {
                if exists|j: int| 0 <= j < i + 1 && pass(#[trigger] s[j]->Json_0->String_0) {
                    let j = choose|j: int| 0 <= j < i + 1 && pass(#[trigger] s[j]->Json_0->String_0);
                    assert(j != i);
                }
            }
            lemma_test_fold(s, pass, i + 1, acc, lax);
        }
    } else {
        if lax {
            assert forall|k: int|
                0 <= k < s.len() && !not_string(#[trigger] s[k]) implies !pass(s[k]->Json_0->String_0) by {}
        }
        if !lax && (exists|j: int| 0 <= j < s.len() && !not_string(#[trigger] s[j]) && pass(s[j]->Json_0->String_0)) {
            let j = choose|j: int| 0 <= j < s.len() && !not_string(#[trigger] s[j]) && pass(s[j]->Json_0->String_0);
            assert(pass(s[j]->Json_0->String_0));
        }
    }
}

/// `starts with` over a sequence.
fn eval_starts_with(prefix: &String, set: &Vec<Item>, lax: bool) -> (t: Truth)
    ensures
        t == starts_over(prefix@, views(set@), lax),
{
    let ghost sv = views(set@);
    let ghost pass = |x: Seq<char>| crate::json::is_prefix(prefix@, x);
    let mut result = Truth::False;
    let mut i: usize = 0;
    proof {
        lemma_test_fold(sv, pass, 0, Truth::False, lax);
    }
    while i < set.len()
        invariant
            i <= set.len(),
            sv == views(set@),
            pass == (|x: Seq<char>| crate::json::is_prefix(prefix@, x)),
            test_fold(sv, pass, 0, Truth::False, lax) == test_fold(sv, pass, i as nat, result, lax),
            test_fold(sv, pass, 0, Truth::False, lax) == starts_over(prefix@, sv, lax),
        decreases set.len() - i,
    {
        assert(sv[i as int] == item_view(set@[i as int]));
        let res = match &set[i] {
            Item::Json(JsonValue::String(s)) => Truth::from_bool(starts_with(s, prefix)),
            _ => Truth::Unknown,
        };
        result = result.merge(res);
        if result.is_unknown() || (result.is_true() && lax) {
            return result;
        }
        i = i + 1;
    }
    result
}

/// `like_regex` over a sequence.
fn eval_like_regex(re: &crate::like_regex::LikeRegex, set: &Vec<Item>, lax: bool) -> (t: Truth)
    ensures
        t == regex_over(*re, views(set@), lax),
{
    let ghost sv = views(set@);
    let ghost pass = |x: Seq<char>| re.spec_matches(x);
    let mut result = Truth::False;
    let mut i: usize = 0;
    proof {
        lemma_test_fold(sv, pass, 0, Truth::False, lax);
    }
    while i < set.len()
        invariant
            i <= set.len(),
            sv == views(set@),
            pass == (|x: Seq<char>| re.spec_matches(x)),
            test_fold(sv, pass, 0, Truth::False, lax) == test_fold(sv, pass, i as nat, result, lax),
            test_fold(sv, pass, 0, Truth::False, lax) == regex_over(*re, sv, lax),
        decreases set.len() - i,
    {
        assert(sv[i as int] == item_view(set@[i as int]));
        let res = match &set[i] {
            Item::Json(JsonValue::String(s)) => Truth::from_bool(re.is_match(s.as_str())),
            _ => Truth::Unknown,
        };
        result = result.merge(res);
        if result.is_unknown() || (result.is_true() && lax) {
            return result;
        }
        i = i + 1;
    }
    result
}


/// An empty result.
fn no_items() -> (r: Result<Vec<Item>, EvalError>)
    ensures
        items_result(r) == Ok::<Seq<SItem>, ErrorView>(Seq::empty()),
{
    let v: Vec<Item> = Vec::new();
    assert(views(v@) =~= Seq::<SItem>::empty());
    Ok(v)
}

/// A result of one item.
fn one_item(i: Item) -> (r: Result<Vec<Item>, EvalError>)
    ensures
        items_result(r) == Ok::<Seq<SItem>, ErrorView>(seq![item_view(i)]),
{
    let v = vec![i];
    assert(views(v@) =~= seq![item_view(v@[0])]);
    Ok(v)
}

/// `.*` applied to the current JSON value.
fn eval_member_wildcard(j: &JsonValue, lax: bool) -> (r: Result<Vec<Item>, EvalError>)
    ensures
        items_result(r) == member_wildcard_from(lax_items(json_view(*j), lax), 0, Seq::empty(), lax),
{
    let src = lax_source(j, lax);
    let ghost items = src.view();
    assert(items == lax_items(json_view(*j), lax));
    let mut acc: Vec<Item> = Vec::new();
    let mut i: usize = 0;
    assert(views(acc@) =~= Seq::<SItem>::empty());
    while i < src.count()
        invariant
            items == src.view(),
            items == lax_items(json_view(*j), lax),
            i <= items.len(),
            member_wildcard_from(items, 0, Seq::empty(), lax) == member_wildcard_from(items, i as nat, views(acc@), lax),
        decreases items.len() - i,
    {
        match src.at(i) {
            JsonValue::Object(es) => {
                let ghost ev = json_view(JsonValue::Object(*es))->Object_0;
                let ghost vals = json_items(Seq::new(ev.len(), |k: int| ev[k].1));
                let ghost acc0 = views(acc@);
                proof {
                    lemma_object_view(*es);
                }
                let mut k: usize = 0;
                while k < es.len()
                    invariant
                        k <= es.len(),
                        ev == json_view(JsonValue::Object(*es))->Object_0,
                        ev.len() == es@.len(),
                        forall|x: int| 0 <= x < es@.len() ==> #[trigger] ev[x] == (es@[x].0@, json_view(es@[x].1)),
                        vals == json_items(Seq::new(ev.len(), |x: int| ev[x].1)),
                        views(acc@) == acc0 + vals.subrange(0, k as int),
                    decreases es.len() - k,
                {
                    let c = es[k].1.copy();
                    proof {
                        lemma_views_push(acc@, Item::Json(c));
                    }
                    acc.push(Item::Json(c));
                    k = k + 1;
                    assert(vals.subrange(0, k as int) =~= vals.subrange(0, k - 1).push(SItem::Json(json_view(c))));
                }
                assert(vals.subrange(0, es.len() as int) =~= vals);
            },
            _ => {
                if !lax {
                    return Err(EvalError::WildcardMemberAccess);
                }
            },
        }
        i = i + 1;
    }
    Ok(acc)
}

/// Copies of the elements of an array.
fn copy_elements(a: &Vec<JsonValue>) -> (r: Vec<Item>)
    ensures
        views(r@) == json_items(json_view(JsonValue::Array(*a))->Array_0),
{
    let ghost av = json_view(JsonValue::Array(*a))->Array_0;
    proof {
        lemma_array_view(*a);
    }
    let mut out: Vec<Item> = Vec::new();
    let mut k: usize = 0;
    while k < a.len()
        invariant
            k <= a.len(),
            av == json_view(JsonValue::Array(*a))->Array_0,
            av.len() == a@.len(),
            forall|x: int| 0 <= x < a@.len() ==> #[trigger] av[x] == json_view(a@[x]),
            views(out@) == json_items(av).subrange(0, k as int),
        decreases a.len() - k,
    {
        let c = a[k].copy();
        proof {
            lemma_views_push(out@, Item::Json(c));
        }
        out.push(Item::Json(c));
        k = k + 1;
        assert(views(out@) =~= json_items(av).subrange(0, k as int));
    }
    assert(json_items(av).subrange(0, a.len() as int) =~= json_items(av));
    out
}

/// `[*]` applied to the current item.
fn eval_element_wildcard(ev: Evaluator) -> (r: Result<Vec<Item>, EvalError>)
    ensures
        items_result(r) == element_wildcard_result(ev.ctx()),
{
    match ev.current {
        ItemRef::DateTime(d) => if ev.lax {
            one_item(Item::DateTime(d))
        } else {
            Err(EvalError::WildcardArrayAccess)
        },
        ItemRef::Json(j) => match j {
            JsonValue::Array(a) => {
                proof {
                    lemma_array_view(*a);
                }
                if ev.is_first() {
                    if a.len() > 0 {
                        one_item(Item::Json(a[0].copy()))
                    } else {
                        no_items()
                    }
                } else {
                    Ok(copy_elements(a))
                }
            },
            _ => if ev.lax {
                one_item(Item::Json(j.copy()))
            } else {
                Err(EvalError::WildcardArrayAccess)
            },
        },
    }
}

/// Once the values before a place give an error, the values after it change nothing.
proof fn lemma_members_error(name: Seq<char>, items: Seq<Json>, lax: bool, i: nat, j: nat)
    requires
        i <= j <= items.len(),
        members_over(name, items.take(i as int), lax) is Err,
    ensures
        members_over(name, items.take(j as int), lax) == members_over(name, items.take(i as int), lax),
    decreases j - i,
{
    if j > i {
        lemma_members_error(name, items, lax, i, (j - 1) as nat);
        assert(items.take(j as int).drop_last() =~= items.take(j - 1));
    }
}

/// `.name` applied to the current JSON value.
fn eval_member(name: &String, j: &JsonValue, lax: bool) -> (r: Result<Vec<Item>, EvalError>)
    ensures
        items_result(r) == members_over(name@, lax_items(json_view(*j), lax), lax),
{
    let src = lax_source(j, lax);
    let ghost items = src.view();
    let mut acc: Vec<Item> = Vec::new();
    let mut i: usize = 0;
    assert(views(acc@) =~= Seq::<SItem>::empty());
    assert(items.take(0) =~= Seq::<Json>::empty());
    while i < src.count()
        invariant
            items == src.view(),
            items == lax_items(json_view(*j), lax),
            i <= items.len(),
            members_over(name@, items.take(i as int), lax) == Ok::<Seq<SItem>, ErrorView>(views(acc@)),
        decreases items.len() - i,
    {
        let ghost prev = views(acc@);
        assert(items.take(i + 1 as int).drop_last() =~= items.take(i as int));
        assert(items.take(i + 1 as int).last() == items[i as int]);
        assert(items.take(items.len() as int) =~= items);
        match src.at(i) {
            JsonValue::Object(es) => match object_get(es, name) {
                Some(x) => {
                    let c = x.copy();
                    proof {
                        lemma_views_push(acc@, Item::Json(c));
                    }
                    acc.push(Item::Json(c));
                },
                None => {
                    if !lax {
                        proof {
                            lemma_members_error(name@, items, lax, (i + 1) as nat, items.len());
                        }
                        return Err(EvalError::NoKey(name.clone()));
                    }
                },
            },
            _ => {
                if !lax {
                    proof {
                        lemma_members_error(name@, items, lax, (i + 1) as nat, items.len());
                    }
                    return Err(EvalError::MemberAccess);
                }
            },
        }
        i = i + 1;
    }
    assert(items.take(i as int) =~= items);
    Ok(acc)
}

/// The elements that one subscript `[i]` selects.
fn select_index(src: &Source, t: &JsonValue, v: i64, lax: bool) -> (r: Result<Vec<Item>, EvalError>)
    requires
        src.view().len() == elem_count(json_view(*t)),
        forall|i: int| 0 <= i < src.view().len() ==> #[trigger] src.view()[i] == elem_at(json_view(*t), i),
    ensures
        items_result(r) == index_step(json_view(*t), v, lax),
{
    let n = src.count();
    if 0 <= v && (v as u64 as u128) < n as u128 {
        let e = src.at(v as usize);
        one_item(Item::Json(e.copy()))
    } else if lax {
        no_items()
    } else {
        Err(EvalError::ArrayIndexOutOfBounds)
    }
}

/// The elements `b..e` of a subscripted value.
fn copy_range(src: &Source, t: &JsonValue, b: usize, e: usize) -> (r: Vec<Item>)
    requires
        src.view().len() == elem_count(json_view(*t)),
        forall|i: int| 0 <= i < src.view().len() ==> #[trigger] src.view()[i] == elem_at(json_view(*t), i),
        b <= e <= src.view().len(),
    ensures
        views(r@) == elems_range(json_view(*t), b as int, e as int),
{
    let mut out: Vec<Item> = Vec::new();
    let mut k = b;
    assert(views(out@) =~= elems_range(json_view(*t), b as int, b as int));
    while k < e
        invariant
            src.view().len() == elem_count(json_view(*t)),
            forall|i: int| 0 <= i < src.view().len() ==> #[trigger] src.view()[i] == elem_at(json_view(*t), i),
            b <= k <= e <= src.view().len(),
            views(out@) == elems_range(json_view(*t), b as int, k as int),
        decreases e - k,
    {
        let c = src.at(k).copy();
        proof {
            lemma_views_push(out@, Item::Json(c));
        }
        out.push(Item::Json(c));
        k = k + 1;
        assert(views(out@) =~= elems_range(json_view(*t), b as int, k as int));
    }
    out
}

/// The elements that one subscript `[b to e]` selects.
fn select_slice(src: &Source, t: &JsonValue, vb: i64, ve: i64, lax: bool) -> (r: Result<Vec<Item>, EvalError>)
    requires
        src.view().len() == elem_count(json_view(*t)),
        forall|i: int| 0 <= i < src.view().len() ==> #[trigger] src.view()[i] == elem_at(json_view(*t), i),
    ensures
        items_result(r) == slice_step(json_view(*t), vb, ve, lax),
{
    let n = src.count();
    let begin: i64 = if vb < 0 {
        0
    } else {
        vb
    };
    if vb < 0 && !lax {
        Err(EvalError::ArrayIndexOutOfBounds)
    } else if ve < 0 {
        if lax {
            no_items()
        } else {
            Err(EvalError::ArrayIndexOutOfBounds)
        }
    } else if begin > ve {
        if lax {
            no_items()
        } else {
            Err(EvalError::ArrayIndexOutOfBounds)
        }
    } else if (ve as u64 as u128) < n as u128 {
        Ok(copy_range(src, t, begin as usize, ve as usize + 1))
    } else if lax {
        if begin as u64 as u128 >= n as u128 {
            no_items()
        } else {
            Ok(copy_range(src, t, begin as usize, n))
        }
    } else {
        Err(EvalError::ArrayIndexOutOfBounds)
    }
}

/// The result of an expression or a predicate.
fn eval_eop(ev: Evaluator, e: &ExprOrPredicate) -> (r: Result<Vec<Item>, EvalError>)
    ensures
        items_result(r) == sem_eop(*e, ev.ctx()),
    decreases e, 0nat,
{
    match e {
        ExprOrPredicate::Expr(x) => eval_expr(ev, x),
        ExprOrPredicate::Pred(p) => match eval_pred(ev, p) {
            Ok(t) => one_item(Item::Json(truth_to_json(t))),
            Err(err) => Err(err),
        },
    }
}

/// The truth of a predicate.
fn eval_pred(ev: Evaluator, p: &Predicate) -> (r: Result<Truth, EvalError>)
    ensures
        result_view(r) == sem_pred(*p, ev.ctx()),
    decreases p, 0nat,
{
    match p {
        Predicate::Compare(op, l, r) => {
            let ls = match eval_expr(ev.all(), l) {
                Ok(v) => v,
                Err(e) => {
                    return lax_error(e);
                },
            };
            let rs = match eval_expr(ev.all(), r) {
                Ok(v) => v,
                Err(e) => {
                    return lax_error(e);
                },
            };
            Ok(compare_sequences(*op, &ls, &rs, ev.lax))
        },
        Predicate::Exists(x) => match eval_expr(ev.first_only(), x) {
            Ok(s) => Ok(Truth::from_bool(s.len() > 0)),
            Err(e) => lax_error(e),
        },
        Predicate::And(a, b) => {
            let ta = eval_pred(ev, a)?;
            let tb = eval_pred(ev, b)?;
            Ok(ta.and(tb))
        },
        Predicate::Or(a, b) => {
            let ta = eval_pred(ev, a)?;
            let tb = eval_pred(ev, b)?;
            Ok(ta.or(tb))
        },
        Predicate::Not(a) => {
            let t = eval_pred(ev, a)?;
            Ok(t.not())
        },
        Predicate::IsUnknown(a) => {
            let t = eval_pred(ev, a)?;
            Ok(Truth::from_bool(t.is_unknown()))
        },
        Predicate::StartsWith(x, v) => {
            let set = match eval_expr(ev.all(), x) {
                Ok(s) => s,
                Err(e) => {
                    return lax_error(e);
                },
            };
            let prefix = eval_value(ev, v)?;
            match prefix {
                Item::Json(JsonValue::String(pre)) => Ok(eval_starts_with(&pre, &set, ev.lax)),
                _ => Ok(Truth::Unknown),
            }
        },
        Predicate::LikeRegex(x, re) => {
            let set = match eval_expr(ev.all(), x) {
                Ok(s) => s,
                Err(e) => {
                    return lax_error(e);
                },
            };
            Ok(eval_like_regex(re, &set, ev.lax))
        },
    }
}

/// The result of an expression.
fn eval_expr(ev: Evaluator, e: &Expr) -> (r: Result<Vec<Item>, EvalError>)
    ensures
        items_result(r) == sem_expr(*e, ev.ctx()),
    decreases e, 0nat,
{
    match e {
        Expr::PathPrimary(p) => eval_primary(ev, p),
        Expr::Accessor(base, op) => {
            let set = eval_expr(ev.all(), base)?;
            eval_accessor_all(ev, op, &set)
        },
        Expr::UnaryOp(op, x) => {
            let set = eval_expr(ev, x)?;
            eval_unary(*op, &set, ev.lax)
        },
        Expr::BinaryOp(op, l, r) => {
            let ls = eval_expr(ev, l)?;
            let rs = eval_expr(ev, r)?;
            eval_binary(*op, &ls, &rs, ev.lax)
        },
    }
}

/// The result of a primary expression.
fn eval_primary(ev: Evaluator, p: &PathPrimary) -> (r: Result<Vec<Item>, EvalError>)
    ensures
        items_result(r) == sem_primary(*p, ev.ctx()),
    decreases p, 0nat,
{
    match p {
        PathPrimary::Root => one_item(Item::Json(ev.root.copy())),
        PathPrimary::Current => one_item(ev.current.to_owned_item()),
        PathPrimary::Last => eval_last(ev.array),
        PathPrimary::Value(v) => match eval_value(ev, v) {
            Ok(i) => one_item(i),
            Err(e) => Err(e),
        },
        PathPrimary::ExprOrPred(x) => eval_eop(ev, x),
    }
}

/// An accessor applied to each item of a sequence (see [`accessor_from`]).
fn eval_accessor_all(ev: Evaluator, op: &AccessorOp, set: &Vec<Item>) -> (r: Result<Vec<Item>, EvalError>)
    ensures
        items_result(r) == accessor_from(*op, views(set@), 0, Seq::empty(), ev.ctx()),
    decreases op, 1nat,
{
    let ghost sv = views(set@);
    let ghost c = ev.ctx();
    let mut acc: Vec<Item> = Vec::new();
    let mut i: usize = 0;
    assert(views(acc@) =~= Seq::<SItem>::empty());
    while i < set.len()
        invariant
            i <= set.len(),
            sv == views(set@),
            c == ev.ctx(),
            accessor_from(*op, sv, 0, Seq::empty(), c) == accessor_from(*op, sv, i as nat, views(acc@), c),
        decreases set.len() - i,
    {
        assert(sv[i as int] == item_view(set@[i as int]));
        let sub = ev.with_current(set[i].as_item_ref());
        match eval_accessor(sub, op) {
            Ok(s) => {
                append_items(&mut acc, s);
                if ev.is_first() && acc.len() > 0 {
                    return Ok(acc);
                }
            },
            Err(e) => {
                return Err(e);
            },
        }
        i = i + 1;
    }
    Ok(acc)
}

/// An accessor applied to the current item.
#[verifier::spinoff_prover]
#[verifier::rlimit(30)]
fn eval_accessor(ev: Evaluator, op: &AccessorOp) -> (r: Result<Vec<Item>, EvalError>)
    ensures
        items_result(r) == sem_accessor(*op, ev.ctx()),
    decreases op, 0nat,
{
    match op {
        AccessorOp::MemberWildcard => match ev.current {
            ItemRef::DateTime(_) => if ev.lax {
                no_items()
            } else {
                Err(EvalError::WildcardMemberAccess)
            },
            ItemRef::Json(j) => eval_member_wildcard(j, ev.lax),
        },
        AccessorOp::ElementWildcard => eval_element_wildcard(ev),
        AccessorOp::Member(name) => match ev.current {
            ItemRef::DateTime(_) => if ev.lax {
                no_items()
            } else {
                Err(EvalError::MemberAccess)
            },
            ItemRef::Json(j) => eval_member(name, j, ev.lax),
        },
        AccessorOp::Element(indices) => match ev.current {
            ItemRef::DateTime(_) => if ev.lax {
                no_items()
            } else {
                Err(EvalError::ArrayAccess)
            },
            ItemRef::Json(j) => {
                if !matches!(j, JsonValue::Array(_)) && !ev.lax {
                    Err(EvalError::ArrayAccess)
                } else {
                    eval_indices(ev, indices, j)
                }
            },
        },
        AccessorOp::FilterExpr(pred) => {
            proof {
                lemma_filter_result(**pred, ev.ctx());
            }
            match ev.current {
                ItemRef::DateTime(d) => filter_datetime(ev, pred, d),
                ItemRef::Json(j) => filter_values(ev, pred, lax_source(j, ev.lax)),
            }
        },
        AccessorOp::Method(m) => eval_method(*m, &ev.current, ev.lax),
    }
}

/// A filter applied to a datetime item: the item when the filter holds of it.
fn filter_datetime(ev: Evaluator, pred: &Predicate, d: crate::datetime::DateTimeValue) -> (r: Result<
    Vec<Item>,
    EvalError,
>)
    requires
        ev.current == ItemRef::DateTime(d),
    ensures
        items_result(r) == (match sem_pred(*pred, ev.ctx()) {
            Err(err) => Err(err),
            Ok(t) => Ok(if t == Truth::True { seq![SItem::DateTime(d)] } else { Seq::<SItem>::empty() }),
        }),
    decreases pred, 1nat,
{
    match eval_pred(ev, pred) {
        Ok(t) => if t.is_true() {
            one_item(Item::DateTime(d))
        } else {
            no_items()
        },
        Err(e) => Err(e),
    }
}

/// The values of a source that satisfy a filter (see [`filter_from`]).
#[verifier::spinoff_prover]
fn filter_values(ev: Evaluator, pred: &Predicate, src: Source) -> (r: Result<Vec<Item>, EvalError>)
    ensures
        items_result(r) == filter_from(*pred, src.view(), 0, Seq::empty(), ev.ctx()),
    decreases pred, 1nat,
{
    let ghost items = src.view();
    let ghost c = ev.ctx();
    let mut acc: Vec<Item> = Vec::new();
    let mut i: usize = 0;
    assert(views(acc@) =~= Seq::<SItem>::empty());
    while i < src.count()
        invariant
            items == src.view(),
            c == ev.ctx(),
            i <= items.len(),
            filter_from(*pred, items, 0, Seq::empty(), c) == filter_from(*pred, items, i as nat, views(acc@), c),
        decreases items.len() - i,
    {
        let v = src.at(i);
        let sub = ev.with_current(ItemRef::Json(v));
        let res = eval_pred(sub, pred);
        proof {
            lemma_filter_step(*pred, items, i as nat, views(acc@), c, result_view(res));
        }
        match res {
            Ok(t) => {
                if t.is_true() {
                    let cv = v.copy();
                    proof {
                        lemma_views_push(acc@, Item::Json(cv));
                    }
                    acc.push(Item::Json(cv));
                    if ev.is_first() {
                        return Ok(acc);
                    }
                }
            },
            Err(e) => {
                return Err(e);
            },
        }
        i = i + 1;
    }
    Ok(acc)
}

/// The integer value of a subscript expression (see [`index_value`]).
fn eval_index_value(ev: Evaluator, e: &Expr) -> (r: Result<i64, EvalError>)
    ensures
        result_view(r) == index_value(*e, ev.ctx()),
    decreases e, 1nat,
{
    let s = eval_expr(ev, e)?;
    if s.len() != 1 {
        return Err(EvalError::ArrayIndexNotNumeric);
    }
    assert(views(s@)[0] == item_view(s@[0]));
    match &s[0] {
        Item::Json(JsonValue::Number(n)) => match n.to_i64() {
            Some(v) => Ok(v),
            None => Err(EvalError::ArrayIndexOutOfRange),
        },
        _ => Err(EvalError::ArrayIndexNotNumeric),
    }
}

/// The elements that the subscripts select from `t` (see [`index_from`]).
fn eval_indices(ev: Evaluator, indices: &Vec<ArrayIndex>, t: &JsonValue) -> (r: Result<Vec<Item>, EvalError>)
    ensures
        items_result(r) == index_from(indices@, 0, Seq::empty(), ev.ctx(), json_view(*t)),
    decreases indices, 1nat,
{
    let ea = ev.with_array(t);
    let src = element_source(t);
    let ghost c = ev.ctx();
    let ghost tv = json_view(*t);
    let mut acc: Vec<Item> = Vec::new();
    let mut k: usize = 0;
    assert(views(acc@) =~= Seq::<SItem>::empty());
    while k < indices.len()
        invariant
            k <= indices.len(),
            c == ev.ctx(),
            tv == json_view(*t),
            ea.ctx() == with_array(c, tv),
            src.view().len() == elem_count(tv),
            forall|i: int| 0 <= i < src.view().len() ==> #[trigger] src.view()[i] == elem_at(tv, i),
            index_from(indices@, 0, Seq::empty(), c, tv) == index_from(indices@, k as nat, views(acc@), c, tv),
        decreases indices.len() - k,
    {
        proof {
            vstd::std_specs::vec::axiom_vec_index_decreases(*indices, k as int);
        }
        let step = match &indices[k] {
            ArrayIndex::Index(e) => {
                match eval_index_value(ea, e) {
                    Ok(v) => select_index(&src, t, v, ev.lax),
                    Err(err) => Err(err),
                }
            },
            ArrayIndex::Slice(b, e) => {
                match eval_index_value(ea, b) {
                    Ok(vb) => match eval_index_value(ea, e) {
                        Ok(ve) => select_slice(&src, t, vb, ve, ev.lax),
                        Err(err) => Err(err),
                    },
                    Err(err) => Err(err),
                }
            },
        };
        match step {
            Ok(s) => {
                append_items(&mut acc, s);
            },
            Err(err) => {
                return Err(err);
            },
        }
        k = k + 1;
    }
    Ok(acc)
}

/// JSON values with their errors viewed.
pub open spec fn values_result(r: Result<Vec<JsonValue>, EvalError>) -> Result<Seq<Json>, ErrorView> {
    match r {
        Ok(v) => Ok(v@.map_values(|j: JsonValue| json_view(j))),
        Err(e) => Err(error_view(e)),
    }
}

/// An optional JSON value with its error viewed.
pub open spec fn first_value_result(r: Result<Option<JsonValue>, EvalError>) -> Result<Option<Json>, ErrorView> {
    match r {
        Ok(Some(v)) => Ok(Some(json_view(v))),
        Ok(None) => Ok(None),
        Err(e) => Err(error_view(e)),
    }
}

impl JsonPath {
    /// The items the path gives on a document with variables.
    fn run(&self, value: &JsonValue, vars: &JsonValue, first: bool) -> (r: Result<Vec<Item>, EvalError>)
        ensures
            items_result(r) == path_items(*self, json_view(*value), json_view(*vars), first),
    {
        let null = JsonValue::Null;
        let ev = Evaluator {
            current: ItemRef::Json(value),
            root: value,
            array: &null,
            vars,
            lax: self.mode == Mode::Lax,
            first,
        };
        assert(ev.ctx() == initial_ctx(json_view(*value), json_view(*vars), self.mode, first));
        eval_eop(ev, &self.expr)
    }

    /// The JSON values of the items the path gives.
    fn run_values(&self, value: &JsonValue, vars: &JsonValue) -> (r: Result<Vec<JsonValue>, EvalError>)
        ensures
            values_result(r) == query_result(*self, json_view(*value), json_view(*vars)),
    {
        match self.run(value, vars, false) {
            Ok(items) => {
                let ghost iv = views(items@);
                let out = items_into_json(items);
                assert(out@.map_values(|j: JsonValue| json_view(j)) =~= items_json(iv));
                Ok(out)
            },
            Err(e) => Err(e),
        }
    }

    /// The first JSON value the path gives, evaluated so that it may stop early.
    fn run_first(&self, value: &JsonValue, vars: &JsonValue) -> (r: Result<Option<JsonValue>, EvalError>)
        ensures
            first_value_result(r) == query_first_result(*self, json_view(*value), json_view(*vars)),
    {
        match self.run(value, vars, true) {
            Ok(items) => {
                let ghost iv = views(items@);
                let mut out = items_into_json(items);
                if out.len() > 0 {
                    assert(iv[0] == item_view(items@[0]));
                    Ok(Some(out.remove(0)))
                } else {
                    Ok(None)
                }
            },
            Err(e) => Err(e),
        }
    }

    /// Evaluates the path on a JSON document.
    pub fn query(&self, value: &JsonValue) -> (r: Result<Vec<JsonValue>, EvalError>)
        ensures
            values_result(r) == query_result(*self, json_view(*value), Json::Null),
    {
        let null = JsonValue::Null;
        self.run_values(value, &null)
    }

    /// Evaluates the path on a JSON document with variables, which must be an object.
    pub fn query_with_vars(&self, value: &JsonValue, vars: &JsonValue) -> (r: Result<Vec<JsonValue>, EvalError>)
        ensures
            values_result(r) == (if json_view(*vars) is Object {
                query_result(*self, json_view(*value), json_view(*vars))
            } else {
                Err(ErrorView::VarsNotObject)
            }),
    {
        if !matches!(vars, JsonValue::Object(_)) {
            return Err(EvalError::VarsNotObject);
        }
        self.run_values(value, vars)
    }

    /// The first value the path gives on a JSON document.
    pub fn query_first(&self, value: &JsonValue) -> (r: Result<Option<JsonValue>, EvalError>)
        ensures
            first_value_result(r) == query_first_result(*self, json_view(*value), Json::Null),
    {
        let null = JsonValue::Null;
        self.run_first(value, &null)
    }

    /// The first value the path gives on a JSON document with variables, which must be an object.
    pub fn query_first_with_vars(&self, value: &JsonValue, vars: &JsonValue) -> (r: Result<
        Option<JsonValue>,
        EvalError,
    >)
        ensures
            first_value_result(r) == (if json_view(*vars) is Object {
                query_first_result(*self, json_view(*value), json_view(*vars))
            } else {
                Err(ErrorView::VarsNotObject)
            }),
    {
        if !matches!(vars, JsonValue::Object(_)) {
            return Err(EvalError::VarsNotObject);
        }
        self.run_first(value, vars)
    }

    /// Whether the path gives any value on a JSON document.
    pub fn exists_in(&self, value: &JsonValue) -> (r: Result<bool, EvalError>)
        ensures
            result_view(r) == (match query_first_result(*self, json_view(*value), Json::Null) {
                Ok(o) => Ok(o is Some),
                Err(e) => Err(e),
            }),
    {
        match self.query_first(value) {
            Ok(o) => Ok(o.is_some()),
            Err(e) => Err(e),
        }
    }

    /// Whether the path gives any value on a JSON document with variables.
    pub fn exists_with_vars(&self, value: &JsonValue, vars: &JsonValue) -> (r: Result<bool, EvalError>)
        ensures
            result_view(r) == (if json_view(*vars) is Object {
                match query_first_result(*self, json_view(*value), json_view(*vars)) {
                    Ok(o) => Ok(o is Some),
                    Err(e) => Err(e),
                }
            } else {
                Err(ErrorView::VarsNotObject)
            }),
    {
        match self.query_first_with_vars(value, vars) {
            Ok(o) => Ok(o.is_some()),
            Err(e) => Err(e),
        }
    }
}

} // verus!

//! Properties of path evaluation as a whole.

use vstd::prelude::*;
use crate::ast::{
    AccessorOp, ArrayIndex, BinaryOp, ExprOrPredicate, Expr, JsonPath, Method, Mode, PathPrimary, Predicate, UnaryOp,
};
use crate::error::{ErrorView, view_is_structural};
use crate::item::SItem;
use crate::json::Json;
use crate::sem::{
    Ctx, with_current, with_array, all_of, lax_items, member_wildcard_from, members_over, unary_json,
    unary_elems_from, unary_from, sem_eop, sem_pred, sem_expr, sem_primary, accessor_from, sem_accessor,
    element_result, filter_result, filter_from, index_value, index_from, index_step, slice_step, sem_method,
    method_json, method_elems_from, method_on, path_items, operand, binary_json, is_first,
};


verus! {

/// Whether a result is not a structural error.
pub open spec fn not_structural<T>(r: Result<T, ErrorView>) -> bool {
    match r {
        Err(e) => !view_is_structural(e),
        Ok(_) => true,
    }
}

/// Whether a result is not an error other than a missing variable.
pub open spec fn only_missing_variable<T>(r: Result<T, ErrorView>) -> bool {
    match r {
        Err(e) => e is NoVariable,
        Ok(_) => true,
    }
}

/// A predicate fails only when a variable it names is missing: every other error of the
/// expressions it tests makes it unknown.
pub proof fn law_predicate_errors_are_missing_variables(p: Predicate, c: Ctx)
    ensures
        only_missing_variable(sem_pred(p, c)),
    decreases p,
{
    match p {
        Predicate::And(a, b) => {
            law_predicate_errors_are_missing_variables(*a, c);
            law_predicate_errors_are_missing_variables(*b, c);
        },
        Predicate::Or(a, b) => {
            law_predicate_errors_are_missing_variables(*a, c);
            law_predicate_errors_are_missing_variables(*b, c);
        },
        Predicate::Not(a) => {
            law_predicate_errors_are_missing_variables(*a, c);
        },
        Predicate::IsUnknown(a) => {
            law_predicate_errors_are_missing_variables(*a, c);
        },
        _ => {},
    }
}

proof fn lemma_filter_from(pred: Predicate, items: Seq<Json>, i: nat, acc: Seq<SItem>, c: Ctx)
    ensures
        only_missing_variable(filter_from(pred, items, i, acc, c)),
    decreases items.len() - i,
{
    if i < items.len() {
        law_predicate_errors_are_missing_variables(pred, with_current(c, SItem::Json(items[i as int])));
        let acc2 = acc.push(SItem::Json(items[i as int]));
        lemma_filter_from(pred, items, i + 1, acc2, c);
        lemma_filter_from(pred, items, i + 1, acc, c);
    }
}

proof fn lemma_filter(pred: Predicate, c: Ctx)
    ensures
        only_missing_variable(filter_result(pred, c)),
{
    law_predicate_errors_are_missing_variables(pred, c);
    match c.current {
        SItem::Json(j) => lemma_filter_from(pred, lax_items(j, c.lax), 0, Seq::empty(), c),
        _ => {},
    }
}

proof fn lemma_member_wildcard(items: Seq<Json>, i: nat, acc: Seq<SItem>)
    ensures
        member_wildcard_from(items, i, acc, true) is Ok,
    decreases items.len() - i,
{
    if i < items.len() {
        match items[i as int] {
            Json::Object(es) => lemma_member_wildcard(
                items,
                i + 1,
                acc + crate::sem::json_items(Seq::new(es.len(), |k: int| es[k].1)),
            ),
            _ => lemma_member_wildcard(items, i + 1, acc),
        }
    }
}

proof fn lemma_member(name: Seq<char>, items: Seq<Json>)
    ensures
        members_over(name, items, true) is Ok,
    decreases items.len(),
{
    if items.len() > 0 {
        lemma_member(name, items.drop_last());
    }
}

proof fn lemma_unary_elems(op: UnaryOp, a: Seq<Json>, k: nat, acc: Seq<SItem>)
    ensures
        not_structural(unary_elems_from(op, a, k, acc)),
    decreases a.len() - k,
{
    if k < a.len() {
        match unary_json(op, a[k as int]) {
            Ok(x) => lemma_unary_elems(op, a, k + 1, acc.push(x)),
            Err(_) => {},
        }
    }
}

proof fn lemma_unary(op: UnaryOp, set: Seq<SItem>, i: nat, acc: Seq<SItem>, lax: bool)
    ensures
        not_structural(unary_from(op, set, i, acc, lax)),
    decreases set.len() - i,
{
    if i < set.len() {
        match set[i as int] {
            SItem::DateTime(_) => {},
            SItem::Json(j) => {
                let step = match j {
                    Json::Array(a) => if lax {
                        lemma_unary_elems(op, a, 0, acc);
                        unary_elems_from(op, a, 0, acc)
                    } else {
                        match unary_json(op, j) {
                            Ok(x) => Ok(acc.push(x)),
                            Err(e) => Err(e),
                        }
                    },
                    _ => match unary_json(op, j) {
                        Ok(x) => Ok(acc.push(x)),
                        Err(e) => Err(e),
                    },
                };
                match step {
                    Ok(acc2) => lemma_unary(op, set, i + 1, acc2, lax),
                    Err(_) => {},
                }
            },
        }
    }
}

proof fn lemma_method_on(m: Method, cur: SItem, lax: bool)
    ensures
        not_structural(method_on(m, cur, lax)),
{
}

proof fn lemma_method_json(m: Method, j: Json, lax: bool)
    ensures
        not_structural(method_json(m, j, lax)),
    decreases j, 0nat,
{
    match j {
        Json::Array(a) => if lax && m != Method::Size && m != Method::Type {
            lemma_method_elems(m, a, 0, Seq::empty(), lax);
        } else {
            lemma_method_on(m, SItem::Json(j), lax);
        },
        _ => lemma_method_on(m, SItem::Json(j), lax),
    }
}

proof fn lemma_method_elems(m: Method, a: Seq<Json>, k: nat, acc: Seq<SItem>, lax: bool)
    ensures
        not_structural(method_elems_from(m, a, k, acc, lax)),
    decreases a, a.len() - k,
{
    if k < a.len() {
        lemma_method_json(m, a[k as int], lax);
        match method_json(m, a[k as int], lax) {
            Ok(s) => lemma_method_elems(m, a, k + 1, acc + s, lax),
            Err(_) => {},
        }
    }
}

proof fn lemma_method(m: Method, cur: SItem, lax: bool)
    ensures
        not_structural(sem_method(m, cur, lax)),
{
    match cur {
        SItem::Json(j) => lemma_method_json(m, j, lax),
        SItem::DateTime(_) => lemma_method_on(m, cur, lax),
    }
}

proof fn lemma_lax_eop(e: ExprOrPredicate, c: Ctx)
    requires
        c.lax,
    ensures
        not_structural(sem_eop(e, c)),
    decreases e, 0nat,
{
    match e {
        ExprOrPredicate::Expr(x) => lemma_lax_expr(x, c),
        ExprOrPredicate::Pred(p) => law_predicate_errors_are_missing_variables(p, c),
    }
}

proof fn lemma_lax_expr(e: Expr, c: Ctx)
    requires
        c.lax,
    ensures
        not_structural(sem_expr(e, c)),
    decreases e, 0nat,
{
    match e {
        Expr::PathPrimary(p) => lemma_lax_primary(p, c),
        Expr::Accessor(base, op) => {
            lemma_lax_expr(*base, all_of(c));
            match sem_expr(*base, all_of(c)) {
                Ok(set) => lemma_lax_accessor_from(op, set, 0, Seq::empty(), c),
                Err(_) => {},
            }
        },
        Expr::UnaryOp(op, x) => {
            lemma_lax_expr(*x, c);
            match sem_expr(*x, c) {
                Ok(set) => lemma_unary(op, set, 0, Seq::empty(), c.lax),
                Err(_) => {},
            }
        },
        Expr::BinaryOp(op, l, r) => {
            lemma_lax_expr(*l, c);
            lemma_lax_expr(*r, c);
        },
    }
}

proof fn lemma_lax_primary(p: PathPrimary, c: Ctx)
    requires
        c.lax,
    ensures
        not_structural(sem_primary(p, c)),
    decreases p, 0nat,
{
    match p {
        PathPrimary::ExprOrPred(x) => lemma_lax_eop(*x, c),
        _ => {},
    }
}

proof fn lemma_lax_accessor_from(op: AccessorOp, set: Seq<SItem>, i: nat, acc: Seq<SItem>, c: Ctx)
    requires
        c.lax,
    ensures
        not_structural(accessor_from(op, set, i, acc, c)),
    decreases op, set.len() - i + 1,
{
    if i < set.len() {
        lemma_lax_accessor(op, with_current(c, set[i as int]));
        match sem_accessor(op, with_current(c, set[i as int])) {
            Ok(s) => lemma_lax_accessor_from(op, set, i + 1, acc + s, c),
            Err(_) => {},
        }
    }
}

proof fn lemma_lax_accessor(op: AccessorOp, c: Ctx)
    requires
        c.lax,
    ensures
        not_structural(sem_accessor(op, c)),
    decreases op, 0nat,
{
    match op {
        AccessorOp::MemberWildcard => match c.current {
            SItem::Json(j) => lemma_member_wildcard(lax_items(j, c.lax), 0, Seq::empty()),
            _ => {},
        },
        AccessorOp::Member(name) => match c.current {
            SItem::Json(j) => lemma_member(name@, lax_items(j, c.lax)),
            _ => {},
        },
        AccessorOp::Element(indices) => lemma_lax_element(indices@, c),
        AccessorOp::FilterExpr(pred) => lemma_filter(*pred, c),
        AccessorOp::Method(m) => lemma_method(m, c.current, c.lax),
        _ => {},
    }
}

proof fn lemma_lax_element(idx: Seq<ArrayIndex>, c: Ctx)
    requires
        c.lax,
    ensures
        not_structural(element_result(idx, c)),
    decreases idx, idx.len() + 2,
{
    match c.current {
        SItem::Json(j) => lemma_lax_index_from(idx, 0, Seq::empty(), c, j),
        _ => {},
    }
}

proof fn lemma_lax_index_from(idx: Seq<ArrayIndex>, k: nat, acc: Seq<SItem>, c: Ctx, t: Json)
    requires
        c.lax,
    ensures
        not_structural(index_from(idx, k, acc, c, t)),
    decreases idx, idx.len() - k + 1,
{
    if k < idx.len() {
        let ca = with_array(c, t);
        let step = match idx[k as int] {
            ArrayIndex::Index(e) => {
                lemma_lax_index_value(e, ca);
                match index_value(e, ca) {
                    Err(err) => Err(err),
                    Ok(v) => index_step(t, v, c.lax),
                }
            },
            ArrayIndex::Slice(b, e) => {
                lemma_lax_index_value(b, ca);
                lemma_lax_index_value(e, ca);
                match index_value(b, ca) {
                    Err(err) => Err(err),
                    Ok(vb) => match index_value(e, ca) {
                        Err(err) => Err(err),
                        Ok(ve) => slice_step(t, vb, ve, c.lax),
                    },
                }
            },
        };
        match step {
            Ok(s) => lemma_lax_index_from(idx, k + 1, acc + s, c, t),
            Err(_) => {},
        }
    }
}

proof fn lemma_lax_index_value(e: Expr, c: Ctx)
    requires
        c.lax,
    ensures
        not_structural(index_value(e, c)),
    decreases e, 1nat,
{
    lemma_lax_expr(e, c);
}

/// In lax mode a path never raises a structural error (a missing member or element, or an
/// accessor applied to an item of the wrong type): such errors become empty results.
pub proof fn law_lax_hides_structural_errors(p: JsonPath, root: Json, vars: Json, first: bool)
    requires
        p.mode == Mode::Lax,
    ensures
        not_structural(path_items(p, root, vars, first)),
{
    lemma_lax_eop(p.expr, crate::sem::initial_ctx(root, vars, p.mode, first));
}

// Arithmetic operators over sequences of items.

/// A binary arithmetic operator takes one item from each side: when the left side gives
/// other than one item, that is the error; then the right side; a result is one item,
/// computed from two numbers (in lax mode a one-element array stands for its element).
pub proof fn law_binary_operands(op: BinaryOp, l: Expr, r: Expr, c: Ctx, ls: Seq<SItem>, rs: Seq<SItem>)
    requires
        sem_expr(l, c) == Ok::<Seq<SItem>, ErrorView>(ls),
        sem_expr(r, c) == Ok::<Seq<SItem>, ErrorView>(rs),
    ensures
        ({
            let res = sem_expr(Expr::BinaryOp(op, Box::new(l), Box::new(r)), c);
            &&& ls.len() != 1 ==> res == Err::<Seq<SItem>, ErrorView>(ErrorView::LeftOperandNotNumeric(op))
            &&& ls.len() == 1 && rs.len() != 1 ==> res == Err::<Seq<SItem>, ErrorView>(
                ErrorView::RightOperandNotNumeric(op),
            )
            &&& res is Ok ==> {
                &&& ls.len() == 1 && rs.len() == 1
                &&& operand(ls[0], c.lax) is Some && operand(ls[0], c.lax)->Some_0 is Number
                &&& operand(rs[0], c.lax) is Some && operand(rs[0], c.lax)->Some_0 is Number
                &&& res == binary_json(op, operand(ls[0], c.lax)->Some_0, operand(rs[0], c.lax)->Some_0)
                &&& res->Ok_0.len() == 1
            }
        }),
{
    let res = sem_expr(Expr::BinaryOp(op, Box::new(l), Box::new(r)), c);
    if res is Ok {
        let a = operand(ls[0], c.lax)->Some_0;
        let b = operand(rs[0], c.lax)->Some_0;
        assert(res == binary_json(op, a, b));
    }
}

/// The operands of a unary operator: the items, in lax mode with each array replaced by its
/// elements.
pub open spec fn unary_operands(set: Seq<SItem>, lax: bool) -> Seq<SItem>
    decreases set.len(),
{
    if set.len() == 0 {
        Seq::empty()
    } else {
        unary_operands(set.drop_last(), lax) + unary_piece(set.last(), lax)
    }
}

/// The operands that one item gives to a unary operator.
pub open spec fn unary_piece(x: SItem, lax: bool) -> Seq<SItem> {
    match x {
        SItem::Json(Json::Array(a)) => if lax {
            Seq::new(a.len(), |k: int| SItem::Json(a[k]))
        } else {
            seq![x]
        },
        _ => seq![x],
    }
}

/// `+` or `-` applied to one operand: a number gives a number (negation may leave the range
/// of numbers); anything else is not numeric.
pub open spec fn unary_item(op: UnaryOp, x: SItem) -> Result<SItem, ErrorView> {
    match x {
        SItem::DateTime(_) => Err(ErrorView::UnaryOperandNotNumeric(op)),
        SItem::Json(j) => unary_json(op, j),
    }
}

/// `+` or `-` applied to each operand in order: the results, or the error of the first
/// operand that gives one.
pub open spec fn unary_map(op: UnaryOp, f: Seq<SItem>) -> Result<Seq<SItem>, ErrorView>
    decreases f.len(),
{
    if f.len() == 0 {
        Ok(Seq::empty())
    } else {
        match unary_map(op, f.drop_last()) {
            Err(e) => Err(e),
            Ok(prev) => match unary_item(op, f.last()) {
                Ok(y) => Ok(prev.push(y)),
                Err(e) => Err(e),
            },
        }
    }
}

/// Applying an operator to operands written one after the other: the first part, then the
/// second from where the first stopped.
proof fn lemma_unary_map_append(op: UnaryOp, a: Seq<SItem>, b: Seq<SItem>)
    ensures
        unary_map(op, a + b) == match unary_map(op, a) {
            Err(e) => Err(e),
            Ok(pa) => match unary_map(op, b) {
                Err(e) => Err(e),
                Ok(pb) => Ok(pa + pb),
            },
        },
    decreases b.len(),
{
    if b.len() == 0 {
        assert(a + b =~= a);
        match unary_map(op, a) {
            Ok(pa) => assert(pa + Seq::<SItem>::empty() =~= pa),
            Err(_) => {},
        }
    } else {
        lemma_unary_map_append(op, a, b.drop_last());
        assert((a + b).drop_last() =~= a + b.drop_last());
        assert((a + b).last() == b.last());
        match unary_map(op, a) {
            Ok(pa) => match unary_map(op, b.drop_last()) {
                Ok(pb) => match unary_item(op, b.last()) {
                    Ok(y) => assert((pa + pb).push(y) =~= pa + pb.push(y)),
                    Err(_) => {},
                },
                Err(_) => {},
            },
            Err(_) => {},
        }
    }
}

/// An operator applied to one operand.
proof fn lemma_unary_map_single(op: UnaryOp, x: SItem)
    ensures
        unary_map(op, seq![x]) == match unary_item(op, x) {
            Ok(y) => Ok(seq![y]),
            Err(e) => Err::<Seq<SItem>, ErrorView>(e),
        },
{
    assert(seq![x].drop_last() =~= Seq::<SItem>::empty());
    assert(unary_map(op, Seq::<SItem>::empty()) == Ok::<Seq<SItem>, ErrorView>(Seq::empty()));
    match unary_item(op, x) {
        Ok(y) => assert(Seq::<SItem>::empty().push(y) =~= seq![y]),
        Err(_) => {},
    }
}

/// The elements of an array from `k` on, after the results `acc`, as an operator gives them.
proof fn lemma_unary_elems_map(op: UnaryOp, a: Seq<Json>, k: nat, acc: Seq<SItem>)
    requires
        k <= a.len(),
    ensures
        unary_elems_from(op, a, k, acc) == match unary_map(
            op,
            Seq::new((a.len() - k) as nat, |i: int| SItem::Json(a[k + i])),
        ) {
            Err(e) => Err(e),
            Ok(pb) => Ok(acc + pb),
        },
    decreases a.len() - k,
{
    let rest = Seq::new((a.len() - k) as nat, |i: int| SItem::Json(a[k + i]));
    if k == a.len() {
        assert(rest =~= Seq::<SItem>::empty());
        assert(acc + Seq::<SItem>::empty() =~= acc);
    } else {
        let x = SItem::Json(a[k as int]);
        let next = Seq::new((a.len() - (k + 1)) as nat, |i: int| SItem::Json(a[k + 1 + i]));
        assert(rest =~= seq![x] + next);
        lemma_unary_map_append(op, seq![x], next);
        lemma_unary_map_single(op, x);
        match unary_json(op, a[k as int]) {
            Ok(y) => {
                lemma_unary_elems_map(op, a, k + 1, acc.push(y));
                match unary_map(op, next) {
                    Ok(pb) => assert(acc.push(y) + pb =~= acc + (seq![y] + pb)),
                    Err(_) => {},
                }
            },
            Err(_) => {},
        }
    }
}

/// The items from `i` on, after the results `acc` of those before, as an operator gives them.
proof fn lemma_unary_from(op: UnaryOp, set: Seq<SItem>, i: nat, acc: Seq<SItem>, lax: bool)
    requires
        i <= set.len(),
        unary_map(op, unary_operands(set.take(i as int), lax)) == Ok::<Seq<SItem>, ErrorView>(acc),
    ensures
        unary_from(op, set, i, acc, lax) == unary_map(op, unary_operands(set, lax)),
    decreases set.len() - i,
{
    if i == set.len() {
        assert(set.take(i as int) =~= set);
    } else {
        let x = set[i as int];
        let pre = unary_operands(set.take(i as int), lax);
        let piece = unary_piece(x, lax);
        assert(set.take(i + 1 as int).drop_last() =~= set.take(i as int));
        assert(unary_operands(set.take(i + 1 as int), lax) == pre + piece);
        lemma_unary_map_append(op, pre, piece);
        let step: Result<Seq<SItem>, ErrorView> = match x {
            SItem::DateTime(_) => Err(ErrorView::UnaryOperandNotNumeric(op)),
            SItem::Json(j) => match j {
                Json::Array(a) => if lax {
                    unary_elems_from(op, a, 0, acc)
                } else {
                    match unary_json(op, j) {
                        Ok(y) => Ok(acc.push(y)),
                        Err(e) => Err(e),
                    }
                },
                _ => match unary_json(op, j) {
                    Ok(y) => Ok(acc.push(y)),
                    Err(e) => Err(e),
                },
            },
        };
        match x {
            SItem::Json(Json::Array(a)) => {
                if lax {
                    lemma_unary_elems_map(op, a, 0, acc);
                    assert(Seq::new((a.len() - 0) as nat, |k: int| SItem::Json(a[0 + k])) =~= piece);
                } else {
                    lemma_unary_map_single(op, x);
                }
            },
            _ => {
                lemma_unary_map_single(op, x);
            },
        }
        match unary_item(op, x) {
            Ok(y) => assert(acc + seq![y] =~= acc.push(y)),
            Err(_) => {},
        }
        assert(step == unary_map(op, pre + piece));
        match step {
            Ok(acc2) => {
                lemma_unary_from(op, set, i + 1, acc2, lax);
            },
            Err(e) => {
                let post = set.skip(i + 1 as int);
                assert(set =~= set.take(i + 1 as int) + post);
                lemma_unary_operands_append(set.take(i + 1 as int), post, lax);
                lemma_unary_map_append(op, unary_operands(set.take(i + 1 as int), lax), unary_operands(post, lax));
            },
        }
    }
}

/// The operands of items written one after the other.
proof fn lemma_unary_operands_append(a: Seq<SItem>, b: Seq<SItem>, lax: bool)
    ensures
        unary_operands(a + b, lax) == unary_operands(a, lax) + unary_operands(b, lax),
    decreases b.len(),
{
    if b.len() == 0 {
        assert(a + b =~= a);
        assert(unary_operands(a, lax) + Seq::<SItem>::empty() =~= unary_operands(a, lax));
    } else {
        lemma_unary_operands_append(a, b.drop_last(), lax);
        assert((a + b).drop_last() =~= a + b.drop_last());
        assert((a + b).last() == b.last());
        assert(unary_operands(a, lax) + unary_operands(b.drop_last(), lax) + unary_piece(b.last(), lax)
            =~= unary_operands(a, lax) + (unary_operands(b.drop_last(), lax) + unary_piece(b.last(), lax)));
    }
}

/// A unary `+` or `-` applies to each item of its operand in order (in lax mode, to each
/// element of an array item): the results in order, or the error of the first operand that
/// is not numeric (or whose negation leaves the range of numbers).
pub proof fn law_unary_over_items(op: UnaryOp, x: Expr, c: Ctx, set: Seq<SItem>)
    requires
        sem_expr(x, c) == Ok::<Seq<SItem>, ErrorView>(set),
    ensures
        sem_expr(Expr::UnaryOp(op, Box::new(x)), c) == unary_map(op, unary_operands(set, c.lax)),
{
    assert(set.take(0) =~= Seq::<SItem>::empty());
    lemma_unary_from(op, set, 0, Seq::empty(), c.lax);
}

// Accessors over sequences of items.

/// An accessor applied to each item in order: the results concatenated, or the error of the
/// first item that gives one; when only the first result is asked for, the items after the
/// first one that gives any result are not looked at.
pub open spec fn accessor_over(op: AccessorOp, set: Seq<SItem>, c: Ctx) -> Result<Seq<SItem>, ErrorView>
    decreases set.len(),
{
    if set.len() == 0 {
        Ok(Seq::empty())
    } else {
        match accessor_over(op, set.drop_last(), c) {
            Err(e) => Err(e),
            Ok(prev) => if is_first(c) && prev.len() > 0 {
                Ok(prev)
            } else {
                match sem_accessor(op, with_current(c, set.last())) {
                    Err(e) => Err(e),
                    Ok(r) => Ok(prev + r),
                }
            },
        }
    }
}

/// Once the items before a place give an error, or (when only the first result is asked
/// for) a result, the items after it change nothing.
proof fn lemma_accessor_settled(op: AccessorOp, set: Seq<SItem>, c: Ctx, i: nat, j: nat)
    requires
        i <= j <= set.len(),
        accessor_over(op, set.take(i as int), c) is Err || (is_first(c) && (accessor_over(op, set.take(i as int), c)
            matches Ok(acc) && acc.len() > 0)),
    ensures
        accessor_over(op, set.take(j as int), c) == accessor_over(op, set.take(i as int), c),
    decreases j - i,
{
    if j > i {
        lemma_accessor_settled(op, set, c, i, (j - 1) as nat);
        assert(set.take(j as int).drop_last() =~= set.take(j - 1));
    }
}

/// The items from `i` on, after the results `acc` of those before, as an accessor takes
/// them.
proof fn lemma_accessor_from(op: AccessorOp, set: Seq<SItem>, c: Ctx, i: nat, acc: Seq<SItem>)
    requires
        i <= set.len(),
        accessor_over(op, set.take(i as int), c) == Ok::<Seq<SItem>, ErrorView>(acc),
        !(is_first(c) && acc.len() > 0),
    ensures
        accessor_from(op, set, i, acc, c) == accessor_over(op, set, c),
    decreases set.len() - i,
{
    if i == set.len() {
        assert(set.take(i as int) =~= set);
    } else {
        assert(set.take(i + 1 as int).drop_last() =~= set.take(i as int));
        assert(set.take(i + 1 as int).last() == set[i as int]);
        assert(set.take(set.len() as int) =~= set);
        match sem_accessor(op, with_current(c, set[i as int])) {
            Err(_) => {
                lemma_accessor_settled(op, set, c, i + 1, set.len());
            },
            Ok(r) => {
                let acc2 = acc + r;
                if is_first(c) && acc2.len() > 0 {
                    lemma_accessor_settled(op, set, c, i + 1, set.len());
                } else {
                    lemma_accessor_from(op, set, c, i + 1, acc2);
                }
            },
        }
    }
}

/// An accessor applies to each item of its base in order: the results of the items are
/// concatenated, the first error is the error, and when only the first result is asked
/// for, evaluation stops at the first item that gives any.
pub proof fn law_accessor_over_items(base: Expr, op: AccessorOp, c: Ctx)
    ensures
        sem_expr(Expr::Accessor(Box::new(base), op), c) == match sem_expr(base, all_of(c)) {
            Err(e) => Err(e),
            Ok(set) => accessor_over(op, set, c),
        },
{
    match sem_expr(base, all_of(c)) {
        Ok(set) => {
            assert(set.take(0) =~= Seq::<SItem>::empty());
            lemma_accessor_from(op, set, c, 0, Seq::empty());
        },
        Err(_) => {},
    }
}

// Filters and subscripts over sequences.

/// A filter applied to each value in order: the values it holds true of, or the error of the
/// first value that gives one; when only the first result is asked for, the values after the
/// first one kept are not looked at.
pub open spec fn filter_over(pred: Predicate, items: Seq<Json>, c: Ctx) -> Result<Seq<SItem>, ErrorView>
    decreases items.len(),
{
    if items.len() == 0 {
        Ok(Seq::empty())
    } else {
        match filter_over(pred, items.drop_last(), c) {
            Err(e) => Err(e),
            Ok(prev) => if is_first(c) && prev.len() > 0 {
                Ok(prev)
            } else {
                match sem_pred(pred, with_current(c, SItem::Json(items.last()))) {
                    Err(e) => Err(e),
                    Ok(t) => if t == crate::truth::Truth::True {
                        Ok(prev.push(SItem::Json(items.last())))
                    } else {
                        Ok(prev)
                    },
                }
            },
        }
    }
}

/// Once the values before a place give an error, or (when only the first result is asked
/// for) a value, the values after it change nothing.
proof fn lemma_filter_settled(pred: Predicate, items: Seq<Json>, c: Ctx, i: nat, j: nat)
    requires
        i <= j <= items.len(),
        filter_over(pred, items.take(i as int), c) is Err || (is_first(c) && (filter_over(
            pred,
            items.take(i as int),
            c,
        ) matches Ok(acc) && acc.len() > 0)),
    ensures
        filter_over(pred, items.take(j as int), c) == filter_over(pred, items.take(i as int), c),
    decreases j - i,
{
    if j > i {
        lemma_filter_settled(pred, items, c, i, (j - 1) as nat);
        assert(items.take(j as int).drop_last() =~= items.take(j - 1));
    }
}

/// The values from `i` on, after the values `acc` kept before, as a filter takes them.
proof fn lemma_filter_over_from(pred: Predicate, items: Seq<Json>, c: Ctx, i: nat, acc: Seq<SItem>)
    requires
        i <= items.len(),
        filter_over(pred, items.take(i as int), c) == Ok::<Seq<SItem>, ErrorView>(acc),
        !(is_first(c) && acc.len() > 0),
    ensures
        filter_from(pred, items, i, acc, c) == filter_over(pred, items, c),
    decreases items.len() - i,
{
    if i == items.len() {
        assert(items.take(i as int) =~= items);
    } else {
        assert(items.take(i + 1 as int).drop_last() =~= items.take(i as int));
        assert(items.take(i + 1 as int).last() == items[i as int]);
        assert(items.take(items.len() as int) =~= items);
        match sem_pred(pred, with_current(c, SItem::Json(items[i as int]))) {
            Err(_) => {
                lemma_filter_settled(pred, items, c, i + 1, items.len());
            },
            Ok(t) => {
                if t == crate::truth::Truth::True {
                    let acc2 = acc.push(SItem::Json(items[i as int]));
                    if is_first(c) {
                        lemma_filter_settled(pred, items, c, i + 1, items.len());
                    } else {
                        lemma_filter_over_from(pred, items, c, i + 1, acc2);
                    }
                } else {
                    lemma_filter_over_from(pred, items, c, i + 1, acc);
                }
            },
        }
    }
}

/// A filter on a JSON value applies to each value it stands for (in lax mode, each element of
/// an array) in order, keeping those it holds true of.
pub proof fn law_filter_over_items(pred: Predicate, c: Ctx)
    requires
        c.current is Json,
    ensures
        filter_result(pred, c) == filter_over(pred, lax_items(c.current->Json_0, c.lax), c),
{
    let items = lax_items(c.current->Json_0, c.lax);
    assert(items.take(0) =~= Seq::<Json>::empty());
    lemma_filter_over_from(pred, items, c, 0, Seq::empty());
}

/// What one subscript selects from `t`.
pub open spec fn index_piece(x: ArrayIndex, c: Ctx, t: Json) -> Result<Seq<SItem>, ErrorView> {
    let ca = with_array(c, t);
    match x {
        ArrayIndex::Index(e) => match index_value(e, ca) {
            Err(err) => Err(err),
            Ok(v) => index_step(t, v, c.lax),
        },
        ArrayIndex::Slice(b, e) => match index_value(b, ca) {
            Err(err) => Err(err),
            Ok(vb) => match index_value(e, ca) {
                Err(err) => Err(err),
                Ok(ve) => slice_step(t, vb, ve, c.lax),
            },
        },
    }
}

/// Subscripts applied in order: what each selects, concatenated, or the error of the first
/// that gives one.
pub open spec fn indices_over(idx: Seq<ArrayIndex>, c: Ctx, t: Json) -> Result<Seq<SItem>, ErrorView>
    decreases idx.len(),
{
    if idx.len() == 0 {
        Ok(Seq::empty())
    } else {
        match indices_over(idx.drop_last(), c, t) {
            Err(e) => Err(e),
            Ok(prev) => match index_piece(idx.last(), c, t) {
                Err(e) => Err(e),
                Ok(s) => Ok(prev + s),
            },
        }
    }
}

/// Once the subscripts before a place give an error, those after it change nothing.
proof fn lemma_indices_settled(idx: Seq<ArrayIndex>, c: Ctx, t: Json, i: nat, j: nat)
    requires
        i <= j <= idx.len(),
        indices_over(idx.take(i as int), c, t) is Err,
    ensures
        indices_over(idx.take(j as int), c, t) == indices_over(idx.take(i as int), c, t),
    decreases j - i,
{
    if j > i {
        lemma_indices_settled(idx, c, t, i, (j - 1) as nat);
        assert(idx.take(j as int).drop_last() =~= idx.take(j - 1));
    }
}

/// The subscripts from `k` on, after what those before selected, as they are applied.
proof fn lemma_index_from(idx: Seq<ArrayIndex>, c: Ctx, t: Json, k: nat, acc: Seq<SItem>)
    requires
        k <= idx.len(),
        indices_over(idx.take(k as int), c, t) == Ok::<Seq<SItem>, ErrorView>(acc),
    ensures
        index_from(idx, k, acc, c, t) == indices_over(idx, c, t),
    decreases idx.len() - k,
{
    if k == idx.len() {
        assert(idx.take(k as int) =~= idx);
    } else {
        assert(idx.take(k + 1 as int).drop_last() =~= idx.take(k as int));
        assert(idx.take(k + 1 as int).last() == idx[k as int]);
        assert(idx.take(idx.len() as int) =~= idx);
        match index_piece(idx[k as int], c, t) {
            Err(_) => {
                lemma_indices_settled(idx, c, t, k + 1, idx.len());
            },
            Ok(s) => {
                lemma_index_from(idx, c, t, k + 1, acc + s);
            },
        }
    }
}

/// Subscripts `[..., ...]` on a value apply in order, and what each selects is concatenated;
/// the first error is the error.
pub proof fn law_indices_over(idx: Seq<ArrayIndex>, c: Ctx)
    requires
        c.current is Json,
        c.current->Json_0 is Array || c.lax,
    ensures
        element_result(idx, c) == indices_over(idx, c, c.current->Json_0),
{
    let t = c.current->Json_0;
    assert(idx.take(0) =~= Seq::<ArrayIndex>::empty());
    lemma_index_from(idx, c, t, 0, Seq::empty());
}

} // verus!

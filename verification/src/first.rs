//! Evaluation that may stop at the first result, compared with full evaluation.

use vstd::prelude::*;
use crate::ast::{AccessorOp, ArrayIndex, ExprOrPredicate, Expr, JsonPath, Mode, PathPrimary, Predicate};
use crate::error::ErrorView;
use crate::item::{SItem, item_json, items_json};
use crate::json::Json;
use crate::sem::{
    Ctx, all_of, first_of, with_current, with_array, sem_expr, sem_primary, sem_eop, sem_pred, sem_accessor,
    accessor_from, filter_result, filter_from, index_from, index_value, lax_items, unary_from, unary_elems_from,
    json_items, initial_ctx, path_items, query_result, query_first_result,
};

verus! {

/// What stopping early may change: in strict mode nothing; when both evaluations succeed,
/// the early one gives a prefix of the full one.
#[verifier::opaque]
pub open spec fn agrees(t: Result<Seq<SItem>, ErrorView>, s: Result<Seq<SItem>, ErrorView>, lax: bool) -> bool {
    &&& (!lax ==> t == s)
    &&& (t is Ok && s is Ok ==> t->Ok_0.is_prefix_of(s->Ok_0))
}

/// [`agrees`], and when both succeed, one is empty exactly when the other is.
#[verifier::opaque]
pub open spec fn agrees_empty(t: Result<Seq<SItem>, ErrorView>, s: Result<Seq<SItem>, ErrorView>, lax: bool) -> bool {
    &&& agrees(t, s, lax)
    &&& (t is Ok && s is Ok ==> (t->Ok_0.len() == 0 <==> s->Ok_0.len() == 0))
}

/// The first value of a query result.
pub open spec fn first_value(r: Result<Seq<Json>, ErrorView>) -> Result<Option<Json>, ErrorView> {
    match r {
        Ok(s) => Ok(if s.len() > 0 { Some(s[0]) } else { None }),
        Err(e) => Err(e),
    }
}

/// Equal results agree.
proof fn lemma_agrees_refl(t: Result<Seq<SItem>, ErrorView>, lax: bool)
    ensures
        agrees(t, t, lax),
        agrees_empty(t, t, lax),
{
    reveal(agrees);
    reveal(agrees_empty);
    if t is Ok {
        assert(t->Ok_0.subrange(0, t->Ok_0.len() as int) =~= t->Ok_0);
    }
}

proof fn lemma_ctx(c: Ctx, i: SItem, t: Json)
    ensures
        all_of(all_of(c)) == all_of(c),
        first_of(all_of(c)) == first_of(c),
        all_of(first_of(c)) == all_of(c),
        with_current(first_of(c), i) == first_of(with_current(c, i)),
        with_current(all_of(c), i) == all_of(with_current(c, i)),
        with_array(first_of(c), t) == first_of(with_array(c, t)),
        with_array(all_of(c), t) == all_of(with_array(c, t)),
        first_of(c).lax == c.lax,
        all_of(c).lax == c.lax,
{
}

/// A predicate has the same truth whether or not only the first result is asked for.
proof fn lemma_pred_first_free(p: Predicate, c: Ctx)
    ensures
        sem_pred(p, c) == sem_pred(p, all_of(c)),
    decreases p,
{
    lemma_ctx(c, c.current, c.array);
    match p {
        Predicate::And(a, b) => {
            lemma_pred_first_free(*a, c);
            lemma_pred_first_free(*b, c);
        },
        Predicate::Or(a, b) => {
            lemma_pred_first_free(*a, c);
            lemma_pred_first_free(*b, c);
        },
        Predicate::Not(a) => {
            lemma_pred_first_free(*a, c);
        },
        Predicate::IsUnknown(a) => {
            lemma_pred_first_free(*a, c);
        },
        _ => {},
    }
}

/// An accessor applied to items only adds to what it has gathered.
proof fn lemma_accessor_from_extends(op: AccessorOp, set: Seq<SItem>, i: nat, acc: Seq<SItem>, c: Ctx)
    ensures
        accessor_from(op, set, i, acc, c) is Ok ==> acc.is_prefix_of(accessor_from(op, set, i, acc, c)->Ok_0),
    decreases set.len() - i,
{
    if i < set.len() {
        match sem_accessor(op, with_current(c, set[i as int])) {
            Ok(s) => {
                let acc2 = acc + s;
                if !(crate::sem::is_first(c) && acc2.len() > 0) {
                    lemma_accessor_from_extends(op, set, i + 1, acc2, c);
                }
            },
            Err(_) => {},
        }
    }
}

/// A filter only adds to what it has gathered.
proof fn lemma_filter_from_extends(pred: Predicate, items: Seq<Json>, i: nat, acc: Seq<SItem>, c: Ctx)
    ensures
        filter_from(pred, items, i, acc, c) is Ok ==> acc.is_prefix_of(filter_from(pred, items, i, acc, c)->Ok_0),
    decreases items.len() - i,
{
    if i < items.len() {
        match sem_pred(pred, with_current(c, SItem::Json(items[i as int]))) {
            Ok(t) => {
                if t == crate::truth::Truth::True {
                    if !crate::sem::is_first(c) {
                        lemma_filter_from_extends(pred, items, i + 1, acc.push(SItem::Json(items[i as int])), c);
                    }
                } else {
                    lemma_filter_from_extends(pred, items, i + 1, acc, c);
                }
            },
            Err(_) => {},
        }
    }
}

/// A filter that stops at its first match gives a prefix of all its matches.
proof fn lemma_filter_from(pred: Predicate, items: Seq<Json>, i: nat, acc: Seq<SItem>, c: Ctx)
    ensures
        ({
            let t = filter_from(pred, items, i, acc, first_of(c));
            let s = filter_from(pred, items, i, acc, all_of(c));
            &&& agrees(t, s, c.lax)
            &&& (t is Ok && s is Ok ==> (t->Ok_0.len() == acc.len() <==> s->Ok_0.len() == acc.len()))
        }),
    decreases items.len() - i,
{
    reveal(agrees);
    if i >= items.len() {
        lemma_agrees_refl(Ok(acc), c.lax);
    }
    if i < items.len() {
        let x = SItem::Json(items[i as int]);
        lemma_ctx(c, x, c.array);
        lemma_pred_first_free(pred, with_current(first_of(c), x));
        lemma_pred_first_free(pred, with_current(all_of(c), x));
        match sem_pred(pred, with_current(all_of(c), x)) {
            Ok(tv) => {
                if tv == crate::truth::Truth::True {
                    let acc2 = acc.push(x);
                    if c.lax {
                        lemma_filter_from_extends(pred, items, i + 1, acc2, all_of(c));
                    } else {
                        lemma_filter_from(pred, items, i + 1, acc2, c);
                    }
                } else {
                    lemma_filter_from(pred, items, i + 1, acc, c);
                }
            },
            Err(_) => {},
        }
    }
}

/// `+` or `-` over array elements only adds to what it has gathered.
proof fn lemma_unary_elems_extends(op: crate::ast::UnaryOp, a: Seq<Json>, k: nat, acc: Seq<SItem>)
    ensures
        unary_elems_from(op, a, k, acc) is Ok ==> acc.is_prefix_of(unary_elems_from(op, a, k, acc)->Ok_0),
    decreases a.len() - k,
{
    if k < a.len() {
        match crate::sem::unary_json(op, a[k as int]) {
            Ok(x) => lemma_unary_elems_extends(op, a, k + 1, acc.push(x)),
            Err(_) => {},
        }
    }
}

/// `+` or `-` over items only adds to what it has gathered.
proof fn lemma_unary_extends(op: crate::ast::UnaryOp, set: Seq<SItem>, i: nat, acc: Seq<SItem>, lax: bool)
    ensures
        unary_from(op, set, i, acc, lax) is Ok ==> acc.is_prefix_of(unary_from(op, set, i, acc, lax)->Ok_0),
    decreases set.len() - i,
{
    if i < set.len() {
        match set[i as int] {
            SItem::DateTime(_) => {},
            SItem::Json(j) => {
                let step = match j {
                    Json::Array(a) => if lax {
                        unary_elems_from(op, a, 0, acc)
                    } else {
                        match crate::sem::unary_json(op, j) {
                            Ok(x) => Ok(acc.push(x)),
                            Err(e) => Err(e),
                        }
                    },
                    _ => match crate::sem::unary_json(op, j) {
                        Ok(x) => Ok(acc.push(x)),
                        Err(e) => Err(e),
                    },
                };
                match j {
                    Json::Array(a) => if lax {
                        lemma_unary_elems_extends(op, a, 0, acc);
                    },
                    _ => {},
                }
                match step {
                    Ok(acc2) => lemma_unary_extends(op, set, i + 1, acc2, lax),
                    Err(_) => {},
                }
            },
        }
    }
}

/// `+` or `-` over a prefix of the items gives a prefix of the result over all of them.
proof fn lemma_unary_prefix(op: crate::ast::UnaryOp, s: Seq<SItem>, t: Seq<SItem>, i: nat, acc: Seq<SItem>, lax: bool)
    requires
        t.is_prefix_of(s),
        i <= t.len(),
        unary_from(op, s, i, acc, lax) is Ok,
    ensures
        unary_from(op, t, i, acc, lax) is Ok,
        unary_from(op, t, i, acc, lax)->Ok_0.is_prefix_of(unary_from(op, s, i, acc, lax)->Ok_0),
    decreases t.len() - i,
{
    if i >= t.len() {
        lemma_unary_extends(op, s, i, acc, lax);
    } else {
        assert(t[i as int] == s[i as int]);
        match s[i as int] {
            SItem::DateTime(_) => {},
            SItem::Json(j) => {
                let step = match j {
                    Json::Array(a) => if lax {
                        unary_elems_from(op, a, 0, acc)
                    } else {
                        match crate::sem::unary_json(op, j) {
                            Ok(x) => Ok(acc.push(x)),
                            Err(e) => Err(e),
                        }
                    },
                    _ => match crate::sem::unary_json(op, j) {
                        Ok(x) => Ok(acc.push(x)),
                        Err(e) => Err(e),
                    },
                };
                match step {
                    Ok(acc2) => lemma_unary_prefix(op, s, t, i + 1, acc2, lax),
                    Err(_) => {},
                }
            },
        }
    }
}

/// The early evaluation of an expression agrees with the full one.
proof fn lemma_expr(e: Expr, c: Ctx)
    ensures
        agrees(sem_expr(e, first_of(c)), sem_expr(e, all_of(c)), c.lax),
    decreases e, 0nat,
{
    reveal(agrees);
    lemma_ctx(c, c.current, c.array);
    match e {
        Expr::PathPrimary(p) => {
            lemma_primary(p, c);
            reveal(agrees);
        },
        Expr::Accessor(base, op) => {
            match sem_expr(*base, all_of(c)) {
                Ok(set) => {
                    lemma_accessor_from(op, set, 0, Seq::empty(), c);
                },
                Err(_) => {},
            }
        },
        Expr::UnaryOp(op, x) => {
            lemma_expr(*x, c);
            let tf = sem_expr(*x, first_of(c));
            let sa = sem_expr(*x, all_of(c));
            if tf is Ok && sa is Ok {
                if unary_from(op, sa->Ok_0, 0, Seq::empty(), c.lax) is Ok {
                    lemma_unary_prefix(op, sa->Ok_0, tf->Ok_0, 0, Seq::empty(), c.lax);
                }
            }
        },
        Expr::BinaryOp(op, l, r) => {
            lemma_expr(*l, c);
            lemma_expr(*r, c);
            let lf = sem_expr(*l, first_of(c));
            let la = sem_expr(*l, all_of(c));
            let rf = sem_expr(*r, first_of(c));
            let ra = sem_expr(*r, all_of(c));
            if lf is Ok && la is Ok && lf->Ok_0.len() == 1 && la->Ok_0.len() == 1 {
                assert(lf->Ok_0 =~= la->Ok_0);
            }
            if rf is Ok && ra is Ok && rf->Ok_0.len() == 1 && ra->Ok_0.len() == 1 {
                assert(rf->Ok_0 =~= ra->Ok_0);
            }
        },
    }
}

/// The early evaluation of a primary expression agrees with the full one.
proof fn lemma_primary(p: PathPrimary, c: Ctx)
    ensures
        agrees(sem_primary(p, first_of(c)), sem_primary(p, all_of(c)), c.lax),
    decreases p, 0nat,
{
    lemma_ctx(c, c.current, c.array);
    match p {
        PathPrimary::ExprOrPred(x) => {
            lemma_eop(*x, c);
        },
        _ => {
            lemma_agrees_refl(sem_primary(p, all_of(c)), c.lax);
        },
    }
}

/// The early evaluation of an expression or predicate agrees with the full one.
proof fn lemma_eop(x: ExprOrPredicate, c: Ctx)
    ensures
        agrees(sem_eop(x, first_of(c)), sem_eop(x, all_of(c)), c.lax),
    decreases x, 0nat,
{
    lemma_ctx(c, c.current, c.array);
    match x {
        ExprOrPredicate::Expr(e) => {
            lemma_expr(e, c);
        },
        ExprOrPredicate::Pred(q) => {
            lemma_pred_first_free(q, first_of(c));
            lemma_pred_first_free(q, all_of(c));
            lemma_agrees_refl(sem_eop(x, all_of(c)), c.lax);
        },
    }
}

/// An accessor applied to items, stopping early or not, agrees.
#[verifier::spinoff_prover]
#[verifier::rlimit(40)]
proof fn lemma_accessor_from(op: AccessorOp, set: Seq<SItem>, i: nat, acc: Seq<SItem>, c: Ctx)
    ensures
        ({
            let t = accessor_from(op, set, i, acc, first_of(c));
            let s = accessor_from(op, set, i, acc, all_of(c));
            &&& agrees(t, s, c.lax)
            &&& (t is Ok && s is Ok && acc.len() == 0 ==> (t->Ok_0.len() == 0 <==> s->Ok_0.len() == 0))
        }),
    decreases op, set.len() - i + 1,
{
    reveal(agrees);
    reveal(agrees_empty);
    if i >= set.len() {
        lemma_agrees_refl(Ok(acc), c.lax);
    }
    if i < set.len() {
        let x = set[i as int];
        lemma_ctx(c, x, c.array);
        lemma_accessor(op, with_current(c, x));
        let rf = sem_accessor(op, with_current(first_of(c), x));
        let ra = sem_accessor(op, with_current(all_of(c), x));
        if rf is Ok && ra is Ok {
            let tf = rf->Ok_0;
            let sa = ra->Ok_0;
            if c.lax {
                if (acc + tf).len() > 0 {
                    lemma_accessor_from_extends(op, set, i + 1, acc + sa, all_of(c));
                    if accessor_from(op, set, i + 1, acc + sa, all_of(c)) is Ok {
                        let full = accessor_from(op, set, i + 1, acc + sa, all_of(c))->Ok_0;
                        assert((acc + tf).is_prefix_of(acc + sa)) by {
                            assert((acc + sa).subrange(0, (acc + tf).len() as int) =~= acc + tf);
                        }
                        assert((acc + tf).is_prefix_of(full)) by {
                            assert(full.subrange(0, (acc + tf).len() as int) =~= (acc + sa).subrange(
                                0,
                                (acc + tf).len() as int,
                            ));
                        }
                    }
                } else {
                    assert(acc + tf =~= acc + sa);
                    lemma_accessor_from(op, set, i + 1, acc + tf, c);
                }
            } else {
                lemma_accessor_from(op, set, i + 1, acc + tf, c);
            }
        }
    }
}

/// An accessor applied to one item, stopping early or not, agrees.
proof fn lemma_accessor(op: AccessorOp, c: Ctx)
    ensures
        agrees_empty(sem_accessor(op, first_of(c)), sem_accessor(op, all_of(c)), c.lax),
    decreases op, 0nat,
{
    lemma_ctx(c, c.current, c.array);
    match op {
        AccessorOp::ElementWildcard => {
            reveal(agrees);
            reveal(agrees_empty);
            match c.current {
                SItem::Json(Json::Array(a)) => {
                    if c.lax && a.len() > 0 {
                        assert(seq![SItem::Json(a[0])] =~= json_items(a).subrange(0, 1));
                    }
                },
                _ => {},
            }
        },
        AccessorOp::Element(indices) => {
            match c.current {
                SItem::Json(j) => {
                    lemma_index_from(indices@, 0, Seq::empty(), c, j);
                    lemma_agrees_refl(sem_accessor(op, all_of(c)), c.lax);
                    reveal(agrees);
                    reveal(agrees_empty);
                },
                _ => {
                    lemma_agrees_refl(sem_accessor(op, all_of(c)), c.lax);
                },
            }
        },
        AccessorOp::FilterExpr(pred) => {
            lemma_filter(*pred, c);
        },
        _ => {
            lemma_agrees_refl(sem_accessor(op, all_of(c)), c.lax);
        },
    }
}

/// Subscripts select the same elements whether or not evaluation may stop early.
proof fn lemma_index_from(idx: Seq<ArrayIndex>, k: nat, acc: Seq<SItem>, c: Ctx, t: Json)
    ensures
        ({
            let rf = index_from(idx, k, acc, first_of(c), t);
            let ra = index_from(idx, k, acc, all_of(c), t);
            &&& (!c.lax ==> rf == ra)
            &&& (rf is Ok && ra is Ok ==> rf == ra)
        }),
    decreases idx, idx.len() - k + 1,
{
    if k < idx.len() {
        lemma_ctx(c, c.current, t);
        let ca = with_array(c, t);
        let step_f = match idx[k as int] {
            ArrayIndex::Index(e) => {
                lemma_index_value(e, ca);
                match index_value(e, with_array(first_of(c), t)) {
                    Err(err) => Err(err),
                    Ok(v) => crate::sem::index_step(t, v, c.lax),
                }
            },
            ArrayIndex::Slice(b, e) => {
                lemma_index_value(b, ca);
                lemma_index_value(e, ca);
                match index_value(b, with_array(first_of(c), t)) {
                    Err(err) => Err(err),
                    Ok(vb) => match index_value(e, with_array(first_of(c), t)) {
                        Err(err) => Err(err),
                        Ok(ve) => crate::sem::slice_step(t, vb, ve, c.lax),
                    },
                }
            },
        };
        match step_f {
            Ok(sf) => {
                lemma_index_from(idx, k + 1, acc + sf, c, t);
            },
            Err(_) => {},
        }
    }
}

/// A subscript has the same value whether or not evaluation may stop early.
proof fn lemma_index_value(e: Expr, c: Ctx)
    ensures
        ({
            let rf = index_value(e, first_of(c));
            let ra = index_value(e, all_of(c));
            &&& (!c.lax ==> rf == ra)
            &&& (rf is Ok && ra is Ok ==> rf == ra)
        }),
    decreases e, 1nat,
{
    lemma_expr(e, c);
    reveal(agrees);
    let tf = sem_expr(e, first_of(c));
    let sa = sem_expr(e, all_of(c));
    if tf is Ok && sa is Ok && tf->Ok_0.len() == 1 && sa->Ok_0.len() == 1 {
        assert(tf->Ok_0 =~= sa->Ok_0);
    }
}

/// A filter applied to one item, stopping early or not, agrees.
#[verifier::spinoff_prover]
proof fn lemma_filter(pred: Predicate, c: Ctx)
    ensures
        agrees_empty(filter_result(pred, first_of(c)), filter_result(pred, all_of(c)), c.lax),
{
    match c.current {
        SItem::Json(j) => {
            lemma_filter_json(pred, c, j);
            lemma_filter_from(pred, lax_items(j, c.lax), 0, Seq::empty(), c);
            reveal(agrees_empty);
        },
        SItem::DateTime(_) => {
            lemma_filter_datetime(pred, c);
            lemma_agrees_refl(filter_result(pred, all_of(c)), c.lax);
        },
    }
}

/// A filter applied to a JSON value walks the values it stands for.
#[verifier::spinoff_prover]
proof fn lemma_filter_json(pred: Predicate, c: Ctx, j: Json)
    requires
        c.current == SItem::Json(j),
    ensures
        filter_result(pred, first_of(c)) == filter_from(pred, lax_items(j, c.lax), 0, Seq::empty(), first_of(c)),
        filter_result(pred, all_of(c)) == filter_from(pred, lax_items(j, c.lax), 0, Seq::empty(), all_of(c)),
{
    lemma_ctx(c, c.current, c.array);
    crate::sem::lemma_filter_result(pred, first_of(c));
    crate::sem::lemma_filter_result(pred, all_of(c));
}

/// A filter applied to a datetime item tests it once, whether or not it may stop early.
#[verifier::spinoff_prover]
proof fn lemma_filter_datetime(pred: Predicate, c: Ctx)
    requires
        c.current is DateTime,
    ensures
        filter_result(pred, first_of(c)) == filter_result(pred, all_of(c)),
{
    lemma_ctx(c, c.current, c.array);
    crate::sem::lemma_filter_result(pred, first_of(c));
    crate::sem::lemma_filter_result(pred, all_of(c));
    lemma_pred_first_free(pred, first_of(c));
    lemma_pred_first_free(pred, all_of(c));
}

/// The value `query_first` gives is the first value `query` gives: exactly so in strict
/// mode (the same value, or the same error); in lax mode, when both succeed, a value that
/// `query_first` gives is the first of those `query` gives, and an empty `query` result
/// means `query_first` gives none.
pub proof fn law_query_first_agrees(p: JsonPath, root: Json, vars: Json)
    ensures
        p.mode == Mode::Strict ==> query_first_result(p, root, vars) == first_value(query_result(p, root, vars)),
        match (query_result(p, root, vars), query_first_result(p, root, vars)) {
            (Ok(s), Ok(o)) => (o matches Some(v) ==> s.len() > 0 && v == s[0]) && (s.len() == 0 ==> o is None),
            _ => true,
        },
{
    let c = initial_ctx(root, vars, p.mode, false);
    assert(initial_ctx(root, vars, p.mode, true) == first_of(c));
    assert(c == all_of(c));
    lemma_eop(p.expr, c);
    reveal(agrees);
    let tf = path_items(p, root, vars, true);
    let sa = path_items(p, root, vars, false);
    if tf is Ok && sa is Ok {
        let t = tf->Ok_0;
        let s = sa->Ok_0;
        if t.len() > 0 {
            assert(t[0] == s[0]);
            assert(items_json(s)[0] == item_json(s[0]));
        }
    }
}

} // verus!

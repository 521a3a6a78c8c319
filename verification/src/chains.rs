//! Facts about derivations used to show that the parser finds every path the grammar
//! derives: where each level stops, how a text may start, and the left chains of the
//! binary levels.

use vstd::prelude::*;
use crate::ast::{AccessorOp, ArrayIndex, Expr, Predicate, Value};
use crate::grammar::{
    add_op_lit, at, at2, compare_op_lit, g_accessor, g_add, g_and, g_compare, g_indices, g_item, g_list, g_mul,
    g_not, g_or, g_postfix, g_primary, g_unary, ident_char, ident_end, initial_lit, mul_op_lit, number_lit,
    regex_lit, skip, string_lit, variable_lit, word, Deriv, blank,
};
use crate::like_regex::LikeRegex;
use crate::parser::Node;
use crate::text::{is_digit, scan_digits, scan_number};

verus! {

/// After a postfix expression ending at `q`, no accessor follows.
pub open spec fn stop_postfix(s: Seq<char>, q: nat) -> bool {
    let t = skip(s, q);
    !at(s, t, '.') && !at(s, t, '[') && !at(s, t, '?')
}

/// After a product ending at `q`, no accessor or multiplicative operator follows.
pub open spec fn stop_mul(s: Seq<char>, q: nat) -> bool {
    stop_postfix(s, q) && mul_op_lit(s, skip(s, q)) is None
}

/// After a sum ending at `q`, no operator of a sum or product and no accessor follows.
pub open spec fn stop_add(s: Seq<char>, q: nat) -> bool {
    stop_mul(s, q) && add_op_lit(s, skip(s, q)) is None
}

/// After a comparison ending at `q`, nothing that would extend it follows.
pub open spec fn stop_compare(s: Seq<char>, q: nat) -> bool {
    let t = skip(s, q);
    &&& stop_add(s, q)
    &&& compare_op_lit(s, t) is None
    &&& word(s, t, "starts"@) is None
    &&& word(s, t, "like_regex"@) is None
    &&& word(s, t, "is"@) is None
}

/// After a conjunction ending at `q`, no `&&` follows.
pub open spec fn stop_and(s: Seq<char>, q: nat) -> bool {
    stop_compare(s, q) && !at2(s, skip(s, q), '&', '&')
}

/// After a disjunction ending at `q`, no `||` follows.
pub open spec fn stop_or(s: Seq<char>, q: nat) -> bool {
    stop_and(s, q) && !at2(s, skip(s, q), '|', '|')
}

/// Whether a character may begin a primary expression.
pub open spec fn primary_start(c: char) -> bool {
    c == '$' || c == '@' || c == '(' || c == '"' || c == '.' || ident_char(c)
}

/// A skip lands on a place where skipping again stays.
pub proof fn lemma_skip_skip(s: Seq<char>, i: nat)
    ensures
        skip(s, skip(s, i)) == skip(s, i),
        skip(s, i) >= i,
    decreases s.len() - i,
{
    if i < s.len() && blank(s[i as int]) {
        lemma_skip_skip(s, i + 1);
    }
}

/// A scan of digits that moves starts on a digit.
proof fn lemma_scan_digits_start(s: Seq<char>, i: nat)
    ensures
        scan_digits(s, i) > i ==> i < s.len() && is_digit(s[i as int]),
{
}

/// A name that ends after its start begins with a name character.
pub proof fn lemma_ident_start(s: Seq<char>, i: nat)
    ensures
        ident_end(s, i) > i ==> i < s.len() && ident_char(s[i as int]),
{
}

/// A number literal starts with a digit, or with a point followed by a digit.
pub proof fn lemma_number_start(s: Seq<char>, t: nat)
    requires
        number_lit(s, t) is Some,
    ensures
        t < s.len(),
        is_digit(s[t as int]) || (s[t as int] == '.' && t + 1 < s.len() && is_digit(s[t + 1 as int])),
{
    let sc = scan_number(s, t);
    lemma_scan_digits_start(s, t);
    lemma_scan_digits_start(s, t + 1);
}

/// A primary expression begins with one of its starting characters.
pub proof fn lemma_primary_start(s: Seq<char>, p: nat, q: nat, n: Node, sub: bool, filt: bool, d: Deriv)
    requires
        g_primary(s, p, q, n, sub, filt, d),
    ensures
        skip(s, p) < s.len() && primary_start(s[skip(s, p) as int]),
{
    let t = skip(s, p);
    match d {
        Deriv::Leaf => {
            if number_lit(s, t) is Some {
                lemma_number_start(s, t);
            }
            lemma_ident_start(s, t);
        },
        Deriv::Neg(_) => {
            lemma_ident_start(s, t);
        },
        _ => {},
    }
}

/// A postfix expression begins like its primary expression.
pub proof fn lemma_postfix_start(s: Seq<char>, p: nat, q: nat, n: Node, sub: bool, filt: bool, d: Deriv)
    requires
        g_postfix(s, p, q, n, sub, filt, d),
    ensures
        skip(s, p) < s.len() && primary_start(s[skip(s, p) as int]),
    decreases d,
{
    match d {
        Deriv::Up(d1) => lemma_primary_start(s, p, q, n, sub, filt, *d1),
        Deriv::Pair(m, dl, _) => {
            let b = n->E_0->Accessor_0;
            lemma_postfix_start(s, p, m, Node::E(*b), sub, filt, *dl);
        },
        Deriv::PairP(m, dl, _) => {
            let b = n->E_0->Accessor_0;
            let y = b->PathPrimary_0->ExprOrPred_0->Pred_0;
            lemma_postfix_start(s, p, m, Node::P(y), sub, filt, *dl);
        },
        _ => {},
    }
}

/// Whether a character may begin an expression or predicate.
pub open spec fn start_char(c: char) -> bool {
    c == '!' || c == '+' || c == '-' || primary_start(c)
}

/// A unary expression begins with a sign or like a primary expression.
pub proof fn lemma_unary_start(s: Seq<char>, p: nat, q: nat, n: Node, sub: bool, filt: bool, d: Deriv)
    requires
        g_unary(s, p, q, n, sub, filt, d),
    ensures
        skip(s, p) < s.len(),
        s[skip(s, p) as int] != '!',
        start_char(s[skip(s, p) as int]),
{
    lemma_skip_skip(s, p);
    match d {
        Deriv::Up(d1) => lemma_postfix_start(s, skip(s, p), q, n, sub, filt, *d1),
        _ => {},
    }
}

/// A product begins like a unary expression.
pub proof fn lemma_mul_start(s: Seq<char>, p: nat, q: nat, n: Node, sub: bool, filt: bool, d: Deriv)
    requires
        g_mul(s, p, q, n, sub, filt, d),
    ensures
        skip(s, p) < s.len(),
        s[skip(s, p) as int] != '!',
        start_char(s[skip(s, p) as int]),
    decreases d,
{
    match d {
        Deriv::Up(d1) => lemma_unary_start(s, p, q, n, sub, filt, *d1),
        Deriv::Pair(m, dl, _) => lemma_mul_start(s, p, m, Node::E(*n->E_0->BinaryOp_1), sub, filt, *dl),
        _ => {},
    }
}

/// A sum begins like a unary expression.
pub proof fn lemma_add_start(s: Seq<char>, p: nat, q: nat, n: Node, sub: bool, filt: bool, d: Deriv)
    requires
        g_add(s, p, q, n, sub, filt, d),
    ensures
        skip(s, p) < s.len(),
        s[skip(s, p) as int] != '!',
        start_char(s[skip(s, p) as int]),
    decreases d,
{
    match d {
        Deriv::Up(d1) => lemma_mul_start(s, p, q, n, sub, filt, *d1),
        Deriv::Pair(m, dl, _) => lemma_add_start(s, p, m, Node::E(*n->E_0->BinaryOp_1), sub, filt, *dl),
        _ => {},
    }
}

/// A comparison does not begin with `!`.
pub proof fn lemma_compare_start(s: Seq<char>, p: nat, q: nat, n: Node, sub: bool, filt: bool, d: Deriv)
    requires
        g_compare(s, p, q, n, sub, filt, d),
    ensures
        skip(s, p) < s.len(),
        s[skip(s, p) as int] != '!',
        start_char(s[skip(s, p) as int]),
{
    match d {
        Deriv::Up(d1) => lemma_add_start(s, p, q, n, sub, filt, *d1),
        Deriv::Pair(m, dl, _) => lemma_add_start(s, p, m, Node::E(*n->P_0->Compare_1), sub, filt, *dl),
        Deriv::Sub(m, d1) => {
            match n {
                Node::P(Predicate::StartsWith(x, _)) => lemma_add_start(s, p, m, Node::E(*x), sub, filt, *d1),
                Node::P(Predicate::LikeRegex(x, _)) => lemma_add_start(s, p, m, Node::E(*x), sub, filt, *d1),
                Node::P(Predicate::IsUnknown(x)) => lemma_add_start(s, p, m, Node::P(*x), sub, filt, *d1),
                _ => {},
            }
        },
        _ => {},
    }
}

// The four binary levels: 0 for `||`, 1 for `&&`, 2 for `+`/`-`, 3 for `*`/`/`/`%`.

/// The relation of a binary level.
pub open spec fn g_level(lv: nat, s: Seq<char>, p: nat, q: nat, n: Node, sub: bool, filt: bool, d: Deriv) -> bool {
    if lv == 0 {
        g_or(s, p, q, n, sub, filt, d)
    } else if lv == 1 {
        g_and(s, p, q, n, sub, filt, d)
    } else if lv == 2 {
        g_add(s, p, q, n, sub, filt, d)
    } else {
        g_mul(s, p, q, n, sub, filt, d)
    }
}

/// The relation of the level below a binary level.
pub open spec fn g_lower(lv: nat, s: Seq<char>, p: nat, q: nat, n: Node, sub: bool, filt: bool, d: Deriv) -> bool {
    if lv == 0 {
        g_and(s, p, q, n, sub, filt, d)
    } else if lv == 1 {
        g_not(s, p, q, n, sub, filt, d)
    } else if lv == 2 {
        g_mul(s, p, q, n, sub, filt, d)
    } else {
        g_unary(s, p, q, n, sub, filt, d)
    }
}

/// The length of the operator of a binary level at `t`, if one stands there.
pub open spec fn connector(lv: nat, s: Seq<char>, t: nat) -> Option<nat> {
    if lv == 0 {
        if at2(s, t, '|', '|') { Some(2) } else { None }
    } else if lv == 1 {
        if at2(s, t, '&', '&') { Some(2) } else { None }
    } else if lv == 2 {
        if add_op_lit(s, t) is Some { Some(1) } else { None }
    } else {
        if mul_op_lit(s, t) is Some { Some(1) } else { None }
    }
}

/// Where a binary level stops.
pub open spec fn stop_level(lv: nat, s: Seq<char>, q: nat) -> bool {
    if lv == 0 {
        stop_or(s, q)
    } else if lv == 1 {
        stop_and(s, q)
    } else if lv == 2 {
        stop_add(s, q)
    } else {
        stop_mul(s, q)
    }
}

/// Where the level below a binary level stops.
pub open spec fn stop_lower(lv: nat, s: Seq<char>, q: nat) -> bool {
    if lv == 0 {
        stop_and(s, q)
    } else if lv == 1 {
        stop_compare(s, q)
    } else if lv == 2 {
        stop_mul(s, q)
    } else {
        stop_postfix(s, q)
    }
}

/// Whether nodes of a binary level are predicates.
pub open spec fn level_pred(lv: nat) -> bool {
    lv <= 1
}

/// The left operand of a node of a binary level.
pub open spec fn left_node(lv: nat, n: Node) -> Node {
    if lv <= 1 {
        match n {
            Node::P(Predicate::Or(a, _)) => Node::P(*a),
            Node::P(Predicate::And(a, _)) => Node::P(*a),
            _ => n,
        }
    } else {
        match n {
            Node::E(Expr::BinaryOp(_, l, _)) => Node::E(*l),
            _ => n,
        }
    }
}

/// The right operand of a node of a binary level.
pub open spec fn right_node(lv: nat, n: Node) -> Node {
    if lv <= 1 {
        match n {
            Node::P(Predicate::Or(_, b)) => Node::P(*b),
            Node::P(Predicate::And(_, b)) => Node::P(*b),
            _ => n,
        }
    } else {
        match n {
            Node::E(Expr::BinaryOp(_, _, r)) => Node::E(*r),
            _ => n,
        }
    }
}

/// The first operand of a chain: its end, node and derivation at the level below.
pub open spec fn chain_first(lv: nat, q: nat, n: Node, d: Deriv) -> (nat, Node, Deriv)
    decreases d,
{
    match d {
        Deriv::Pair(m, dl, _) => chain_first(lv, m, left_node(lv, n), *dl),
        Deriv::Up(d1) => (q, n, *d1),
        _ => (q, n, d),
    }
}

/// Whether `x` is where a left part of a chain ends.
pub open spec fn chain_has(lv: nat, q: nat, n: Node, d: Deriv, x: nat) -> bool
    decreases d,
{
    x == q || (d matches Deriv::Pair(m, dl, _) && chain_has(lv, m, left_node(lv, n), *dl, x))
}

/// The operand that follows the left part of a chain ending at `x`.
pub open spec fn chain_next(lv: nat, q: nat, n: Node, d: Deriv, x: nat) -> (nat, Node, Deriv)
    decreases d,
{
    match d {
        Deriv::Pair(m, dl, dr) => if m == x {
            (q, right_node(lv, n), *dr)
        } else {
            chain_next(lv, m, left_node(lv, n), *dl, x)
        },
        _ => (q, n, d),
    }
}

/// Whether the left part of a chain ending at `x` is a predicate.
pub open spec fn chain_kind(lv: nat, q: nat, n: Node, d: Deriv, x: nat) -> bool
    decreases d,
{
    if x == q {
        n is P
    } else {
        match d {
            Deriv::Pair(m, dl, _) => chain_kind(lv, m, left_node(lv, n), *dl, x),
            _ => n is P,
        }
    }
}

/// The operators of the levels do not extend the level below.
pub proof fn lemma_connector_stops(lv: nat, s: Seq<char>, y: nat)
    requires
        lv <= 3,
        connector(lv, s, skip(s, y)) is Some,
    ensures
        stop_lower(lv, s, y),
{
    let t = skip(s, y);
    lemma_ident_start(s, t);
    lemma_ident_start(s, t);
}

/// A level stops where its operators are absent and the level below stops.
pub proof fn lemma_stop_level(lv: nat, s: Seq<char>, q: nat)
    requires
        lv <= 3,
        stop_level(lv, s, q),
    ensures
        stop_lower(lv, s, q),
        connector(lv, s, skip(s, q)) is None,
{
}

/// The parts of a pair of a binary level: the left part, the operator after it and the
/// right operand.
pub proof fn lemma_pair_parts(lv: nat, s: Seq<char>, p: nat, q: nat, n: Node, sub: bool, filt: bool, d: Deriv)
    requires
        lv <= 3,
        g_level(lv, s, p, q, n, sub, filt, d),
        d is Pair,
    ensures
        ({
            let m = d->Pair_0;
            let t = skip(s, m);
            &&& p <= m
            &&& m <= t
            &&& connector(lv, s, t) is Some
            &&& g_level(lv, s, p, m, left_node(lv, n), sub, filt, *d->Pair_1)
            &&& g_lower(lv, s, t + connector(lv, s, t)->0, q, right_node(lv, n), sub, filt, *d->Pair_2)
            &&& t + connector(lv, s, t)->0 <= q
            &&& (n is P) == level_pred(lv)
            &&& (left_node(lv, n) is P) == level_pred(lv)
            &&& (right_node(lv, n) is P) == level_pred(lv)
        }),
{
    let m = d->Pair_0;
    lemma_skip_skip(s, m);
    let t = skip(s, m);
    if lv == 0 {
        assert(connector(lv, s, t) == Some(2nat));
    } else if lv == 1 {
        assert(connector(lv, s, t) == Some(2nat));
    } else if lv == 2 {
        assert(connector(lv, s, t) == Some(1nat));
    } else {
        assert(connector(lv, s, t) == Some(1nat));
    }
    lemma_lower_end(lv, s, t + connector(lv, s, t)->0, q, right_node(lv, n), sub, filt, *d->Pair_2);
}

/// What a chain gives: its first operand, and each operand after a left part.
pub proof fn lemma_chain(lv: nat, s: Seq<char>, p: nat, q: nat, n: Node, sub: bool, filt: bool, d: Deriv)
    requires
        lv <= 3,
        g_level(lv, s, p, q, n, sub, filt, d),
    ensures
        ({
            let (f, fnode, fd) = chain_first(lv, q, n, d);
            &&& g_lower(lv, s, p, f, fnode, sub, filt, fd)
            &&& chain_has(lv, q, n, d, f)
            &&& chain_kind(lv, q, n, d, f) == (fnode is P)
        }),
        forall|x: nat|
            #![trigger chain_has(lv, q, n, d, x)]
            chain_has(lv, q, n, d, x) && x != q ==> ({
                let t = skip(s, x);
                let (y, ynode, yd) = chain_next(lv, q, n, d, x);
                &&& connector(lv, s, t) is Some
                &&& g_lower(lv, s, t + connector(lv, s, t)->0, y, ynode, sub, filt, yd)
                &&& chain_has(lv, q, n, d, y)
                &&& x < y
                &&& chain_kind(lv, q, n, d, x) == level_pred(lv)
                &&& chain_kind(lv, q, n, d, y) == level_pred(lv)
                &&& (ynode is P) == level_pred(lv)
            }),
    decreases d,
{
    lemma_chain_ends(lv, s, p, q, n, sub, filt, d);
    match d {
        Deriv::Pair(m, dl, dr) => {
            let a = left_node(lv, n);
            lemma_pair_parts(lv, s, p, q, n, sub, filt, d);
            lemma_chain(lv, s, p, m, a, sub, filt, *dl);
            lemma_chain_ends(lv, s, p, m, a, sub, filt, *dl);
            let (f, fnode, fd) = chain_first(lv, m, a, *dl);
            assert(chain_first(lv, q, n, d) == (f, fnode, fd));
            assert(chain_has(lv, m, a, *dl, f));
            assert(f <= m);
            assert(chain_has(lv, q, n, d, f));
            assert(chain_kind(lv, q, n, d, f) == chain_kind(lv, m, a, *dl, f));
            assert forall|x: nat|
                #![trigger chain_has(lv, q, n, d, x)]
                chain_has(lv, q, n, d, x) && x != q implies ({
                let t = skip(s, x);
                let (y, ynode, yd) = chain_next(lv, q, n, d, x);
                &&& connector(lv, s, t) is Some
                &&& g_lower(lv, s, t + connector(lv, s, t)->0, y, ynode, sub, filt, yd)
                &&& chain_has(lv, q, n, d, y)
                &&& x < y
                &&& chain_kind(lv, q, n, d, x) == level_pred(lv)
                &&& chain_kind(lv, q, n, d, y) == level_pred(lv)
                &&& (ynode is P) == level_pred(lv)
            }) by {
                assert(chain_has(lv, m, a, *dl, x));
                assert(x <= m);
                assert(chain_kind(lv, q, n, d, x) == chain_kind(lv, m, a, *dl, x));
                if x == m {
                    assert(chain_next(lv, q, n, d, x) == (q, right_node(lv, n), *dr));
                    assert(chain_has(lv, q, n, d, q));
                    assert(chain_kind(lv, m, a, *dl, m) == (a is P));
                } else {
                    assert(chain_next(lv, q, n, d, x) == chain_next(lv, m, a, *dl, x));
                    let y = chain_next(lv, m, a, *dl, x).0;
                    assert(chain_has(lv, m, a, *dl, y));
                    assert(y <= m);
                    assert(chain_has(lv, q, n, d, y));
                    assert(chain_kind(lv, q, n, d, y) == chain_kind(lv, m, a, *dl, y));
                }
            }
        },
        Deriv::Up(d1) => {
            assert(chain_first(lv, q, n, d) == (q, n, *d1));
            assert(chain_has(lv, q, n, d, q));
            if lv == 0 {
            } else if lv == 1 {
            } else if lv == 2 {
            } else {
            }
        },
        _ => {
            if lv == 0 {
            } else if lv == 1 {
            } else if lv == 2 {
            } else {
            }
        },
    }
}

/// The left parts of a chain end within it, and a left part is a predicate exactly at the
/// levels of predicates, or at the first operand.
pub proof fn lemma_chain_ends(lv: nat, s: Seq<char>, p: nat, q: nat, n: Node, sub: bool, filt: bool, d: Deriv)
    requires
        lv <= 3,
        g_level(lv, s, p, q, n, sub, filt, d),
    ensures
        forall|x: nat| #![trigger chain_has(lv, q, n, d, x)] chain_has(lv, q, n, d, x) ==> x <= q,
        d is Pair ==> (n is P) == level_pred(lv),
    decreases d,
{
    match d {
        Deriv::Pair(m, dl, dr) => {
            lemma_pair_parts(lv, s, p, q, n, sub, filt, d);
            lemma_chain_ends(lv, s, p, m, left_node(lv, n), sub, filt, *dl);
            assert forall|x: nat| #![trigger chain_has(lv, q, n, d, x)] chain_has(lv, q, n, d, x) implies x <= q by {
                if x != q {
                    assert(chain_has(lv, m, left_node(lv, n), *dl, x));
                }
            }
        },
        _ => {},
    }
}

/// A part of the level below ends after it starts.
pub proof fn lemma_lower_end(lv: nat, s: Seq<char>, p: nat, q: nat, n: Node, sub: bool, filt: bool, d: Deriv)
    requires
        lv <= 3,
        g_lower(lv, s, p, q, n, sub, filt, d),
    ensures
        p <= q,
{
}

// The postfix level: a primary expression followed by accessors.

/// The postfix expression that the last accessor of a postfix pair applies to.
pub open spec fn pleft(n: Node, d: Deriv) -> Node {
    if d is PairP {
        Node::P(n->E_0->Accessor_0->PathPrimary_0->ExprOrPred_0->Pred_0)
    } else {
        Node::E(*n->E_0->Accessor_0)
    }
}

/// The primary expression of a postfix chain: its end, node and derivation.
pub open spec fn pchain_first(q: nat, n: Node, d: Deriv) -> (nat, Node, Deriv)
    decreases d,
{
    match d {
        Deriv::Pair(m, dl, _) => pchain_first(m, pleft(n, d), *dl),
        Deriv::PairP(m, dl, _) => pchain_first(m, pleft(n, d), *dl),
        Deriv::Up(d1) => (q, n, *d1),
        _ => (q, n, d),
    }
}

/// Whether `x` is where a postfix expression of the chain ends.
pub open spec fn pchain_has(q: nat, n: Node, d: Deriv, x: nat) -> bool
    decreases d,
{
    x == q || match d {
        Deriv::Pair(m, dl, _) => pchain_has(m, pleft(n, d), *dl, x),
        Deriv::PairP(m, dl, _) => pchain_has(m, pleft(n, d), *dl, x),
        _ => false,
    }
}

/// The accessor that follows the part of a postfix chain ending at `x`: its end, operator
/// and derivation.
pub open spec fn pchain_next(q: nat, n: Node, d: Deriv, x: nat) -> (nat, AccessorOp, Deriv)
    decreases d,
{
    match d {
        Deriv::Pair(m, dl, dr) => if m == x {
            (q, n->E_0->Accessor_1, *dr)
        } else {
            pchain_next(m, pleft(n, d), *dl, x)
        },
        Deriv::PairP(m, dl, dr) => if m == x {
            (q, n->E_0->Accessor_1, *dr)
        } else {
            pchain_next(m, pleft(n, d), *dl, x)
        },
        _ => (q, n->E_0->Accessor_1, d),
    }
}

/// One accessor of a postfix chain: the part before it and the accessor itself.
pub proof fn lemma_pchain_step(s: Seq<char>, p: nat, q: nat, n: Node, sub: bool, filt: bool, d: Deriv)
    requires
        g_postfix(s, p, q, n, sub, filt, d),
    ensures
        match d {
            Deriv::Pair(m, dl, dr) => g_postfix(s, p, m, pleft(n, d), sub, filt, *dl) && g_accessor(
                s,
                skip(s, m),
                q,
                n->E_0->Accessor_1,
                sub,
                filt,
                *dr,
            ) && m < q && n is E,
            Deriv::PairP(m, dl, dr) => g_postfix(s, p, m, pleft(n, d), sub, filt, *dl) && g_accessor(
                s,
                skip(s, m),
                q,
                n->E_0->Accessor_1,
                sub,
                filt,
                *dr,
            ) && m < q && n is E,
            _ => true,
        },
{
    match d {
        Deriv::Pair(m, dl, dr) => {
            lemma_skip_skip(s, m);
            let b = n->E_0->Accessor_0;
            assert(pleft(n, d) == Node::E(*b));
            assert(g_postfix(s, p, m, Node::E(*b), sub, filt, *dl));
            assert(g_accessor(s, skip(s, m), q, n->E_0->Accessor_1, sub, filt, *dr));
            assert(m < q);
            assert(n is E);
        },
        Deriv::PairP(m, _, _) => lemma_skip_skip(s, m),
        _ => {},
    }
}

/// The primary expression of a postfix chain.
pub proof fn lemma_pchain_first(s: Seq<char>, p: nat, q: nat, n: Node, sub: bool, filt: bool, d: Deriv)
    requires
        g_postfix(s, p, q, n, sub, filt, d),
    ensures
        ({
            let (f, fnode, fd) = pchain_first(q, n, d);
            &&& g_primary(s, p, f, fnode, sub, filt, fd)
            &&& pchain_has(q, n, d, f)
            &&& f <= q
            &&& (f == q ==> fnode == n)
            &&& (f != q ==> n is E)
        }),
    decreases d,
{
    lemma_pchain_step(s, p, q, n, sub, filt, d);
    match d {
        Deriv::Pair(m, dl, _) => lemma_pchain_first(s, p, m, pleft(n, d), sub, filt, *dl),
        Deriv::PairP(m, dl, _) => lemma_pchain_first(s, p, m, pleft(n, d), sub, filt, *dl),
        _ => {},
    }
}

/// The parts of a postfix chain end within it.
pub proof fn lemma_pchain_le(s: Seq<char>, p: nat, q: nat, n: Node, sub: bool, filt: bool, d: Deriv, x: nat)
    requires
        g_postfix(s, p, q, n, sub, filt, d),
        pchain_has(q, n, d, x),
    ensures
        x <= q,
    decreases d,
{
    lemma_pchain_step(s, p, q, n, sub, filt, d);
    if x != q {
        match d {
            Deriv::Pair(m, dl, _) => lemma_pchain_le(s, p, m, pleft(n, d), sub, filt, *dl, x),
            Deriv::PairP(m, dl, _) => lemma_pchain_le(s, p, m, pleft(n, d), sub, filt, *dl, x),
            _ => {},
        }
    }
}

/// The accessor after a part of a postfix chain, and where it ends.
pub proof fn lemma_pchain_next(s: Seq<char>, p: nat, q: nat, n: Node, sub: bool, filt: bool, d: Deriv, x: nat)
    requires
        g_postfix(s, p, q, n, sub, filt, d),
        pchain_has(q, n, d, x),
        x != q,
    ensures
        ({
            let (y, op, ad) = pchain_next(q, n, d, x);
            &&& g_accessor(s, skip(s, x), y, op, sub, filt, ad)
            &&& pchain_has(q, n, d, y)
            &&& x < y
        }),
    decreases d,
{
    lemma_pchain_step(s, p, q, n, sub, filt, d);
    match d {
        Deriv::Pair(m, dl, _) => {
            if x != m {
                lemma_pchain_next(s, p, m, pleft(n, d), sub, filt, *dl, x);
                lemma_pchain_le(s, p, m, pleft(n, d), sub, filt, *dl, pchain_next(m, pleft(n, d), *dl, x).0);
            }
        },
        Deriv::PairP(m, dl, _) => {
            if x != m {
                lemma_pchain_next(s, p, m, pleft(n, d), sub, filt, *dl, x);
                lemma_pchain_le(s, p, m, pleft(n, d), sub, filt, *dl, pchain_next(m, pleft(n, d), *dl, x).0);
            }
        },
        _ => {},
    }
}

// What stops a level, read from the character after it.

/// A word begins with a name character, and ends where the name does.
pub proof fn lemma_word_ident(s: Seq<char>, t: nat, w: Seq<char>)
    requires
        word(s, t, w) is Some,
    ensures
        t < s.len(),
        ident_char(s[t as int]),
        word(s, t, w)->0 == ident_end(s, t),
        s.subrange(t as int, ident_end(s, t) as int) == w,
        w.len() > 0 ==> s[t as int] == w[0],
{
    lemma_ident_start(s, t);
    crate::grammar::lemma_ident_end_ge(s, t);
    if w.len() > 0 {
        assert(s.subrange(t as int, ident_end(s, t) as int)[0] == s[t as int]);
    }
}

/// Two different words cannot both stand at one place.
pub proof fn lemma_word_distinct(s: Seq<char>, t: nat, w1: Seq<char>, w2: Seq<char>)
    requires
        word(s, t, w1) is Some,
        w1 != w2,
    ensures
        word(s, t, w2) is None,
{
}

/// A level inside brackets or before a comma, or at the end of the text, stops.
pub proof fn lemma_stop_or_at(s: Seq<char>, m: nat)
    requires
        skip(s, m) >= s.len() || s[skip(s, m) as int] == ')' || s[skip(s, m) as int] == ']'
            || s[skip(s, m) as int] == ',',
    ensures
        stop_or(s, m),
{
    let t = skip(s, m);
    if word(s, t, "starts"@) is Some {
        lemma_word_ident(s, t, "starts"@);
    }
    if word(s, t, "like_regex"@) is Some {
        lemma_word_ident(s, t, "like_regex"@);
    }
    if word(s, t, "is"@) is Some {
        lemma_word_ident(s, t, "is"@);
    }
}

/// A level before the word `to` stops.
pub proof fn lemma_stop_or_to(s: Seq<char>, m: nat)
    requires
        word(s, skip(s, m), "to"@) is Some,
    ensures
        stop_or(s, m),
{
    let t = skip(s, m);
    reveal_strlit("to");
    reveal_strlit("starts");
    reveal_strlit("like_regex");
    reveal_strlit("is");
    lemma_word_ident(s, t, "to"@);
    lemma_word_distinct(s, t, "to"@, "starts"@);
    lemma_word_distinct(s, t, "to"@, "like_regex"@);
    assert("to"@[0] != "is"@[0]);
    lemma_word_distinct(s, t, "to"@, "is"@);
}

/// A sum before a name, a comparison operator, a bracket, a comma or the end stops.
pub proof fn lemma_stop_add_at(s: Seq<char>, m: nat)
    requires
        skip(s, m) >= s.len() || ident_char(s[skip(s, m) as int]) || compare_op_lit(s, skip(s, m)) is Some
            || stop_or(s, m),
    ensures
        stop_add(s, m),
{
}

// Determinism of the lexical rules that take a whole piece of text.

/// The text after `starts with` ends at one place.
pub proof fn lemma_initial_unique(s: Seq<char>, p: nat, q1: nat, v1: Value, q2: nat, v2: Value)
    requires
        initial_lit(s, p, q1, v1),
        initial_lit(s, p, q2, v2),
    ensures
        q1 == q2,
{
}

/// A `like_regex` pattern with its flags ends at one place.
pub proof fn lemma_regex_unique(s: Seq<char>, p: nat, q1: nat, r1: LikeRegex, q2: nat, r2: LikeRegex)
    requires
        regex_lit(s, p, q1, r1),
        regex_lit(s, p, q2, r2),
    ensures
        q1 == q2,
{
}

/// An accessor begins with `.`, `[` or `?`.
pub proof fn lemma_accessor_start(s: Seq<char>, t: nat, q: nat, op: AccessorOp, sub: bool, filt: bool, d: Deriv)
    requires
        g_accessor(s, t, q, op, sub, filt, d),
    ensures
        at(s, t, '.') || at(s, t, '[') || at(s, t, '?'),
{
}

/// A negation or comparison begins with a starting character.
pub proof fn lemma_not_start(s: Seq<char>, p: nat, q: nat, n: Node, sub: bool, filt: bool, d: Deriv)
    requires
        g_not(s, p, q, n, sub, filt, d),
    ensures
        skip(s, p) < s.len(),
        start_char(s[skip(s, p) as int]),
{
    lemma_skip_skip(s, p);
    match d {
        Deriv::Up(d1) => lemma_compare_start(s, skip(s, p), q, n, sub, filt, *d1),
        _ => {},
    }
}

/// A conjunction begins with a starting character.
pub proof fn lemma_and_start(s: Seq<char>, p: nat, q: nat, n: Node, sub: bool, filt: bool, d: Deriv)
    requires
        g_and(s, p, q, n, sub, filt, d),
    ensures
        skip(s, p) < s.len(),
        start_char(s[skip(s, p) as int]),
    decreases d,
{
    match d {
        Deriv::Up(d1) => lemma_not_start(s, p, q, n, sub, filt, *d1),
        Deriv::Pair(m, dl, _) => lemma_and_start(s, p, m, Node::P(*n->P_0->And_0), sub, filt, *dl),
        _ => {},
    }
}

/// A disjunction begins with a starting character.
pub proof fn lemma_or_start(s: Seq<char>, p: nat, q: nat, n: Node, sub: bool, filt: bool, d: Deriv)
    requires
        g_or(s, p, q, n, sub, filt, d),
    ensures
        skip(s, p) < s.len(),
        start_char(s[skip(s, p) as int]),
    decreases d,
{
    match d {
        Deriv::Up(d1) => lemma_and_start(s, p, q, n, sub, filt, *d1),
        Deriv::Pair(m, dl, _) => lemma_or_start(s, p, m, Node::P(*n->P_0->Or_0), sub, filt, *dl),
        _ => {},
    }
}

// The subscripts of `[...]`, in the order they are written.

/// The subscripts of a list, each with its start, end and derivation.
pub open spec fn list_items(p: nat, u: nat, idx: Seq<ArrayIndex>, d: Deriv) -> Seq<(nat, nat, Deriv)>
    decreases d,
{
    if idx.len() == 0 {
        Seq::empty()
    } else {
        match d {
            Deriv::Item(u0, m, di, dr) => list_items(p, u0, idx.drop_last(), *dr).push((u0, m, *di)),
            _ => Seq::empty(),
        }
    }
}

/// The subscripts of `[...]`, each with its start, end and derivation.
pub open spec fn indices_items(p: nat, idx: Seq<ArrayIndex>, d: Deriv) -> Seq<(nat, nat, Deriv)> {
    match d {
        Deriv::Item(u0, m, di, dr) => list_items(p, u0, idx.drop_last(), *dr).push((u0, m, *di)),
        _ => Seq::empty(),
    }
}

/// The number of subscripts of a list, and where an empty one ends.
pub proof fn lemma_list_len(s: Seq<char>, p: nat, u: nat, idx: Seq<ArrayIndex>, filt: bool, d: Deriv)
    requires
        g_list(s, p, u, idx, filt, d),
    ensures
        list_items(p, u, idx, d).len() == idx.len(),
        idx.len() == 0 ==> u == p,
    decreases d,
{
    if idx.len() > 0 {
        match d {
            Deriv::Item(u0, _, _, dr) => lemma_list_len(s, p, u0, idx.drop_last(), filt, *dr),
            _ => {},
        }
    }
}

/// The subscript `k` of a list: its derivation, the comma after it, and what follows.
pub proof fn lemma_list_at(s: Seq<char>, p: nat, u: nat, idx: Seq<ArrayIndex>, filt: bool, d: Deriv, k: int)
    requires
        g_list(s, p, u, idx, filt, d),
        0 <= k < idx.len(),
    ensures
        ({
            let it = list_items(p, u, idx, d);
            &&& it.len() == idx.len()
            &&& g_item(s, it[k].0, it[k].1, idx[k], filt, it[k].2)
            &&& at(s, skip(s, it[k].1), ',')
            &&& k == 0 ==> it[0].0 == p
            &&& k + 1 < it.len() ==> it[k + 1].0 == skip(s, it[k].1) + 1
            &&& k + 1 == it.len() ==> u == skip(s, it[k].1) + 1
        }),
    decreases d,
{
    lemma_list_len(s, p, u, idx, filt, d);
    match d {
        Deriv::Item(u0, m, di, dr) => {
            let prev = list_items(p, u0, idx.drop_last(), *dr);
            lemma_list_len(s, p, u0, idx.drop_last(), filt, *dr);
            let it = list_items(p, u, idx, d);
            assert(it == prev.push((u0, m, *di)));
            if k == idx.len() - 1 {
                assert(it[k] == (u0, m, *di));
            } else {
                lemma_list_at(s, p, u0, idx.drop_last(), filt, *dr, k);
                assert(it[k] == prev[k]);
                assert(idx[k] == idx.drop_last()[k]);
                if k + 1 < prev.len() {
                    assert(it[k + 1] == prev[k + 1]);
                } else {
                    assert(it[k + 1] == (u0, m, *di));
                }
            }
        },
        _ => {},
    }
}

/// The subscript `k` of `[...]`: its derivation, and the comma or bracket after it.
pub proof fn lemma_indices_at(s: Seq<char>, p: nat, q: nat, idx: Seq<ArrayIndex>, filt: bool, d: Deriv, k: int)
    requires
        g_indices(s, p, q, idx, filt, d),
        0 <= k < idx.len(),
    ensures
        ({
            let it = indices_items(p, idx, d);
            &&& it.len() == idx.len()
            &&& g_item(s, it[k].0, it[k].1, idx[k], filt, it[k].2)
            &&& k == 0 ==> it[0].0 == p
            &&& k + 1 < it.len() ==> at(s, skip(s, it[k].1), ',') && it[k + 1].0 == skip(s, it[k].1) + 1
            &&& k + 1 == it.len() ==> at(s, skip(s, it[k].1), ']') && q == skip(s, it[k].1) + 1
        }),
{
    match d {
        Deriv::Item(u0, m, di, dr) => {
            let prev = list_items(p, u0, idx.drop_last(), *dr);
            lemma_list_len(s, p, u0, idx.drop_last(), filt, *dr);
            let it = indices_items(p, idx, d);
            assert(it == prev.push((u0, m, *di)));
            if k == idx.len() - 1 {
                assert(it[k] == (u0, m, *di));
            } else {
                lemma_list_at(s, p, u0, idx.drop_last(), filt, *dr, k);
                assert(it[k] == prev[k]);
                assert(idx[k] == idx.drop_last()[k]);
                if k + 1 < prev.len() {
                    assert(it[k + 1] == prev[k + 1]);
                } else {
                    assert(it[k + 1] == (u0, m, *di));
                }
            }
        },
        _ => {},
    }
}

/// The subscripts of `[...]` begin with a starting character.
pub proof fn lemma_indices_start(s: Seq<char>, p: nat, q: nat, idx: Seq<ArrayIndex>, filt: bool, d: Deriv)
    requires
        g_indices(s, p, q, idx, filt, d),
    ensures
        skip(s, p) < s.len(),
        start_char(s[skip(s, p) as int]),
{
    lemma_indices_at(s, p, q, idx, filt, d, 0);
    let it = indices_items(p, idx, d);
    match it[0].2 {
        Deriv::Up(d1) => lemma_or_start(s, p, it[0].1, Node::E(idx[0]->Index_0), true, filt, *d1),
        Deriv::Pair(k, d1, _) => lemma_or_start(s, p, k, Node::E(idx[0]->Slice_0), true, filt, *d1),
        _ => {},
    }
}

/// The left operand of a comparison, `starts with`, `like_regex` or `is unknown`.
pub open spec fn compare_left(n: Node) -> Node {
    match n {
        Node::P(Predicate::Compare(_, l, _)) => Node::E(*l),
        Node::P(Predicate::StartsWith(x, _)) => Node::E(*x),
        Node::P(Predicate::LikeRegex(x, _)) => Node::E(*x),
        Node::P(Predicate::IsUnknown(x)) => Node::P(*x),
        _ => n,
    }
}

/// What the first character of a primary expression tells of its derivation.
pub proof fn lemma_primary_cases(s: Seq<char>, p: nat, q: nat, n: Node, sub: bool, filt: bool, d: Deriv)
    requires
        g_primary(s, p, q, n, sub, filt, d),
    ensures
        ({
            let t = skip(s, p);
            let c = s[t as int];
            &&& t < s.len()
            &&& primary_start(c)
            &&& c == '$' ==> d is Leaf && (variable_lit(s, t) matches Some((_, e)) && e == q) && n is E
            &&& c == '@' ==> d is Leaf && filt && q == t + 1 && n is E
            &&& c == '(' ==> d is Sub
            &&& c == '"' ==> d is Leaf && (string_lit(s, t) matches Some((_, e)) && e == q) && n is E
            &&& (is_digit(c) || c == '.') ==> d is Leaf && (number_lit(s, t) matches Some((_, e)) && e == q)
                && n is E
            &&& (ident_char(c) && !is_digit(c)) ==> ({
                ||| {
                    &&& d is Leaf
                    &&& ident_end(s, t) == q
                    &&& n is E
                    &&& {
                        ||| s.subrange(t as int, q as int) == "null"@
                        ||| s.subrange(t as int, q as int) == "true"@
                        ||| s.subrange(t as int, q as int) == "false"@
                        ||| (s.subrange(t as int, q as int) == "last"@ && sub)
                    }
                }
                ||| (d is Neg && word(s, t, "exists"@) is Some && n is P)
            })
        }),
{
    let t = skip(s, p);
    lemma_primary_start(s, p, q, n, sub, filt, d);
    reveal_strlit("null");
    reveal_strlit("true");
    reveal_strlit("false");
    reveal_strlit("last");
    reveal_strlit("exists");
    if number_lit(s, t) is Some {
        lemma_number_start(s, t);
    }
    if word(s, t, "null"@) is Some {
        lemma_word_ident(s, t, "null"@);
    }
    if word(s, t, "true"@) is Some {
        lemma_word_ident(s, t, "true"@);
    }
    if word(s, t, "false"@) is Some {
        lemma_word_ident(s, t, "false"@);
    }
    if word(s, t, "last"@) is Some {
        lemma_word_ident(s, t, "last"@);
    }
    if word(s, t, "exists"@) is Some {
        lemma_word_ident(s, t, "exists"@);
    }
}

/// Where a parser of a binary level starts: the first operand, which stops where a parser
/// of the level below stops.
pub proof fn lemma_chain_start(lv: nat, s: Seq<char>, p: nat, q: nat, n: Node, sub: bool, filt: bool, d: Deriv)
    requires
        lv <= 3,
        g_level(lv, s, p, q, n, sub, filt, d),
        stop_level(lv, s, q),
    ensures
        ({
            let (f, fnode, fd) = chain_first(lv, q, n, d);
            &&& g_lower(lv, s, p, f, fnode, sub, filt, fd)
            &&& stop_lower(lv, s, f)
            &&& chain_has(lv, q, n, d, f)
            &&& chain_kind(lv, q, n, d, f) == (fnode is P)
        }),
{
    lemma_chain(lv, s, p, q, n, sub, filt, d);
    let f = chain_first(lv, q, n, d).0;
    if f == q {
        lemma_stop_level(lv, s, q);
    } else {
        assert(chain_has(lv, q, n, d, f));
        lemma_connector_stops(lv, s, f);
    }
}

/// How a parser of a binary level goes on from the end `x` of a left part of a chain: at
/// the end of the chain no operator follows; elsewhere the operator and the next operand
/// do, and that operand stops where a parser of the level below stops.
pub proof fn lemma_chain_at(lv: nat, s: Seq<char>, p: nat, q: nat, n: Node, sub: bool, filt: bool, d: Deriv, x: nat)
    requires
        lv <= 3,
        g_level(lv, s, p, q, n, sub, filt, d),
        stop_level(lv, s, q),
        chain_has(lv, q, n, d, x),
    ensures
        x == q ==> connector(lv, s, skip(s, x)) is None && chain_kind(lv, q, n, d, x) == (n is P),
        x != q ==> ({
            let t = skip(s, x);
            let (y, ynode, yd) = chain_next(lv, q, n, d, x);
            &&& connector(lv, s, t) is Some
            &&& g_lower(lv, s, t + connector(lv, s, t)->0, y, ynode, sub, filt, yd)
            &&& stop_lower(lv, s, y)
            &&& chain_has(lv, q, n, d, y)
            &&& chain_kind(lv, q, n, d, x) == level_pred(lv)
            &&& chain_kind(lv, q, n, d, y) == level_pred(lv)
            &&& (ynode is P) == level_pred(lv)
        }),
{
    lemma_chain(lv, s, p, q, n, sub, filt, d);
    if x == q {
        lemma_stop_level(lv, s, q);
    } else {
        let y = chain_next(lv, q, n, d, x).0;
        assert(chain_has(lv, q, n, d, y));
        if y == q {
            lemma_stop_level(lv, s, q);
        } else {
            lemma_connector_stops(lv, s, y);
        }
    }
}

/// What the name that begins a primary expression tells of its derivation.
pub proof fn lemma_primary_word(s: Seq<char>, p: nat, q: nat, n: Node, sub: bool, filt: bool, d: Deriv, e: nat)
    requires
        g_primary(s, p, q, n, sub, filt, d),
        skip(s, p) < s.len(),
        ident_char(s[skip(s, p) as int]),
        !is_digit(s[skip(s, p) as int]),
        e == ident_end(s, skip(s, p)),
    ensures
        ({
            let w = s.subrange(skip(s, p) as int, e as int);
            &&& w == "null"@ || w == "true"@ || w == "false"@ || w == "last"@ || w == "exists"@
            &&& w == "null"@ ==> d is Leaf && q == e && n is E
            &&& w == "true"@ ==> d is Leaf && q == e && n is E
            &&& w == "false"@ ==> d is Leaf && q == e && n is E
            &&& w == "last"@ ==> d is Leaf && q == e && n is E && sub
            &&& w == "exists"@ ==> d is Neg && n is P
        }),
{
    let t = skip(s, p);
    lemma_primary_cases(s, p, q, n, sub, filt, d);
    reveal_strlit("null");
    reveal_strlit("true");
    reveal_strlit("false");
    reveal_strlit("last");
    reveal_strlit("exists");
    assert("null"@ != "true"@) by {
        assert("null"@[0] != "true"@[0]);
    }
    assert("null"@ != "last"@) by {
        assert("null"@[0] != "last"@[0]);
    }
    assert("true"@ != "last"@) by {
        assert("true"@[0] != "last"@[0]);
    }
    assert("null"@.len() != "false"@.len());
    assert("null"@.len() != "exists"@.len());
    assert("false"@.len() != "exists"@.len());
    assert("false"@.len() != "last"@.len());
    assert("false"@.len() != "true"@.len());
    assert("last"@.len() != "exists"@.len());
    assert("true"@.len() != "exists"@.len());
    if d is Neg {
        lemma_word_ident(s, t, "exists"@);
    }
}

} // verus!

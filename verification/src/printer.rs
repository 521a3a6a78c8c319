//! The text of a JSON path, written as PostgreSQL writes it back.

use vstd::prelude::*;
use crate::ast::{
    AccessorOp, ArrayIndex, BinaryOp, ExprOrPredicate, Expr, JsonPath, Mode, PathPrimary, Predicate, Value,
    unary_op_text, binary_op_text, compare_op_text, unary_op_symbol, binary_op_symbol, compare_op_symbol,
};
use crate::json::{push_char, chars_of};
use crate::like_regex::LikeRegex;
use crate::methods::method_name;
use crate::sem::method_text;
use crate::text::{literal_text, push_number};

verus! {

/// A hexadecimal digit (lower case).
pub open spec fn hex_digit(n: nat) -> char {
    if n < 10 {
        crate::text::digit_char(n)
    } else if n == 10 {
        'a'
    } else if n == 11 {
        'b'
    } else if n == 12 {
        'c'
    } else if n == 13 {
        'd'
    } else if n == 14 {
        'e'
    } else {
        'f'
    }
}

/// A character as it is written inside a quoted string.
pub open spec fn escape_char(c: char) -> Seq<char> {
    if c == '\u{08}' {
        seq!['\\', 'b']
    } else if c == '\u{0C}' {
        seq!['\\', 'f']
    } else if c == '\n' {
        seq!['\\', 'n']
    } else if c == '\r' {
        seq!['\\', 'r']
    } else if c == '\t' {
        seq!['\\', 't']
    } else if c == '"' {
        seq!['\\', '"']
    } else if c == '\\' {
        seq!['\\', '\\']
    } else if (c as u32) < 0x20 {
        seq!['\\', 'u', '0', '0', hex_digit((c as u32 / 16) as nat), hex_digit((c as u32 % 16) as nat)]
    } else {
        seq![c]
    }
}

/// The characters of a text as they are written inside a quoted string.
pub open spec fn escaped(s: Seq<char>) -> Seq<char>
    decreases s.len(),
{
    if s.len() == 0 {
        Seq::empty()
    } else {
        escaped(s.drop_last()) + escape_char(s.last())
    }
}

/// A text as a quoted string.
pub open spec fn quoted(s: Seq<char>) -> Seq<char> {
    seq!['"'] + escaped(s) + seq!['"']
}

/// `(text)` when `brackets`, else the text.
pub open spec fn wrap(brackets: bool, t: Seq<char>) -> Seq<char> {
    if brackets {
        seq!['('] + t + seq![')']
    } else {
        t
    }
}

/// The priority of an operation, for brackets: lower binds looser.
pub open spec fn binary_priority(op: BinaryOp) -> int {
    match op {
        BinaryOp::Add => 3,
        BinaryOp::Sub => 3,
        _ => 4,
    }
}

/// The priority of the first item of an expression.
pub open spec fn expr_priority(e: Expr) -> int
    decreases e,
{
    match e {
        Expr::PathPrimary(PathPrimary::ExprOrPred(x)) => match *x {
            ExprOrPredicate::Expr(y) => expr_priority(y),
            ExprOrPredicate::Pred(p) => pred_priority(p),
        },
        Expr::PathPrimary(_) => 6,
        Expr::Accessor(b, _) => expr_priority(*b),
        Expr::UnaryOp(_, _) => 5,
        Expr::BinaryOp(op, _, _) => binary_priority(op),
    }
}

/// The priority of a predicate.
pub open spec fn pred_priority(p: Predicate) -> int {
    match p {
        Predicate::Or(_, _) => 0,
        Predicate::And(_, _) => 1,
        Predicate::Compare(_, _, _) => 2,
        Predicate::StartsWith(_, _) => 2,
        _ => 6,
    }
}

/// The text of a scalar literal or variable; a number followed by an accessor is bracketed.
pub open spec fn value_text(v: Value, has_next: bool) -> Seq<char> {
    match v {
        Value::Null => "null"@,
        Value::Boolean(b) => if b {
            "true"@
        } else {
            "false"@
        },
        Value::Number(n) => wrap(has_next, literal_text(n)),
        Value::String(s) => quoted(s@),
        Value::Variable(name) => seq!['$'] + quoted(name@),
    }
}

/// The flags of a `like_regex`, as written.
pub open spec fn flags_text(flags: Option<Seq<char>>) -> Seq<char> {
    match flags {
        Some(f) => " flag "@ + quoted(f),
        None => Seq::empty(),
    }
}

/// The text of an expression; `brackets` asks for brackets around an operation, and
/// `has_next` says that an accessor follows, which brackets operations and numbers.
pub open spec fn expr_text(e: Expr, brackets: bool, has_next: bool) -> Seq<char>
    decreases e, 0nat,
{
    match e {
        Expr::PathPrimary(p) => primary_text(p, brackets, has_next),
        Expr::Accessor(b, op) => expr_text(*b, brackets, true) + op_text(op),
        Expr::UnaryOp(op, x) => wrap(brackets || has_next, unary_op_text(op) + expr_text(*x, expr_priority(*x) <= 5, false)),
        Expr::BinaryOp(op, l, r) => wrap(
            brackets || has_next,
            expr_text(*l, expr_priority(*l) <= binary_priority(op), false) + seq![' '] + binary_op_text(op)
                + seq![' '] + expr_text(*r, expr_priority(*r) <= binary_priority(op), false),
        ),
    }
}

/// The text of a primary expression.
pub open spec fn primary_text(p: PathPrimary, brackets: bool, has_next: bool) -> Seq<char>
    decreases p, 0nat,
{
    match p {
        PathPrimary::Root => "$"@,
        PathPrimary::Current => "@"@,
        PathPrimary::Last => "last"@,
        PathPrimary::Value(v) => value_text(v, has_next),
        PathPrimary::ExprOrPred(x) => match *x {
            ExprOrPredicate::Expr(e) => expr_text(e, brackets, has_next),
            ExprOrPredicate::Pred(q) => pred_text(q, brackets || has_next),
        },
    }
}

/// The text of a predicate.
pub open spec fn pred_text(p: Predicate, brackets: bool) -> Seq<char>
    decreases p, 0nat,
{
    match p {
        Predicate::Compare(op, l, r) => wrap(
            brackets,
            expr_text(*l, expr_priority(*l) <= 2, false) + seq![' '] + compare_op_text(op) + seq![' '] + expr_text(
                *r,
                expr_priority(*r) <= 2,
                false,
            ),
        ),
        Predicate::And(a, b) => wrap(
            brackets,
            pred_text(*a, pred_priority(*a) <= 1) + " && "@ + pred_text(*b, pred_priority(*b) <= 1),
        ),
        Predicate::Or(a, b) => wrap(
            brackets,
            pred_text(*a, pred_priority(*a) <= 0) + " || "@ + pred_text(*b, pred_priority(*b) <= 0),
        ),
        Predicate::Not(a) => "!("@ + pred_text(*a, false) + seq![')'],
        Predicate::IsUnknown(a) => seq!['('] + pred_text(*a, false) + ") is unknown"@,
        Predicate::Exists(x) => "exists ("@ + expr_text(*x, false, false) + seq![')'],
        Predicate::StartsWith(x, v) => wrap(
            brackets,
            expr_text(*x, expr_priority(*x) <= 2, false) + " starts with "@ + value_text(v, false),
        ),
        Predicate::LikeRegex(x, re) => wrap(
            brackets,
            expr_text(*x, expr_priority(*x) <= 6, false) + " like_regex "@ + quoted(re.spec_source()) + flags_text(
                re.spec_flags(),
            ),
        ),
    }
}

/// The text of an accessor.
pub open spec fn op_text(op: AccessorOp) -> Seq<char>
    decreases op, 0nat,
{
    match op {
        AccessorOp::MemberWildcard => ".*"@,
        AccessorOp::ElementWildcard => "[*]"@,
        AccessorOp::Member(name) => seq!['.'] + quoted(name@),
        AccessorOp::Element(indices) => seq!['['] + indices_text(indices@, 0) + seq![']'],
        AccessorOp::FilterExpr(p) => "?("@ + pred_text(*p, false) + seq![')'],
        AccessorOp::Method(m) => seq!['.'] + method_text(m) + "()"@,
    }
}

/// The text of the subscripts from `k` on, separated by commas.
pub open spec fn indices_text(idx: Seq<ArrayIndex>, k: nat) -> Seq<char>
    decreases idx, idx.len() - k,
{
    if k >= idx.len() {
        Seq::empty()
    } else {
        let sep = if k > 0 {
            seq![',']
        } else {
            Seq::empty()
        };
        let this = match idx[k as int] {
            ArrayIndex::Index(e) => expr_text(e, false, false),
            ArrayIndex::Slice(b, e) => expr_text(b, false, false) + " to "@ + expr_text(e, false, false),
        };
        sep + this + indices_text(idx, k + 1)
    }
}

/// The text of a whole path: `strict ` for strict mode, then the expression or predicate,
/// an operation at the top in brackets.
pub open spec fn path_text(p: JsonPath) -> Seq<char> {
    (if p.mode == Mode::Strict {
        "strict "@
    } else {
        Seq::empty()
    }) + match p.expr {
        ExprOrPredicate::Expr(e) => expr_text(e, true, false),
        ExprOrPredicate::Pred(q) => pred_text(q, true),
    }
}

/// Appends a text.
fn push_str(out: &mut String, s: &str)
    ensures
        final(out)@ == old(out)@ + s@,
{
    out.append(s);
}

/// Exec counterpart of [`hex_digit`].
fn hex_char(n: u32) -> (c: char)
    requires
        n < 16,
    ensures
        c == hex_digit(n as nat),
{
    if n < 10 {
        crate::text::digit_to_char(n as u64)
    } else if n == 10 {
        'a'
    } else if n == 11 {
        'b'
    } else if n == 12 {
        'c'
    } else if n == 13 {
        'd'
    } else if n == 14 {
        'e'
    } else {
        'f'
    }
}

/// Appends a character as it is written inside a quoted string.
fn push_escaped_char(out: &mut String, c: char)
    ensures
        final(out)@ == old(out)@ + escape_char(c),
{
    if c == '\u{08}' {
        push_char(out, '\\');
        push_char(out, 'b');
    } else if c == '\u{0C}' {
        push_char(out, '\\');
        push_char(out, 'f');
    } else if c == '\n' {
        push_char(out, '\\');
        push_char(out, 'n');
    } else if c == '\r' {
        push_char(out, '\\');
        push_char(out, 'r');
    } else if c == '\t' {
        push_char(out, '\\');
        push_char(out, 't');
    } else if c == '"' {
        push_char(out, '\\');
        push_char(out, '"');
    } else if c == '\\' {
        push_char(out, '\\');
        push_char(out, '\\');
    } else if (c as u32) < 0x20 {
        push_char(out, '\\');
        push_char(out, 'u');
        push_char(out, '0');
        push_char(out, '0');
        push_char(out, hex_char(c as u32 / 16));
        push_char(out, hex_char(c as u32 % 16));
    } else {
        push_char(out, c);
    }
    assert(final(out)@ =~= old(out)@ + escape_char(c));
}

/// Appends a text as a quoted string.
pub fn push_quoted(out: &mut String, s: &str)
    ensures
        final(out)@ == old(out)@ + quoted(s@),
{
    let cs = chars_of(s);
    let ghost start = out@;
    push_char(out, '"');
    let mut i: usize = 0;
    assert(cs@.subrange(0, 0) =~= Seq::<char>::empty());
    while i < cs.len()
        invariant
            i <= cs.len(),
            cs@ == s@,
            out@ == start + seq!['"'] + escaped(cs@.subrange(0, i as int)),
        decreases cs.len() - i,
    {
        push_escaped_char(out, cs[i]);
        assert(cs@.subrange(0, i + 1).drop_last() =~= cs@.subrange(0, i as int));
        i = i + 1;
    }
    assert(cs@.subrange(0, cs.len() as int) =~= cs@);
    push_char(out, '"');
    assert(out@ =~= start + quoted(s@));
}

/// Appends `(` when `brackets`.
fn open_bracket(out: &mut String, brackets: bool)
    ensures
        final(out)@ == old(out)@ + (if brackets { seq!['('] } else { Seq::empty() }),
{
    if brackets {
        push_char(out, '(');
    }
    assert(final(out)@ =~= old(out)@ + (if brackets { seq!['('] } else { Seq::empty() }));
}

/// Appends `)` when `brackets`.
fn close_bracket(out: &mut String, brackets: bool)
    ensures
        final(out)@ == old(out)@ + (if brackets { seq![')'] } else { Seq::empty() }),
{
    if brackets {
        push_char(out, ')');
    }
    assert(final(out)@ =~= old(out)@ + (if brackets { seq![')'] } else { Seq::empty() }));
}

/// Exec counterpart of [`binary_priority`].
fn binary_prio(op: BinaryOp) -> (r: i8)
    ensures
        r == binary_priority(op),
{
    match op {
        BinaryOp::Add | BinaryOp::Sub => 3,
        _ => 4,
    }
}

/// Exec counterpart of [`pred_priority`].
fn pred_prio(p: &Predicate) -> (r: i8)
    ensures
        r == pred_priority(*p),
{
    match p {
        Predicate::Or(_, _) => 0,
        Predicate::And(_, _) => 1,
        Predicate::Compare(_, _, _) | Predicate::StartsWith(_, _) => 2,
        _ => 6,
    }
}

/// Exec counterpart of [`expr_priority`].
fn expr_prio(e: &Expr) -> (r: i8)
    ensures
        r == expr_priority(*e),
    decreases e,
{
    match e {
        Expr::PathPrimary(PathPrimary::ExprOrPred(x)) => match &**x {
            ExprOrPredicate::Expr(y) => expr_prio(y),
            ExprOrPredicate::Pred(p) => pred_prio(p),
        },
        Expr::PathPrimary(_) => 6,
        Expr::Accessor(b, _) => expr_prio(b),
        Expr::UnaryOp(_, _) => 5,
        Expr::BinaryOp(op, _, _) => binary_prio(*op),
    }
}

/// Appends the text of a value.
fn push_value(out: &mut String, v: &Value, has_next: bool)
    ensures
        final(out)@ == old(out)@ + value_text(*v, has_next),
{
    match v {
        Value::Null => push_str(out, "null"),
        Value::Boolean(b) => if *b {
            push_str(out, "true")
        } else {
            push_str(out, "false")
        },
        Value::Number(n) => {
            open_bracket(out, has_next);
            push_number(n, true, out);
            close_bracket(out, has_next);
            assert(final(out)@ =~= old(out)@ + value_text(*v, has_next));
        },
        Value::String(s) => push_quoted(out, s.as_str()),
        Value::Variable(name) => {
            push_char(out, '$');
            push_quoted(out, name.as_str());
            assert(final(out)@ =~= old(out)@ + value_text(*v, has_next));
        },
    }
}

/// Appends the text of a regex and its flags.
fn push_regex(out: &mut String, re: &LikeRegex)
    ensures
        final(out)@ == old(out)@ + " like_regex "@ + quoted(re.spec_source()) + flags_text(re.spec_flags()),
{
    push_str(out, " like_regex ");
    push_quoted(out, re.source());
    match re.flags() {
        Some(f) => {
            push_str(out, " flag ");
            push_quoted(out, f);
        },
        None => {},
    }
    assert(final(out)@ =~= old(out)@ + " like_regex "@ + quoted(re.spec_source()) + flags_text(re.spec_flags()));
}

/// Appends the text of an expression.
#[verifier::spinoff_prover]
#[verifier::rlimit(40)]
fn push_expr(out: &mut String, e: &Expr, brackets: bool, has_next: bool)
    ensures
        final(out)@ == old(out)@ + expr_text(*e, brackets, has_next),
    decreases e, 0nat,
{
    match e {
        Expr::PathPrimary(p) => push_primary(out, p, brackets, has_next),
        Expr::Accessor(b, op) => {
            push_expr(out, b, brackets, true);
            push_op(out, op);
            assert(final(out)@ =~= old(out)@ + expr_text(*e, brackets, has_next));
        },
        Expr::UnaryOp(op, x) => {
            let w = brackets || has_next;
            open_bracket(out, w);
            push_str(out, unary_op_symbol(*op));
            push_expr(out, x, expr_prio(x) <= 5, false);
            close_bracket(out, w);
            assert(final(out)@ =~= old(out)@ + expr_text(*e, brackets, has_next));
        },
        Expr::BinaryOp(op, l, r) => {
            let w = brackets || has_next;
            let p = binary_prio(*op);
            open_bracket(out, w);
            push_expr(out, l, expr_prio(l) <= p, false);
            push_char(out, ' ');
            push_str(out, binary_op_symbol(*op));
            push_char(out, ' ');
            push_expr(out, r, expr_prio(r) <= p, false);
            close_bracket(out, w);
            assert(final(out)@ =~= old(out)@ + expr_text(*e, brackets, has_next));
        },
    }
}

/// Appends the text of a primary expression.
fn push_primary(out: &mut String, p: &PathPrimary, brackets: bool, has_next: bool)
    ensures
        final(out)@ == old(out)@ + primary_text(*p, brackets, has_next),
    decreases p, 0nat,
{
    match p {
        PathPrimary::Root => push_str(out, "$"),
        PathPrimary::Current => push_str(out, "@"),
        PathPrimary::Last => push_str(out, "last"),
        PathPrimary::Value(v) => push_value(out, v, has_next),
        PathPrimary::ExprOrPred(x) => match &**x {
            ExprOrPredicate::Expr(e) => push_expr(out, e, brackets, has_next),
            ExprOrPredicate::Pred(q) => push_pred(out, q, brackets || has_next),
        },
    }
}

/// Appends the text of a predicate.
fn push_pred(out: &mut String, p: &Predicate, brackets: bool)
    ensures
        final(out)@ == old(out)@ + pred_text(*p, brackets),
    decreases p, 1nat,
{
    match p {
        Predicate::Compare(_, _, _) | Predicate::And(_, _) | Predicate::Or(_, _) | Predicate::Not(_) => push_pred_logic(
            out,
            p,
            brackets,
        ),
        _ => push_pred_other(out, p, brackets),
    }
}

/// Appends the text of a comparison, a conjunction, a disjunction or a negation.
#[verifier::spinoff_prover]
#[verifier::rlimit(40)]
fn push_pred_logic(out: &mut String, p: &Predicate, brackets: bool)
    requires
        p is Compare || p is And || p is Or || p is Not,
    ensures
        final(out)@ == old(out)@ + pred_text(*p, brackets),
    decreases p, 0nat,
{
    let ghost start = out@;
    match p {
        Predicate::Compare(op, l, r) => {
            open_bracket(out, brackets);
            push_expr(out, l, expr_prio(l) <= 2, false);
            push_char(out, ' ');
            push_str(out, compare_op_symbol(*op));
            push_char(out, ' ');
            push_expr(out, r, expr_prio(r) <= 2, false);
            close_bracket(out, brackets);
            assert(out@ =~= start + pred_text(*p, brackets));
        },
        Predicate::And(a, b) => {
            open_bracket(out, brackets);
            push_pred(out, a, pred_prio(a) <= 1);
            push_str(out, " && ");
            push_pred(out, b, pred_prio(b) <= 1);
            close_bracket(out, brackets);
            assert(out@ =~= start + pred_text(*p, brackets));
        },
        Predicate::Or(a, b) => {
            open_bracket(out, brackets);
            push_pred(out, a, pred_prio(a) <= 0);
            push_str(out, " || ");
            push_pred(out, b, pred_prio(b) <= 0);
            close_bracket(out, brackets);
            assert(out@ =~= start + pred_text(*p, brackets));
        },
        Predicate::Not(a) => {
            push_str(out, "!(");
            push_pred(out, a, false);
            push_char(out, ')');
            assert(out@ =~= start + pred_text(*p, brackets));
        },
        _ => {},
    }
}

/// Appends the text of `is unknown`, `exists`, `starts with` or `like_regex`.
#[verifier::spinoff_prover]
#[verifier::rlimit(40)]
fn push_pred_other(out: &mut String, p: &Predicate, brackets: bool)
    requires
        p is IsUnknown || p is Exists || p is StartsWith || p is LikeRegex,
    ensures
        final(out)@ == old(out)@ + pred_text(*p, brackets),
    decreases p, 0nat,
{
    let ghost start = out@;
    match p {
        Predicate::IsUnknown(a) => {
            push_char(out, '(');
            push_pred(out, a, false);
            push_str(out, ") is unknown");
            assert(out@ =~= start + pred_text(*p, brackets));
        },
        Predicate::Exists(x) => {
            push_str(out, "exists (");
            push_expr(out, x, false, false);
            push_char(out, ')');
            assert(out@ =~= start + pred_text(*p, brackets));
        },
        Predicate::StartsWith(x, v) => {
            open_bracket(out, brackets);
            push_expr(out, x, expr_prio(x) <= 2, false);
            push_str(out, " starts with ");
            push_value(out, v, false);
            close_bracket(out, brackets);
            assert(out@ =~= start + pred_text(*p, brackets));
        },
        Predicate::LikeRegex(x, re) => {
            open_bracket(out, brackets);
            push_expr(out, x, expr_prio(x) <= 6, false);
            push_regex(out, re);
            close_bracket(out, brackets);
            assert(out@ =~= start + pred_text(*p, brackets));
        },
        _ => {},
    }
}

/// Appends the text of an accessor.
fn push_op(out: &mut String, op: &AccessorOp)
    ensures
        final(out)@ == old(out)@ + op_text(*op),
    decreases op, 0nat,
{
    match op {
        AccessorOp::MemberWildcard => push_str(out, ".*"),
        AccessorOp::ElementWildcard => push_str(out, "[*]"),
        AccessorOp::Member(name) => {
            push_char(out, '.');
            push_quoted(out, name.as_str());
        },
        AccessorOp::Element(indices) => {
            push_char(out, '[');
            push_indices(out, indices);
            push_char(out, ']');
        },
        AccessorOp::FilterExpr(p) => {
            push_str(out, "?(");
            push_pred(out, p, false);
            push_char(out, ')');
        },
        AccessorOp::Method(m) => {
            push_char(out, '.');
            push_str(out, method_name(*m));
            push_str(out, "()");
        },
    }
    assert(final(out)@ =~= old(out)@ + op_text(*op));
}

/// Appends the text of subscripts.
fn push_indices(out: &mut String, indices: &Vec<ArrayIndex>)
    ensures
        final(out)@ == old(out)@ + indices_text(indices@, 0),
    decreases indices, 0nat,
{
    let ghost start = out@;
    let mut k: usize = 0;
    let ghost idx = indices@;
    while k < indices.len()
        invariant
            k <= indices.len(),
            idx == indices@,
            start + indices_text(idx, 0) == out@ + indices_text(idx, k as nat),
        decreases indices.len() - k,
    {
        proof {
            vstd::std_specs::vec::axiom_vec_index_decreases(*indices, k as int);
        }
        let ghost before = out@;
        if k > 0 {
            push_char(out, ',');
        }
        match &indices[k] {
            ArrayIndex::Index(e) => push_expr(out, e, false, false),
            ArrayIndex::Slice(b, e) => {
                push_expr(out, b, false, false);
                push_str(out, " to ");
                push_expr(out, e, false, false);
            },
        }
        k = k + 1;
        assert(before + indices_text(idx, (k - 1) as nat) =~= out@ + indices_text(idx, k as nat));
    }
    assert(indices_text(idx, k as nat) =~= Seq::<char>::empty());
    assert(out@ =~= start + indices_text(idx, 0));
}

impl JsonPath {
    /// The text of the path, as PostgreSQL writes it back.
    pub fn to_string(&self) -> (r: String)
        ensures
            r@ == path_text(*self),
    {
        let mut out = String::new();
        if self.mode == Mode::Strict {
            push_str(&mut out, "strict ");
        }
        match &self.expr {
            ExprOrPredicate::Expr(e) => push_expr(&mut out, e, true, false),
            ExprOrPredicate::Pred(q) => push_pred(&mut out, q, true),
        }
        assert(out@ =~= path_text(*self));
        out
    }
}

} // verus!

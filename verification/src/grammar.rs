//! The grammar of the text of a JSON path, stated over its characters.
//!
//! The lexical rules are functions of the text and a position (what a string, number,
//! name or variable written there stands for and where it ends). The syntactic rules are
//! relations `g_*(s, p, q, node, .., d)`: the text `s[p..q]` (blanks before a token
//! included) spells `node`, as the derivation `d` records the positions where it splits.

use vstd::prelude::*;
use crate::ast::{
    AccessorOp, ArrayIndex, BinaryOp, CompareOp, ExprOrPredicate, Expr, JsonPath, Method, Mode, PathPrimary,
    Predicate, UnaryOp, Value,
};
use crate::like_regex::{LikeRegex, effective_pattern, has_flag, regex_builds};
use crate::number::{Number, spec_num_neg};
use crate::parser::Node;
use crate::sem::method_text;
use crate::text::{scan_number, scanned_value};

verus! {

/// Whether a character is blank.
pub open spec fn blank(c: char) -> bool {
    c == ' ' || c == '\t' || c == '\n' || c == '\r' || c == '\u{0C}'
}

/// Whether a character may stand in a name (anything but blanks and punctuation).
pub open spec fn ident_char(c: char) -> bool {
    !(blank(c) || c == '?' || c == '%' || c == '$' || c == '.' || c == '[' || c == ']' || c == '{' || c == '}'
        || c == '(' || c == ')' || c == '|' || c == '&' || c == '!' || c == '=' || c == '<' || c == '>' || c == '@'
        || c == '#' || c == ',' || c == '*' || c == ':' || c == '-' || c == '+' || c == '/' || c == '\\' || c == '"')
}

/// The first position from `i` on that does not hold a blank.
pub open spec fn skip(s: Seq<char>, i: nat) -> nat
    decreases s.len() - i,
{
    if i < s.len() && blank(s[i as int]) {
        skip(s, i + 1)
    } else {
        i
    }
}

/// The end of the name that starts at `i`.
pub open spec fn ident_end(s: Seq<char>, i: nat) -> nat
    decreases s.len() - i,
{
    if i < s.len() && ident_char(s[i as int]) {
        ident_end(s, i + 1)
    } else {
        i
    }
}

/// A name never ends before it starts.
pub proof fn lemma_ident_end_ge(s: Seq<char>, i: nat)
    ensures
        ident_end(s, i) >= i,
        i <= s.len() ==> ident_end(s, i) <= s.len(),
        i < s.len() && ident_char(s[i as int]) ==> ident_end(s, i) > i,
    decreases s.len() - i,
{
    if i < s.len() && ident_char(s[i as int]) {
        lemma_ident_end_ge(s, i + 1);
    }
}

/// The end of the name at `i` when that name is the word `w`.
pub open spec fn word(s: Seq<char>, i: nat, w: Seq<char>) -> Option<nat> {
    let e = ident_end(s, i);
    if e > i && s.subrange(i as int, e as int) == w {
        Some(e)
    } else {
        None
    }
}

/// Whether the text holds `c` at `i`.
pub open spec fn at(s: Seq<char>, i: nat, c: char) -> bool {
    i < s.len() && s[i as int] == c
}

/// Whether the text holds `a` then `b` at `i`.
pub open spec fn at2(s: Seq<char>, i: nat, a: char, b: char) -> bool {
    at(s, i, a) && at(s, i + 1, b)
}

/// The value of a hexadecimal digit.
pub open spec fn hex_digit(c: char) -> Option<nat> {
    if '0' <= c && c <= '9' {
        Some((c as nat - '0' as nat) as nat)
    } else if 'a' <= c && c <= 'f' {
        Some((c as nat - 'a' as nat + 10) as nat)
    } else if 'A' <= c && c <= 'F' {
        Some((c as nat - 'A' as nat + 10) as nat)
    } else {
        None
    }
}

/// The value of the `n` hexadecimal digits at `i`.
pub open spec fn hex_run(s: Seq<char>, i: nat, n: nat) -> Option<nat>
    decreases n,
{
    if i + n > s.len() {
        None
    } else if n == 0 {
        Some(0)
    } else {
        match hex_run(s, i, (n - 1) as nat) {
            Some(v) => match hex_digit(s[i + n - 1 as int]) {
                Some(d) => Some(v * 16 + d),
                None => None,
            },
            None => None,
        }
    }
}

/// The end of the hexadecimal digits at `j`, looking at no more than `limit` of them.
pub open spec fn hex_span(s: Seq<char>, j: nat, limit: nat) -> nat
    decreases limit,
{
    if limit > 0 && j < s.len() && hex_digit(s[j as int]) is Some {
        hex_span(s, j + 1, (limit - 1) as nat)
    } else {
        j
    }
}

/// The code and end of the escape after `\u` at `i`: four digits, or one to six in braces.
pub open spec fn unicode_escape(s: Seq<char>, i: nat) -> Option<(nat, nat)> {
    if at(s, i, '{') {
        let j = hex_span(s, i + 1, 7);
        let n = (j - (i + 1)) as nat;
        if n == 0 || n > 6 || !at(s, j, '}') {
            None
        } else {
            match hex_run(s, i + 1, n) {
                Some(v) => Some((v, j + 1)),
                None => None,
            }
        }
    } else {
        match hex_run(s, i, 4) {
            Some(v) => Some((v, i + 4)),
            None => None,
        }
    }
}

/// The code of a character.
pub open spec fn code_of(c: char) -> nat {
    c as nat
}

/// The character of a code.
pub open spec fn char_of(v: nat) -> char {
    choose|c: char| #[trigger] code_of(c) == v
}

/// Whether a number is the code of a character (not a surrogate, at most `0x10FFFF`).
pub open spec fn char_code(v: nat) -> bool {
    v <= 0xD7FF || (0xE000 <= v && v <= 0x10FFFF)
}

/// The code that a `\u` escape at `j` (the backslash) stands for, joining a high and a low
/// surrogate written one after the other, with the end of what it reads.
pub open spec fn unicode_code(s: Seq<char>, j: nat) -> Option<(nat, nat)> {
    match unicode_escape(s, j + 2) {
        Some((v, k)) => if 0xD800 <= v && v <= 0xDBFF && at2(s, k, '\\', 'u') {
            match unicode_escape(s, k + 2) {
                Some((low, k2)) => if 0xDC00 <= low && low <= 0xDFFF {
                    Some(((0x10000 + (v - 0xD800) * 0x400 + (low - 0xDC00)) as nat, k2))
                } else {
                    Some((v, k))
                },
                None => Some((v, k)),
            }
        } else {
            Some((v, k))
        },
        None => None,
    }
}

/// The character that the escape at `j` (the backslash) stands for, with its end.
pub open spec fn escape_at(s: Seq<char>, j: nat) -> Option<(char, nat)> {
    let e = s[j + 1 as int];
    if e == 'b' {
        Some(('\u{08}', j + 2))
    } else if e == 'f' {
        Some(('\u{0C}', j + 2))
    } else if e == 'n' {
        Some(('\n', j + 2))
    } else if e == 'r' {
        Some(('\r', j + 2))
    } else if e == 't' {
        Some(('\t', j + 2))
    } else if e == 'v' {
        Some(('\u{0B}', j + 2))
    } else if e == 'x' {
        match hex_run(s, j + 2, 2) {
            Some(v) => if v != 0 && char_code(v) {
                Some((char_of(v), j + 4))
            } else {
                None
            },
            None => None,
        }
    } else if e == 'u' {
        match unicode_code(s, j) {
            Some((code, next)) => if code != 0 && char_code(code) {
                Some((char_of(code), next))
            } else {
                None
            },
            None => None,
        }
    } else {
        Some((e, j + 2))
    }
}

/// The rest of a quoted string from `j` on, after the characters `acc`: its value and the
/// position after the closing quote.
pub open spec fn string_from(s: Seq<char>, j: nat, acc: Seq<char>) -> Option<(Seq<char>, nat)>
    decreases s.len() - j,
{
    if j >= s.len() {
        None
    } else if s[j as int] == '"' {
        Some((acc, j + 1))
    } else if s[j as int] != '\\' {
        string_from(s, j + 1, acc.push(s[j as int]))
    } else if j + 1 >= s.len() {
        None
    } else {
        match escape_at(s, j) {
            Some((c, next)) => if next > j {
                string_from(s, next, acc.push(c))
            } else {
                None
            },
            None => None,
        }
    }
}

/// The value of the quoted string at `i`, and the position after it.
pub open spec fn string_lit(s: Seq<char>, i: nat) -> Option<(Seq<char>, nat)> {
    if at(s, i, '"') {
        string_from(s, i + 1, Seq::empty())
    } else {
        None
    }
}

/// The number written at `i` and its end: digits, a fraction, an exponent; no leading zero
/// before other digits and no name character right after it.
pub open spec fn number_lit(s: Seq<char>, i: nat) -> Option<(Number, nat)> {
    let sc = scan_number(s, i);
    if sc.end == i || (sc.int_end == i && sc.frac_end == sc.frac_start) {
        None
    } else if (sc.end < s.len() && ident_char(s[sc.end as int])) || (sc.int_end > i + 1 && s[i as int] == '0') {
        None
    } else {
        match scanned_value(s, i, false, sc) {
            Some(n) => Some((n, sc.end)),
            None => None,
        }
    }
}

/// What follows a `$` at `t`: a variable name (quoted or not), or nothing for the root.
pub open spec fn variable_lit(s: Seq<char>, t: nat) -> Option<(Option<Seq<char>>, nat)> {
    if at(s, t + 1, '"') {
        match string_lit(s, t + 1) {
            Some((v, q)) => Some((Some(v), q)),
            None => None,
        }
    } else if t + 1 < s.len() && ident_char(s[t + 1 as int]) {
        let e = ident_end(s, t + 1);
        Some((Some(s.subrange(t + 1 as int, e as int)), e))
    } else {
        Some((None, t + 1))
    }
}

/// The comparison operator at `t` and its length.
pub open spec fn compare_op_lit(s: Seq<char>, t: nat) -> Option<(CompareOp, nat)> {
    if at2(s, t, '=', '=') {
        Some((CompareOp::Eq, 2))
    } else if at2(s, t, '!', '=') {
        Some((CompareOp::Ne, 2))
    } else if at2(s, t, '<', '>') {
        Some((CompareOp::Ne, 2))
    } else if at2(s, t, '<', '=') {
        Some((CompareOp::Le, 2))
    } else if at2(s, t, '>', '=') {
        Some((CompareOp::Ge, 2))
    } else if at(s, t, '<') {
        Some((CompareOp::Lt, 1))
    } else if at(s, t, '>') {
        Some((CompareOp::Gt, 1))
    } else {
        None
    }
}

/// The flags of a `like_regex` in their canonical order (`i`, `s`, `m`, `q`, each once,
/// none for an empty string); `None` when a character is not one of these.
pub open spec fn ordered_flags(f: Seq<char>) -> Option<Option<Seq<char>>> {
    if exists|k: int| 0 <= k < f.len() && !(f[k] == 'i' || f[k] == 's' || f[k] == 'm' || f[k] == 'q') {
        None
    } else {
        let out = (if f.contains('i') { seq!['i'] } else { Seq::empty() }) + (if f.contains('s') {
            seq!['s']
        } else {
            Seq::empty()
        }) + (if f.contains('m') { seq!['m'] } else { Seq::empty() }) + (if f.contains('q') {
            seq!['q']
        } else {
            Seq::empty()
        });
        Some(if out.len() > 0 { Some(out) } else { None })
    }
}

/// The `like_regex` pattern and optional flags written from `p` to `q`, compiled into `re`
/// (the regex engine accepts the pattern with those flags).
pub open spec fn regex_lit(s: Seq<char>, p: nat, q: nat, re: LikeRegex) -> bool {
    let t = skip(s, p);
    match string_lit(s, t) {
        Some((pattern, q1)) => {
            let u = skip(s, q1);
            let fl = match word(s, u, "flag"@) {
                Some(e) => {
                    let v = skip(s, e);
                    match string_lit(s, v) {
                        Some((f, q2)) => match ordered_flags(f) {
                            Some(c) => Some((c, q2)),
                            None => None,
                        },
                        None => None,
                    }
                },
                None => Some((None, q1)),
            };
            match fl {
                Some((flags, end)) => end == q && re.spec_source() == pattern && re.spec_flags() == flags
                    && re.spec_pattern() == effective_pattern(pattern, flags) && regex_builds(
                    effective_pattern(pattern, flags),
                    has_flag(flags, 'i'),
                    has_flag(flags, 'm'),
                    has_flag(flags, 's'),
                ),
                None => false,
            }
        },
        None => false,
    }
}

/// The string or variable that `starts with` compares with, written from `p` to `q`.
pub open spec fn initial_lit(s: Seq<char>, p: nat, q: nat, v: Value) -> bool {
    let t = skip(s, p);
    ||| {
        &&& string_lit(s, t) matches Some((x, e))
        &&& e == q
        &&& v matches Value::String(y)
        &&& y@ == x
    }
    ||| {
        &&& at(s, t, '$')
        &&& variable_lit(s, t) matches Some((Some(x), e))
        &&& e == q
        &&& v matches Value::Variable(y)
        &&& y@ == x
    }
}

/// The method named `w`.
pub open spec fn method_named(w: Seq<char>, m: Method) -> bool {
    w == method_text(m)
}

/// The derivation of a text: the positions where it splits and the derivations of the parts.
pub enum Deriv {
    /// A token read by the lexical rules.
    Leaf,
    /// The form of the next lower level, at the same place.
    Up(Box<Deriv>),
    /// One part ending at the position.
    Sub(nat, Box<Deriv>),
    /// Two parts; the first ends at the position.
    Pair(nat, Box<Deriv>, Box<Deriv>),
    /// A part that the word `exists` introduces.
    Neg(Box<Deriv>),
    /// An accessor after a parenthesized predicate.
    PairP(nat, Box<Deriv>, Box<Deriv>),
    /// A subscript from the first position to the second, after those before it.
    Item(nat, nat, Box<Deriv>, Box<Deriv>),
    /// The operand of a sign.
    Sign(Expr, Box<Deriv>),
}

/// A disjunction: predicates joined by `||`, from the left.
pub open spec fn g_or(s: Seq<char>, p: nat, q: nat, n: Node, sub: bool, filt: bool, d: Deriv) -> bool
    decreases d,
{
    match d {
        Deriv::Up(d1) => g_and(s, p, q, n, sub, filt, *d1),
        Deriv::Pair(m, dl, dr) => {
            let t = skip(s, m);
            &&& n matches Node::P(Predicate::Or(a, b))
            &&& p <= m && at2(s, t, '|', '|')
            &&& g_or(s, p, m, Node::P(*a), sub, filt, *dl)
            &&& g_and(s, t + 2, q, Node::P(*b), sub, filt, *dr)
        },
        _ => false,
    }
}

/// A conjunction: predicates joined by `&&`, from the left.
pub open spec fn g_and(s: Seq<char>, p: nat, q: nat, n: Node, sub: bool, filt: bool, d: Deriv) -> bool
    decreases d,
{
    p <= q && match d {
        Deriv::Up(d1) => g_not(s, p, q, n, sub, filt, *d1),
        Deriv::Pair(m, dl, dr) => {
            let t = skip(s, m);
            &&& n matches Node::P(Predicate::And(a, b))
            &&& p <= m && at2(s, t, '&', '&')
            &&& g_and(s, p, m, Node::P(*a), sub, filt, *dl)
            &&& g_not(s, t + 2, q, Node::P(*b), sub, filt, *dr)
        },
        _ => false,
    }
}

/// A negation `!(predicate)` or `!exists (expression)`, or a comparison.
pub open spec fn g_not(s: Seq<char>, p: nat, q: nat, n: Node, sub: bool, filt: bool, d: Deriv) -> bool
    decreases d,
{
    let t = skip(s, p);
    p <= q && match d {
        Deriv::Up(d1) => g_compare(s, t, q, n, sub, filt, *d1),
        Deriv::Sub(m, d1) => {
            let u = skip(s, t + 1);
            let w = skip(s, m);
            &&& n matches Node::P(Predicate::Not(x))
            &&& at(s, t, '!') && at(s, u, '(') && u + 1 <= m && at(s, w, ')') && q == w + 1
            &&& g_or(s, u + 1, m, Node::P(*x), sub, filt, *d1)
        },
        Deriv::Neg(d1) => {
            let u = skip(s, t + 1);
            &&& n matches Node::P(Predicate::Not(x))
            &&& at(s, t, '!')
            &&& word(s, u, "exists"@) matches Some(e)
            &&& g_exists(s, e, q, *x, sub, filt, *d1)
        },
        _ => false,
    }
}

/// `exists (expression)`, after the word `exists`.
pub open spec fn g_exists(s: Seq<char>, p: nat, q: nat, x: Predicate, sub: bool, filt: bool, d: Deriv) -> bool
    decreases d,
{
    match d {
        Deriv::Sub(m, d1) => {
            let u = skip(s, p);
            let w = skip(s, m);
            &&& x matches Predicate::Exists(e)
            &&& at(s, u, '(') && u + 1 <= m && at(s, w, ')') && q == w + 1
            &&& g_or(s, u + 1, m, Node::E(*e), sub, filt, *d1)
        },
        _ => false,
    }
}

/// A comparison, `starts with`, `like_regex` or `is unknown`, or an arithmetic expression.
pub open spec fn g_compare(s: Seq<char>, p: nat, q: nat, n: Node, sub: bool, filt: bool, d: Deriv) -> bool
    decreases d,
{
    match d {
        Deriv::Up(d1) => g_add(s, p, q, n, sub, filt, *d1),
        Deriv::Pair(m, dl, dr) => {
            let t = skip(s, m);
            &&& n matches Node::P(Predicate::Compare(op, l, r))
            &&& p <= m
            &&& compare_op_lit(s, t) matches Some((op2, len))
            &&& op2 == op
            &&& g_add(s, p, m, Node::E(*l), sub, filt, *dl)
            &&& g_add(s, t + len, q, Node::E(*r), sub, filt, *dr)
        },
        Deriv::Sub(m, d1) => {
            let t = skip(s, m);
            &&& p <= m
            &&& {
                ||| {
                    &&& n matches Node::P(Predicate::StartsWith(x, v))
                    &&& word(s, t, "starts"@) matches Some(e)
                    &&& word(s, skip(s, e), "with"@) matches Some(e2)
                    &&& initial_lit(s, e2, q, v)
                    &&& g_add(s, p, m, Node::E(*x), sub, filt, *d1)
                }
                ||| {
                    &&& n matches Node::P(Predicate::LikeRegex(x, re))
                    &&& word(s, t, "like_regex"@) matches Some(e)
                    &&& regex_lit(s, e, q, *re)
                    &&& g_add(s, p, m, Node::E(*x), sub, filt, *d1)
                }
                ||| {
                    &&& n matches Node::P(Predicate::IsUnknown(x))
                    &&& word(s, t, "is"@) matches Some(e)
                    &&& word(s, skip(s, e), "unknown"@) == Some(q)
                    &&& g_add(s, p, m, Node::P(*x), sub, filt, *d1)
                }
            }
        },
        _ => false,
    }
}

/// The additive operator at `t`.
pub open spec fn add_op_lit(s: Seq<char>, t: nat) -> Option<BinaryOp> {
    if at(s, t, '+') {
        Some(BinaryOp::Add)
    } else if at(s, t, '-') {
        Some(BinaryOp::Sub)
    } else {
        None
    }
}

/// The multiplicative operator at `t`.
pub open spec fn mul_op_lit(s: Seq<char>, t: nat) -> Option<BinaryOp> {
    if at(s, t, '*') {
        Some(BinaryOp::Mul)
    } else if at(s, t, '/') {
        Some(BinaryOp::Div)
    } else if at(s, t, '%') {
        Some(BinaryOp::Rem)
    } else {
        None
    }
}

/// Sums and differences, from the left.
pub open spec fn g_add(s: Seq<char>, p: nat, q: nat, n: Node, sub: bool, filt: bool, d: Deriv) -> bool
    decreases d,
{
    match d {
        Deriv::Up(d1) => g_mul(s, p, q, n, sub, filt, *d1),
        Deriv::Pair(m, dl, dr) => {
            let t = skip(s, m);
            &&& n matches Node::E(Expr::BinaryOp(op, l, r))
            &&& p <= m && add_op_lit(s, t) == Some(op)
            &&& g_add(s, p, m, Node::E(*l), sub, filt, *dl)
            &&& g_mul(s, t + 1, q, Node::E(*r), sub, filt, *dr)
        },
        _ => false,
    }
}

/// Products, quotients and remainders, from the left.
pub open spec fn g_mul(s: Seq<char>, p: nat, q: nat, n: Node, sub: bool, filt: bool, d: Deriv) -> bool
    decreases d,
{
    p <= q && match d {
        Deriv::Up(d1) => g_unary(s, p, q, n, sub, filt, *d1),
        Deriv::Pair(m, dl, dr) => {
            let t = skip(s, m);
            &&& n matches Node::E(Expr::BinaryOp(op, l, r))
            &&& p <= m && mul_op_lit(s, t) == Some(op)
            &&& g_mul(s, p, m, Node::E(*l), sub, filt, *dl)
            &&& g_unary(s, t + 1, q, Node::E(*r), sub, filt, *dr)
        },
        _ => false,
    }
}

/// What a unary operator makes of its operand: a number literal takes the sign, anything
/// else is wrapped in the operator.
pub open spec fn signed(op: UnaryOp, x: Expr, e: Expr) -> bool {
    match x {
        Expr::PathPrimary(PathPrimary::Value(Value::Number(v))) => match op {
            UnaryOp::Plus => e == x,
            UnaryOp::Minus => e matches Expr::PathPrimary(PathPrimary::Value(Value::Number(w))) && spec_num_neg(
                v,
            ) == Some(w),
        },
        _ => e matches Expr::UnaryOp(op2, y) && op2 == op && *y == x,
    }
}

/// A unary `+` or `-` applied to a unary expression, or a postfix expression.
pub open spec fn g_unary(s: Seq<char>, p: nat, q: nat, n: Node, sub: bool, filt: bool, d: Deriv) -> bool
    decreases d,
{
    let t = skip(s, p);
    p <= q && match d {
        Deriv::Up(d1) => g_postfix(s, t, q, n, sub, filt, *d1),
        Deriv::Sign(x, d1) => {
            let op = if at(s, t, '+') {
                UnaryOp::Plus
            } else {
                UnaryOp::Minus
            };
            &&& at(s, t, '+') || at(s, t, '-')
            &&& n matches Node::E(e)
            &&& signed(op, x, e)
            &&& g_unary(s, t + 1, q, Node::E(x), sub, filt, *d1)
        },
        _ => false,
    }
}

/// A primary expression followed by accessors, applied from the left; an accessor after a
/// predicate applies to its truth value.
pub open spec fn g_postfix(s: Seq<char>, p: nat, q: nat, n: Node, sub: bool, filt: bool, d: Deriv) -> bool
    decreases d,
{
    match d {
        Deriv::Up(d1) => g_primary(s, p, q, n, sub, filt, *d1),
        Deriv::Pair(m, dl, dr) => {
            let t = skip(s, m);
            &&& n matches Node::E(Expr::Accessor(b, op))
            &&& p <= m
            &&& g_postfix(s, p, m, Node::E(*b), sub, filt, *dl)
            &&& g_accessor(s, t, q, op, sub, filt, *dr)
        },
        Deriv::PairP(m, dl, dr) => {
            let t = skip(s, m);
            &&& n matches Node::E(Expr::Accessor(b, op))
            &&& *b matches Expr::PathPrimary(PathPrimary::ExprOrPred(x))
            &&& *x matches ExprOrPredicate::Pred(y)
            &&& p <= m
            &&& g_postfix(s, p, m, Node::P(y), sub, filt, *dl)
            &&& g_accessor(s, t, q, op, sub, filt, *dr)
        },
        _ => false,
    }
}

/// An accessor at `t`: `.*`, `.name`, `."name"`, `.method()`, `[*]`, `[subscripts]` or
/// `?(predicate)`.
pub open spec fn g_accessor(s: Seq<char>, t: nat, q: nat, op: AccessorOp, sub: bool, filt: bool, d: Deriv) -> bool
    decreases d,
{
    let u = skip(s, t + 1);
    t < q && match d {
        Deriv::Leaf => {
            let e = ident_end(s, u);
            let v = skip(s, e);
            ||| (at(s, t, '.') && at(s, u, '*') && !at(s, u + 1, '*') && q == u + 1 && op is MemberWildcard)
            ||| {
                &&& at(s, t, '.')
                &&& string_lit(s, u) matches Some((x, e2))
                &&& e2 == q
                &&& op matches AccessorOp::Member(y)
                &&& y@ == x
            }
            ||| {
                &&& at(s, t, '.') && e > u && !at(s, v, '(') && q == e
                &&& op matches AccessorOp::Member(y)
                &&& y@ == s.subrange(u as int, e as int)
            }
            ||| {
                &&& at(s, t, '.') && e > u && at(s, v, '(') && at(s, skip(s, v + 1), ')') && q == skip(s, v + 1) + 1
                &&& op matches AccessorOp::Method(m)
                &&& method_named(s.subrange(u as int, e as int), m)
            }
            ||| (at(s, t, '[') && at(s, u, '*') && at(s, skip(s, u + 1), ']') && q == skip(s, u + 1) + 1
                && op is ElementWildcard)
        },
        Deriv::Up(d1) => {
            &&& at(s, t, '[')
            &&& op matches AccessorOp::Element(idx)
            &&& g_indices(s, t + 1, q, idx@, filt, *d1)
        },
        Deriv::Sub(m, d1) => {
            let w = skip(s, m);
            &&& at(s, t, '?') && at(s, u, '(') && u + 1 <= m && at(s, w, ')') && q == w + 1
            &&& op matches AccessorOp::FilterExpr(x)
            &&& g_or(s, u + 1, m, Node::P(*x), sub, true, *d1)
        },
        _ => false,
    }
}

/// A subscript from `u` to `m`: an index, or `from to to`; `last` is allowed in it.
pub open spec fn g_item(s: Seq<char>, u: nat, m: nat, x: ArrayIndex, filt: bool, d: Deriv) -> bool
    decreases d,
{
    match d {
        Deriv::Up(d1) => x matches ArrayIndex::Index(e) && g_or(s, u, m, Node::E(e), true, filt, *d1),
        Deriv::Pair(k, d1, d2) => {
            &&& x matches ArrayIndex::Slice(b, e)
            &&& u <= k
            &&& word(s, skip(s, k), "to"@) matches Some(e2)
            &&& g_or(s, u, k, Node::E(b), true, filt, *d1)
            &&& g_or(s, e2, m, Node::E(e), true, filt, *d2)
        },
        _ => false,
    }
}

/// Subscripts from `p`, each followed by a comma; `u` is the position after the last comma.
pub open spec fn g_list(s: Seq<char>, p: nat, u: nat, idx: Seq<ArrayIndex>, filt: bool, d: Deriv) -> bool
    decreases d,
{
    if idx.len() == 0 {
        u == p
    } else {
        match d {
            Deriv::Item(u0, m, di, dr) => {
                let w = skip(s, m);
                &&& g_list(s, p, u0, idx.drop_last(), filt, *dr)
                &&& g_item(s, u0, m, idx.last(), filt, *di)
                &&& at(s, w, ',') && u == w + 1
            },
            _ => false,
        }
    }
}

/// The subscripts of `[...]` from `p` (after the bracket) to `q` (after the closing one).
pub open spec fn g_indices(s: Seq<char>, p: nat, q: nat, idx: Seq<ArrayIndex>, filt: bool, d: Deriv) -> bool
    decreases d,
{
    match d {
        Deriv::Item(u0, m, di, dr) => {
            let w = skip(s, m);
            &&& idx.len() > 0
            &&& g_list(s, p, u0, idx.drop_last(), filt, *dr)
            &&& g_item(s, u0, m, idx.last(), filt, *di)
            &&& at(s, w, ']') && q == w + 1
        },
        _ => false,
    }
}

/// A primary expression: `$`, a variable, `@` (in a filter), a string, a number, `null`,
/// `true`, `false`, `last` (in a subscript), `exists (...)` or a parenthesized expression or
/// predicate.
pub open spec fn g_primary(s: Seq<char>, p: nat, q: nat, n: Node, sub: bool, filt: bool, d: Deriv) -> bool
    decreases d,
{
    let t = skip(s, p);
    match d {
        Deriv::Leaf => {
            ||| (at(s, t, '$') && variable_lit(s, t) == Some((None::<Seq<char>>, q)) && n == Node::E(
                Expr::PathPrimary(PathPrimary::Root),
            ))
            ||| {
                &&& at(s, t, '$')
                &&& variable_lit(s, t) matches Some((Some(v), e))
                &&& e == q
                &&& n matches Node::E(Expr::PathPrimary(PathPrimary::Value(Value::Variable(y))))
                &&& y@ == v
            }
            ||| (at(s, t, '@') && filt && q == t + 1 && n == Node::E(Expr::PathPrimary(PathPrimary::Current)))
            ||| {
                &&& string_lit(s, t) matches Some((v, e))
                &&& e == q
                &&& n matches Node::E(Expr::PathPrimary(PathPrimary::Value(Value::String(y))))
                &&& y@ == v
            }
            ||| {
                &&& number_lit(s, t) matches Some((v, e))
                &&& e == q
                &&& n == Node::E(Expr::PathPrimary(PathPrimary::Value(Value::Number(v))))
            }
            ||| (word(s, t, "null"@) == Some(q) && n == Node::E(Expr::PathPrimary(PathPrimary::Value(Value::Null))))
            ||| (word(s, t, "true"@) == Some(q) && n == Node::E(
                Expr::PathPrimary(PathPrimary::Value(Value::Boolean(true))),
            ))
            ||| (word(s, t, "false"@) == Some(q) && n == Node::E(
                Expr::PathPrimary(PathPrimary::Value(Value::Boolean(false))),
            ))
            ||| (word(s, t, "last"@) == Some(q) && sub && n == Node::E(Expr::PathPrimary(PathPrimary::Last)))
        },
        Deriv::Sub(m, d1) => {
            let w = skip(s, m);
            &&& at(s, t, '(') && t + 1 <= m && at(s, w, ')') && q == w + 1
            &&& g_or(s, t + 1, m, n, sub, filt, *d1)
        },
        Deriv::Neg(d1) => {
            &&& word(s, t, "exists"@) matches Some(e)
            &&& n matches Node::P(x)
            &&& g_exists(s, e, q, x, sub, filt, *d1)
        },
        _ => false,
    }
}

/// The node of an expression or predicate.
pub open spec fn node_of(x: ExprOrPredicate) -> Node {
    match x {
        ExprOrPredicate::Expr(e) => Node::E(e),
        ExprOrPredicate::Pred(p) => Node::P(p),
    }
}

/// The mode a text starts with (`strict`, `lax`, or lax by default) and where the rest starts.
pub open spec fn mode_prefix(s: Seq<char>) -> (Mode, nat) {
    let i = skip(s, 0);
    match word(s, i, "strict"@) {
        Some(e) => (Mode::Strict, e),
        None => match word(s, i, "lax"@) {
            Some(e) => (Mode::Lax, e),
            None => (Mode::Lax, i),
        },
    }
}

/// A whole path: the mode, an expression or predicate, and nothing but blanks after it.
pub open spec fn g_path(s: Seq<char>, path: JsonPath, d: Deriv) -> bool {
    match d {
        Deriv::Sub(q, d1) => {
            &&& path.mode == mode_prefix(s).0
            &&& mode_prefix(s).1 <= q
            &&& g_or(s, mode_prefix(s).1, q, node_of(path.expr), false, false, *d1)
            &&& skip(s, q) == s.len()
        },
        _ => false,
    }
}

/// Whether the text from `p` to `q` spells a disjunction (the top level of an expression).
pub open spec fn parses_or(s: Seq<char>, p: nat, q: nat, n: Node, sub: bool, filt: bool) -> bool {
    exists|d: Deriv| g_or(s, p, q, n, sub, filt, d)
}

/// Whether the text from `p` to `q` spells a conjunction.
pub open spec fn parses_and(s: Seq<char>, p: nat, q: nat, n: Node, sub: bool, filt: bool) -> bool {
    exists|d: Deriv| g_and(s, p, q, n, sub, filt, d)
}

/// Whether the text from `p` to `q` spells a negation or a comparison.
pub open spec fn parses_not(s: Seq<char>, p: nat, q: nat, n: Node, sub: bool, filt: bool) -> bool {
    exists|d: Deriv| g_not(s, p, q, n, sub, filt, d)
}

/// Whether the text from `p` to `q` is `(expression)` after the word `exists`.
pub open spec fn parses_exists(s: Seq<char>, p: nat, q: nat, x: Predicate, sub: bool, filt: bool) -> bool {
    exists|d: Deriv| g_exists(s, p, q, x, sub, filt, d)
}

/// Whether the text from `p` to `q` spells a comparison or an arithmetic expression.
pub open spec fn parses_compare(s: Seq<char>, p: nat, q: nat, n: Node, sub: bool, filt: bool) -> bool {
    exists|d: Deriv| g_compare(s, p, q, n, sub, filt, d)
}

/// Whether the text from `p` to `q` spells a sum.
pub open spec fn parses_add(s: Seq<char>, p: nat, q: nat, n: Node, sub: bool, filt: bool) -> bool {
    exists|d: Deriv| g_add(s, p, q, n, sub, filt, d)
}

/// Whether the text from `p` to `q` spells a product.
pub open spec fn parses_mul(s: Seq<char>, p: nat, q: nat, n: Node, sub: bool, filt: bool) -> bool {
    exists|d: Deriv| g_mul(s, p, q, n, sub, filt, d)
}

/// Whether the text from `p` to `q` spells a unary expression.
pub open spec fn parses_unary(s: Seq<char>, p: nat, q: nat, n: Node, sub: bool, filt: bool) -> bool {
    exists|d: Deriv| g_unary(s, p, q, n, sub, filt, d)
}

/// Whether the text from `p` to `q` spells a primary expression with accessors.
pub open spec fn parses_postfix(s: Seq<char>, p: nat, q: nat, n: Node, sub: bool, filt: bool) -> bool {
    exists|d: Deriv| g_postfix(s, p, q, n, sub, filt, d)
}

/// Whether the text from `t` to `q` spells an accessor.
pub open spec fn parses_accessor(s: Seq<char>, t: nat, q: nat, op: AccessorOp, sub: bool, filt: bool) -> bool {
    exists|d: Deriv| g_accessor(s, t, q, op, sub, filt, d)
}

/// Whether the text from `p` to `q` spells subscripts and the closing bracket.
pub open spec fn parses_indices(s: Seq<char>, p: nat, q: nat, idx: Seq<ArrayIndex>, filt: bool) -> bool {
    exists|d: Deriv| g_indices(s, p, q, idx, filt, d)
}

/// Whether the text from `p` to `q` spells a primary expression.
pub open spec fn parses_primary(s: Seq<char>, p: nat, q: nat, n: Node, sub: bool, filt: bool) -> bool {
    exists|d: Deriv| g_primary(s, p, q, n, sub, filt, d)
}

/// Whether a text spells a path.
pub open spec fn parses_path(s: Seq<char>, path: JsonPath) -> bool {
    exists|d: Deriv| g_path(s, path, d)
}

} // verus!

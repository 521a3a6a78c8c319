//! Reading a JSON path from its text.

use vstd::prelude::*;
use crate::ast::{
    AccessorOp, ArrayIndex, BinaryOp, CompareOp, ExprOrPredicate, Expr, JsonPath, Method, Mode, PathPrimary,
    Predicate, UnaryOp, Value,
};
use crate::grammar::{
    at, at2, blank, char_of, code_of, compare_op_lit, escape_at, hex_digit, hex_run, hex_span, ident_char,
    ident_end, initial_lit, lemma_ident_end_ge, method_named, number_lit, ordered_flags, regex_lit, skip,
    string_from, string_lit, unicode_code, unicode_escape, variable_lit, word, Deriv, g_or, g_and, g_not,
    g_exists, g_compare, g_add, g_mul, g_unary, g_postfix, g_accessor, g_item, g_list, g_indices, g_primary,
    signed, parses_or, parses_and, parses_not, parses_exists, parses_compare, parses_add, parses_mul,
    parses_unary, parses_postfix, parses_accessor, parses_indices, parses_primary, parses_path, g_path,
    mode_prefix, node_of,
};
use crate::chains::{
    chain_first, chain_has, chain_kind, chain_next, compare_left, indices_items, lemma_accessor_start,
    lemma_chain_at, lemma_chain_start, lemma_compare_start, lemma_ident_start, lemma_indices_at,
    lemma_indices_start, lemma_initial_unique, lemma_pchain_first, lemma_pchain_next, lemma_postfix_start,
    lemma_primary_cases, lemma_primary_word, lemma_regex_unique, lemma_skip_skip, lemma_stop_add_at, lemma_stop_or_at,
    lemma_stop_or_to, lemma_word_distinct, lemma_word_ident, pchain_first, pchain_has, pchain_next, stop_add,
    stop_and, stop_compare, stop_mul, stop_or, stop_postfix,
};
use crate::json::{chars_of, push_char, string_of};
use crate::like_regex::{LikeRegex, opt_view, regex_error_text};
use crate::number::NumberExt;
use crate::strings::sub_chars;
use crate::text::{nat_digits, push_nat_digits, scan_number_exec, scanned_value_exec};

verus! {

/// The error of reading a JSON path: where, and what.
#[derive(Debug)]
pub struct ParseError {
    position: usize,
    message: String,
}

impl ParseError {
    /// The position (in characters) at which the text could not be read.
    pub closed spec fn spec_position(&self) -> nat {
        self.position as nat
    }

    /// The message of the error.
    pub closed spec fn spec_message(&self) -> Seq<char> {
        self.message@
    }

    /// The position (in characters) at which the text could not be read.
    pub fn position(&self) -> (r: usize)
        ensures
            r == self.spec_position(),
    {
        self.position
    }

    /// The message of the error.
    pub fn message(&self) -> (r: &str)
        ensures
            r@ == self.spec_message(),
    {
        self.message.as_str()
    }

    /// The text of the error: `at position {position}, {message}`.
    pub fn to_string(&self) -> (r: String)
        ensures
            r@ == "at position "@ + nat_digits(self.spec_position()) + ", "@ + self.spec_message(),
    {
        let mut s = String::from_str("at position ");
        push_nat_digits(self.position as u128, &mut s);
        s.append(", ");
        s.append(self.message.as_str());
        s
    }
}

/// An error at a position with a message.
fn error(position: usize, message: &str) -> (e: ParseError)
    ensures
        e.spec_position() == position,
        e.spec_message() == message@,
{
    ParseError { position, message: String::from_str(message) }
}

/// An error at a position with a message made of a text, a character and a text.
fn error_with_char(position: usize, before: &str, c: char, after: &str) -> (e: ParseError)
    ensures
        e.spec_position() == position,
        e.spec_message() == before@ + seq![c] + after@,
{
    let mut m = String::from_str(before);
    push_char(&mut m, c);
    m.append(after);
    ParseError { position, message: m }
}

/// Where an expression stands: inside array subscripts (where `last` is allowed) and
/// inside a filter (where `@` is allowed).
pub open spec fn expr_ok(e: Expr, sub: bool, filt: bool) -> bool
    decreases e, 0nat,
{
    match e {
        Expr::PathPrimary(p) => primary_ok(p, sub, filt),
        Expr::Accessor(b, op) => expr_ok(*b, sub, filt) && op_ok(op, sub, filt),
        Expr::UnaryOp(_, x) => expr_ok(*x, sub, filt),
        Expr::BinaryOp(_, l, r) => expr_ok(*l, sub, filt) && expr_ok(*r, sub, filt),
    }
}

/// Whether a primary expression uses `last` only in subscripts and `@` only in filters.
pub open spec fn primary_ok(p: PathPrimary, sub: bool, filt: bool) -> bool
    decreases p, 0nat,
{
    match p {
        PathPrimary::Current => filt,
        PathPrimary::Last => sub,
        PathPrimary::ExprOrPred(x) => match *x {
            ExprOrPredicate::Expr(e) => expr_ok(e, sub, filt),
            ExprOrPredicate::Pred(q) => pred_ok(q, sub, filt),
        },
        _ => true,
    }
}

/// Whether a predicate uses `last` only in subscripts and `@` only in filters.
pub open spec fn pred_ok(p: Predicate, sub: bool, filt: bool) -> bool
    decreases p, 0nat,
{
    match p {
        Predicate::Compare(_, l, r) => expr_ok(*l, sub, filt) && expr_ok(*r, sub, filt),
        Predicate::Exists(x) => expr_ok(*x, sub, filt),
        Predicate::And(a, b) => pred_ok(*a, sub, filt) && pred_ok(*b, sub, filt),
        Predicate::Or(a, b) => pred_ok(*a, sub, filt) && pred_ok(*b, sub, filt),
        Predicate::Not(a) => pred_ok(*a, sub, filt),
        Predicate::IsUnknown(a) => pred_ok(*a, sub, filt),
        Predicate::StartsWith(x, _) => expr_ok(*x, sub, filt),
        Predicate::LikeRegex(x, _) => expr_ok(*x, sub, filt),
    }
}

/// Whether an accessor uses `last` only in subscripts and `@` only in filters.
pub open spec fn op_ok(op: AccessorOp, sub: bool, filt: bool) -> bool
    decreases op, 0nat,
{
    match op {
        AccessorOp::Element(indices) => indices_ok(indices@, 0, filt),
        AccessorOp::FilterExpr(p) => pred_ok(*p, sub, true),
        _ => true,
    }
}

/// Whether the subscripts from `k` on are fine inside a subscript.
pub open spec fn indices_ok(idx: Seq<ArrayIndex>, k: nat, filt: bool) -> bool
    decreases idx, idx.len() - k,
{
    if k >= idx.len() {
        true
    } else {
        (match idx[k as int] {
            ArrayIndex::Index(e) => expr_ok(e, true, filt),
            ArrayIndex::Slice(b, e) => expr_ok(b, true, filt) && expr_ok(e, true, filt),
        }) && indices_ok(idx, k + 1, filt)
    }
}

/// Whether a path uses `last` only inside array subscripts and `@` only inside filters.
pub open spec fn path_ok(p: JsonPath) -> bool {
    match p.expr {
        ExprOrPredicate::Expr(e) => expr_ok(e, false, false),
        ExprOrPredicate::Pred(q) => pred_ok(q, false, false),
    }
}

/// Whether the first name from `p` on is the word `last`.
pub open spec fn last_first(s: Seq<char>, p: nat) -> bool {
    word(s, skip(s, p), "last"@) is Some
}

/// A parsed expression or predicate.
pub enum Node {
    E(Expr),
    P(Predicate),
}

pub open spec fn node_ok(n: Node, sub: bool, filt: bool) -> bool {
    match n {
        Node::E(e) => expr_ok(e, sub, filt),
        Node::P(p) => pred_ok(p, sub, filt),
    }
}

/// Whether a parse result ends within the text and is fine where it stands.
pub open spec fn parsed_ok(r: Result<(Node, usize), ParseError>, p: nat, len: nat, sub: bool, filt: bool) -> bool {
    match r {
        Ok((n, q)) => p <= q <= len && node_ok(n, sub, filt),
        Err(e) => e.spec_position() <= len,
    }
}

/// A primary expression as a node.
fn primary_node(p: PathPrimary) -> (n: Node)
    ensures
        n == Node::E(Expr::PathPrimary(p)),
        forall|sub: bool, filt: bool| #[trigger] node_ok(n, sub, filt) == primary_ok(p, sub, filt),
{
    proof {
        reveal_with_fuel(expr_ok, 2);
    }
    Node::E(Expr::PathPrimary(p))
}

/// Whether a character is blank.
fn is_blank(c: char) -> (b: bool)
    ensures
        b == blank(c),
{
    c == ' ' || c == '\t' || c == '\n' || c == '\r' || c == '\u{0C}'
}

/// The first position from `i` that is not blank.
fn skip_blank(s: &Vec<char>, i: usize) -> (r: usize)
    requires
        i <= s.len(),
    ensures
        i <= r <= s.len(),
        r == skip(s@, i as nat),
{
    let mut j = i;
    while j < s.len() && is_blank(s[j])
        invariant
            i <= j <= s.len(),
            skip(s@, j as nat) == skip(s@, i as nat),
        decreases s.len() - j,
    {
        j = j + 1;
    }
    j
}

/// Whether a character may stand in a name (anything but blanks and punctuation).
fn is_ident_char(c: char) -> (b: bool)
    ensures
        b == ident_char(c),
{
    !(is_blank(c) || c == '?' || c == '%' || c == '$' || c == '.' || c == '[' || c == ']' || c == '{' || c == '}'
        || c == '(' || c == ')' || c == '|' || c == '&' || c == '!' || c == '=' || c == '<' || c == '>' || c == '@'
        || c == '#' || c == ',' || c == '*' || c == ':' || c == '-' || c == '+' || c == '/' || c == '\\' || c == '"')
}

/// The end of the name that starts at `i`.
fn read_ident(s: &Vec<char>, i: usize) -> (r: usize)
    requires
        i <= s.len(),
    ensures
        i <= r <= s.len(),
        r == ident_end(s@, i as nat),
{
    let mut j = i;
    while j < s.len() && is_ident_char(s[j])
        invariant
            i <= j <= s.len(),
            ident_end(s@, j as nat) == ident_end(s@, i as nat),
        decreases s.len() - j,
    {
        j = j + 1;
    }
    j
}

/// Whether `s[a..b]` spells a word.
fn is_word(s: &Vec<char>, a: usize, b: usize, w: &str) -> (r: bool)
    requires
        a <= b <= s.len(),
    ensures
        r == (s@.subrange(a as int, b as int) == w@),
{
    let wc = chars_of(w);
    if b - a != wc.len() {
        assert(s@.subrange(a as int, b as int).len() != w@.len());
        return false;
    }
    let mut k: usize = 0;
    while k < wc.len()
        invariant
            k <= wc.len(),
            a + wc.len() == b,
            b <= s.len(),
            wc@ == w@,
            forall|j: int| 0 <= j < k ==> s@[a + j] == wc@[j],
        decreases wc.len() - k,
    {
        if s[a + k] != wc[k] {
            assert(s@.subrange(a as int, b as int)[k as int] != w@[k as int]);
            return false;
        }
        k = k + 1;
    }
    assert(s@.subrange(a as int, b as int) =~= w@);
    true
}

/// Whether the name at `i` is the word `w`; gives the end of the name.
fn word_at(s: &Vec<char>, i: usize, w: &str) -> (r: Option<usize>)
    requires
        i <= s.len(),
    ensures
        r matches Some(e) ==> i < e <= s.len(),
        match r {
            Some(e) => word(s@, i as nat, w@) == Some(e as nat),
            None => word(s@, i as nat, w@) is None,
        },
{
    let e = read_ident(s, i);
    if e > i && is_word(s, i, e, w) {
        Some(e)
    } else {
        None
    }
}

/// Whether the text at `i` starts with the two characters `a`, `b`.
fn two_at(s: &Vec<char>, i: usize, a: char, b: char) -> (r: bool)
    requires
        i <= s.len(),
    ensures
        r ==> i + 2 <= s.len(),
        r == at2(s@, i as nat, a, b),
{
    i < s.len() && i + 1 < s.len() && s[i] == a && s[i + 1] == b
}

/// Whether the text at `i` holds the character `c`.
fn char_at(s: &Vec<char>, i: usize, c: char) -> (r: bool)
    ensures
        r ==> i < s.len(),
        r == at(s@, i as nat, c),
{
    i < s.len() && s[i] == c
}

/// A syntax error at a position.
fn syntax_error(s: &Vec<char>, i: usize) -> (e: ParseError)
    requires
        i <= s.len(),
    ensures
        e.spec_position() == i,
{
    if i >= s.len() {
        error(i, "syntax error at end of jsonpath input")
    } else {
        error_with_char(i, "syntax error at or near \"", s[i], "\" of jsonpath input")
    }
}

/// Calls `char::from_u32`: the character of a code, `None` for surrogates and values above
/// `0x10FFFF`.
#[verifier::external_body]
fn char_of_code(code: u32) -> (r: Option<char>)
    ensures
        r is Some <==> (code <= 0xD7FF || (0xE000 <= code && code <= 0x10FFFF)),
        r matches Some(c) ==> c as u32 == code,
{
    char::from_u32(code)
}

/// The value of a hexadecimal digit.
fn hex_value(c: char) -> (r: Option<u32>)
    ensures
        r matches Some(v) ==> v < 16,
        match r {
            Some(v) => hex_digit(c) == Some(v as nat),
            None => hex_digit(c) is None,
        },
{
    if '0' <= c && c <= '9' {
        Some(c as u32 - '0' as u32)
    } else if 'a' <= c && c <= 'f' {
        Some(c as u32 - 'a' as u32 + 10)
    } else if 'A' <= c && c <= 'F' {
        Some(c as u32 - 'A' as u32 + 10)
    } else {
        None
    }
}

/// Reads `n` hexadecimal digits at `i`.
fn read_hex(s: &Vec<char>, i: usize, n: usize) -> (r: Option<u32>)
    requires
        i <= s.len(),
        n <= 6,
    ensures
        r matches Some(v) ==> i + n <= s.len() && v < 0x100_0000,
        match r {
            Some(v) => hex_run(s@, i as nat, n as nat) == Some(v as nat),
            None => hex_run(s@, i as nat, n as nat) is None,
        },
{
    if n > s.len() - i {
        return None;
    }
    let mut v: u32 = 0;
    let mut k: usize = 0;
    while k < n
        invariant
            k <= n <= 6,
            i + n <= s.len(),
            v < pow16(k as nat),
            hex_run(s@, i as nat, k as nat) == Some(v as nat),
        decreases n - k,
    {
        match hex_value(s[i + k]) {
            Some(d) => {
                proof {
                    lemma_pow16_step(k as nat);
                }
                assert(v * 16 + d < pow16((k + 1) as nat)) by (nonlinear_arith)
                    requires
                        v < pow16(k as nat),
                        d < 16,
                        pow16((k + 1) as nat) == 16 * pow16(k as nat),
                ;
                v = v * 16 + d;
            },
            None => {
                proof {
                    lemma_hex_run_none(s@, i as nat, (k + 1) as nat, n as nat);
                }
                return None;
            },
        }
        k = k + 1;
    }
    proof {
        lemma_pow16_bound(k as nat);
    }
    Some(v)
}

/// Digits that fail to read at some point fail to read further on.
proof fn lemma_hex_run_none(s: Seq<char>, i: nat, k: nat, n: nat)
    requires
        k <= n,
        i + n <= s.len(),
        hex_run(s, i, k) is None,
    ensures
        hex_run(s, i, n) is None,
    decreases n - k,
{
    if k < n {
        lemma_hex_run_none(s, i, k + 1, n);
    }
}

/// Powers of sixteen.
pub open spec fn pow16(n: nat) -> int
    decreases n,
{
    if n == 0 {
        1
    } else {
        16 * pow16((n - 1) as nat)
    }
}

proof fn lemma_pow16_step(k: nat)
    requires
        k < 6,
    ensures
        pow16(k + 1) == 16 * pow16(k),
        pow16(k + 1) <= 0x100_0000,
{
    reveal_with_fuel(pow16, 7);
}

proof fn lemma_pow16_bound(k: nat)
    requires
        k <= 6,
    ensures
        pow16(k) <= 0x100_0000,
{
    reveal_with_fuel(pow16, 7);
}

/// The code of the `\u` escape at `i` (just after the `u`): four digits or `{digits}`.
fn read_unicode_escape(s: &Vec<char>, i: usize) -> (r: Option<(u32, usize)>)
    requires
        i <= s.len(),
    ensures
        r matches Some((_, j)) ==> i < j <= s.len(),
        match r {
            Some((v, j)) => unicode_escape(s@, i as nat) == Some((v as nat, j as nat)) && v < 0x100_0000,
            None => unicode_escape(s@, i as nat) is None,
        },
{
    if char_at(s, i, '{') {
        let mut j = i + 1;
        while j < s.len() && j - (i + 1) < 7 && hex_value(s[j]).is_some()
            invariant
                i + 1 <= j <= s.len(),
                j - (i + 1) <= 7,
                hex_span(s@, j as nat, (7 - (j - (i + 1))) as nat) == hex_span(s@, (i + 1) as nat, 7),
            decreases s.len() - j,
        {
            j = j + 1;
        }
        let n = j - (i + 1);
        if n == 0 || n > 6 || !char_at(s, j, '}') {
            return None;
        }
        match read_hex(s, i + 1, n) {
            Some(v) => Some((v, j + 1)),
            None => None,
        }
    } else {
        match read_hex(s, i, 4) {
            Some(v) => Some((v, i + 4)),
            None => None,
        }
    }
}

/// A character is the character of its code.
proof fn lemma_char_code(c: char, v: u32)
    requires
        c as u32 == v,
    ensures
        c == char_of(v as nat),
{
    assert(code_of(c) == v as nat);
}

/// The character that the escape at `j` (a backslash followed by a character) stands for,
/// and the position after the escape.
fn read_escape(s: &Vec<char>, j: usize) -> (r: Result<(char, usize), ParseError>)
    requires
        j + 1 < s.len(),
    ensures
        match r {
            Ok((c, next)) => j < next <= s.len() && escape_at(s@, j as nat) == Some((c, next as nat)),
            Err(e) => e.spec_position() <= s.len() && escape_at(s@, j as nat) is None,
        },
{
    let e = s[j + 1];
    if e == 'b' {
        Ok(('\u{08}', j + 2))
    } else if e == 'f' {
        Ok(('\u{0C}', j + 2))
    } else if e == 'n' {
        Ok(('\n', j + 2))
    } else if e == 'r' {
        Ok(('\r', j + 2))
    } else if e == 't' {
        Ok(('\t', j + 2))
    } else if e == 'v' {
        Ok(('\u{0B}', j + 2))
    } else if e == 'x' {
        match read_hex(s, j + 2, 2) {
            Some(v) => match char_of_code(v) {
                Some(ch) => {
                    if v == 0 {
                        return Err(error(j, "unsupported Unicode escape sequence"));
                    }
                    proof {
                        lemma_char_code(ch, v);
                    }
                    assert(escape_at(s@, j as nat) == Some((ch, (j + 4) as nat)));
                    Ok((ch, j + 4))
                },
                None => Err(error(j, "invalid hexadecimal character sequence")),
            },
            None => Err(error(j, "invalid hexadecimal character sequence")),
        }
    } else if e == 'u' {
        match read_unicode_escape(s, j + 2) {
            Some((v, k)) => {
                let (code, next) = if 0xD800 <= v && v <= 0xDBFF && two_at(s, k, '\\', 'u') {
                    match read_unicode_escape(s, k + 2) {
                        Some((low, k2)) => if 0xDC00 <= low && low <= 0xDFFF {
                            (0x10000 + ((v - 0xD800) * 0x400) + (low - 0xDC00), k2)
                        } else {
                            (v, k)
                        },
                        None => (v, k),
                    }
                } else {
                    (v, k)
                };
                assert(unicode_code(s@, j as nat) == Some((code as nat, next as nat)));
                if code == 0 {
                    return Err(error(j, "unsupported Unicode escape sequence"));
                }
                match char_of_code(code) {
                    Some(ch) => {
                        proof {
                            lemma_char_code(ch, code);
                        }
                        assert(escape_at(s@, j as nat) == Some((ch, next as nat)));
                        Ok((ch, next))
                    },
                    None => Err(error(j, "invalid Unicode escape value")),
                }
            },
            None => Err(error(j, "invalid Unicode escape sequence")),
        }
    } else {
        Ok((e, j + 2))
    }
}

/// Reads a quoted string at `i` (which holds `"`), with its escapes: `\b`, `\f`, `\n`,
/// `\r`, `\t`, `\v`, `\xHH`, `\uHHHH`, `\u{H...}`; any other escaped character stands for
/// itself.
fn read_string(s: &Vec<char>, i: usize) -> (r: Result<(String, usize), ParseError>)
    requires
        i < s.len(),
        s@[i as int] == '"',
    ensures
        match r {
            Ok((v, j)) => i < j <= s.len() && string_lit(s@, i as nat) == Some((v@, j as nat)),
            Err(e) => e.spec_position() <= s.len() && string_lit(s@, i as nat) is None,
        },
{
    let mut out = String::new();
    let mut j = i + 1;
    while j < s.len() && s[j] != '"'
        invariant
            i < j <= s.len(),
            string_from(s@, j as nat, out@) == string_from(s@, (i + 1) as nat, Seq::empty()),
        decreases s.len() - j,
    {
        let c = s[j];
        let ghost j0 = j as nat;
        let ghost acc0 = out@;
        if c != '\\' {
            push_char(&mut out, c);
            j = j + 1;
            assert(string_from(s@, j0, acc0) == string_from(s@, j as nat, out@));
        } else {
            if j + 1 >= s.len() {
                return Err(error(s.len(), "unexpected end of quoted string"));
            }
            match read_escape(s, j) {
                Ok((ch, next)) => {
                    push_char(&mut out, ch);
                    j = next;
                    assert(string_from(s@, j0, acc0) == string_from(s@, j as nat, out@));
                },
                Err(err) => {
                    return Err(err);
                },
            }
        }
    }
    if j >= s.len() {
        return Err(error(s.len(), "unexpected end of quoted string"));
    }
    Ok((out, j + 1))
}

/// Reads a number at `i` (a digit, or a point followed by a digit).
fn read_number(s: &Vec<char>, i: usize) -> (r: Result<(crate::number::Number, usize), ParseError>)
    requires
        i < s.len(),
    ensures
        match r {
            Ok((v, j)) => i < j <= s.len() && number_lit(s@, i as nat) == Some((v, j as nat)),
            Err(e) => e.spec_position() <= s.len() && number_lit(s@, i as nat) is None,
        },
{
    let sc = scan_number_exec(s, i);
    let end = sc.end;
    if end == i || (sc.int_end == i && sc.frac_end == sc.frac_start) {
        return Err(syntax_error(s, i));
    }
    let junk = (end < s.len() && is_ident_char(s[end])) || (sc.int_end > i + 1 && s[i] == '0');
    if junk {
        return Err(error(i, "trailing junk after numeric literal"));
    }
    match scanned_value_exec(s, i, false, &sc) {
        Some(n) => Ok((n, end)),
        None => Err(error(i, "numeric literal is out of range")),
    }
}

/// The method named `s[a..b]`.
fn method_of(s: &Vec<char>, a: usize, b: usize) -> (r: Option<Method>)
    requires
        a <= b <= s.len(),
    ensures
        r matches Some(m) ==> method_named(s@.subrange(a as int, b as int), m),
        r is None ==> forall|m: Method| !method_named(s@.subrange(a as int, b as int), m),
{
    if is_word(s, a, b, "type") {
        Some(Method::Type)
    } else if is_word(s, a, b, "size") {
        Some(Method::Size)
    } else if is_word(s, a, b, "double") {
        Some(Method::Double)
    } else if is_word(s, a, b, "ceiling") {
        Some(Method::Ceiling)
    } else if is_word(s, a, b, "floor") {
        Some(Method::Floor)
    } else if is_word(s, a, b, "abs") {
        Some(Method::Abs)
    } else if is_word(s, a, b, "keyvalue") {
        Some(Method::Keyvalue)
    } else if is_word(s, a, b, "bigint") {
        Some(Method::Bigint)
    } else if is_word(s, a, b, "integer") {
        Some(Method::Integer)
    } else if is_word(s, a, b, "decimal") {
        Some(Method::Decimal)
    } else if is_word(s, a, b, "number") {
        Some(Method::Number)
    } else if is_word(s, a, b, "string") {
        Some(Method::String)
    } else if is_word(s, a, b, "boolean") {
        Some(Method::Boolean)
    } else if is_word(s, a, b, "date") {
        Some(Method::Date)
    } else if is_word(s, a, b, "time") {
        Some(Method::Time)
    } else if is_word(s, a, b, "time_tz") {
        Some(Method::TimeTz)
    } else if is_word(s, a, b, "timestamp") {
        Some(Method::Timestamp)
    } else if is_word(s, a, b, "timestamp_tz") {
        Some(Method::TimestampTz)
    } else {
        None
    }
}

/// The flags of a `like_regex` in their canonical order (`i`, `s`, `m`, `q`), `None` when
/// there are none; `x` and unknown characters are errors.
fn canonical_flags(f: &String, pos: usize, len: usize) -> (r: Result<Option<String>, ParseError>)
    requires
        pos <= len,
    ensures
        r matches Err(e) ==> e.spec_position() <= len,
        r matches Ok(o) ==> ordered_flags(f@) == Some(opt_view(o)),
        r is Err ==> ordered_flags(f@) is None,
{
    let cs = chars_of(f.as_str());
    let mut i = false;
    let mut s = false;
    let mut m = false;
    let mut q = false;
    let mut k: usize = 0;
    while k < cs.len()
        invariant
            k <= cs.len(),
            pos <= len,
            cs@ == f@,
            forall|j: int| 0 <= j < k ==> (cs@[j] == 'i' || cs@[j] == 's' || cs@[j] == 'm' || cs@[j] == 'q'),
            i == cs@.subrange(0, k as int).contains('i'),
            s == cs@.subrange(0, k as int).contains('s'),
            m == cs@.subrange(0, k as int).contains('m'),
            q == cs@.subrange(0, k as int).contains('q'),
        decreases cs.len() - k,
    {
        let ghost pre = cs@.subrange(0, k as int);
        assert(cs@.subrange(0, k + 1) =~= pre.push(cs@[k as int]));
        proof {
            vstd::seq_lib::lemma_seq_contains_after_push(pre, cs@[k as int], 'i');
            vstd::seq_lib::lemma_seq_contains_after_push(pre, cs@[k as int], 's');
            vstd::seq_lib::lemma_seq_contains_after_push(pre, cs@[k as int], 'm');
            vstd::seq_lib::lemma_seq_contains_after_push(pre, cs@[k as int], 'q');
        }
        let c = cs[k];
        if c == 'i' {
            i = true;
        } else if c == 's' {
            s = true;
        } else if c == 'm' {
            m = true;
        } else if c == 'q' {
            q = true;
        } else if c == 'x' {
            return Err(error(pos, "XQuery \"x\" flag (expanded regular expressions) is not implemented"));
        } else {
            return Err(error_with_char(pos, "Unrecognized flag character \"", c, "\" in LIKE_REGEX predicate."));
        }
        k = k + 1;
    }
    assert(cs@.subrange(0, k as int) =~= f@);
    let mut out = String::new();
    if i {
        push_char(&mut out, 'i');
    }
    if s {
        push_char(&mut out, 's');
    }
    if m {
        push_char(&mut out, 'm');
    }
    if q {
        push_char(&mut out, 'q');
    }
    let ghost want = (if i { seq!['i'] } else { Seq::empty() }) + (if s { seq!['s'] } else { Seq::empty() }) + (if m {
        seq!['m']
    } else {
        Seq::empty()
    }) + (if q { seq!['q'] } else { Seq::empty() });
    assert(out@ =~= want);
    if i || s || m || q {
        Ok(Some(out))
    } else {
        Ok(None)
    }
}

/// The expression of a parsed node; a predicate is an error here.
fn as_expr(n: Node, s: &Vec<char>, pos: usize) -> (r: Result<Expr, ParseError>)
    requires
        pos <= s.len(),
    ensures
        match r {
            Ok(e) => n == Node::E(e),
            Err(err) => err.spec_position() <= s.len(),
        },
        n is E ==> r is Ok,
{
    match n {
        Node::E(e) => Ok(e),
        Node::P(_) => Err(syntax_error(s, pos)),
    }
}

/// The predicate of a parsed node; an expression is an error here.
fn as_pred(n: Node, s: &Vec<char>, pos: usize) -> (r: Result<Predicate, ParseError>)
    requires
        pos <= s.len(),
    ensures
        match r {
            Ok(p) => n == Node::P(p),
            Err(err) => err.spec_position() <= s.len(),
        },
        n is P ==> r is Ok,
{
    match n {
        Node::P(p) => Ok(p),
        Node::E(_) => Err(syntax_error(s, pos)),
    }
}

/// Expects a character after blanks; gives the position after it.
fn expect_char(s: &Vec<char>, i: usize, c: char) -> (r: Result<usize, ParseError>)
    requires
        i <= s.len(),
    ensures
        match r {
            Ok(j) => i < j <= s.len() && at(s@, skip(s@, i as nat), c) && j == skip(s@, i as nat) + 1,
            Err(e) => e.spec_position() <= s.len() && !at(s@, skip(s@, i as nat), c),
        },
{
    let t = skip_blank(s, i);
    if char_at(s, t, c) {
        Ok(t + 1)
    } else {
        Err(syntax_error(s, t))
    }
}

/// A disjunction of predicates (or a single expression or predicate). Given the end, node
/// and derivation of a disjunction that the text spells from `p`, it reads exactly that far.
fn parse_or(s: &Vec<char>, p: usize, sub: bool, filt: bool, tgt: Ghost<Option<(nat, Node, Deriv)>>) -> (r: Result<
    (Node, usize),
    ParseError,
>)
    requires
        p <= s.len(),
        tgt@ matches Some((q0, n0, d0)) ==> g_or(s@, p as nat, q0, n0, sub, filt, d0) && stop_or(s@, q0),
    ensures
        parsed_ok(r, p as nat, s.len() as nat, sub, filt),
        r matches Ok((n, q)) ==> parses_or(s@, p as nat, q as nat, n, sub, filt),
        tgt@ matches Some((q0, n0, d0)) ==> (r matches Ok((n, q)) && q == q0 && (n is P) == (n0 is P)),
        !sub && last_first(s@, p as nat) ==> (r matches Err(e) && e.spec_message() == "LAST is allowed only in array subscripts"@
            && e.spec_position() == skip(s@, p as nat)),
    decreases s.len() - p, 8nat,
{
    let ghost first = match tgt@ {
        Some((q0, n0, d0)) => Some(chain_first(0, q0, n0, d0)),
        None => None,
    };
    proof {
        match tgt@ {
            Some((q0, n0, d0)) => lemma_chain_start(0, s@, p as nat, q0, n0, sub, filt, d0),
            None => {},
        }
    }
    let (mut n, mut q) = parse_and(s, p, sub, filt, Ghost(first))?;
    let ghost mut d = Deriv::Up(Box::new(choose|d1: Deriv| g_and(s@, p as nat, q as nat, n, sub, filt, d1)));
    loop
        invariant
            p <= q <= s.len(),
            node_ok(n, sub, filt),
            g_or(s@, p as nat, q as nat, n, sub, filt, d),
            !(!sub && last_first(s@, p as nat)),
            tgt@ matches Some((q0, n0, d0)) ==> ({
                &&& g_or(s@, p as nat, q0, n0, sub, filt, d0)
                &&& stop_or(s@, q0)
                &&& chain_has(0, q0, n0, d0, q as nat)
                &&& chain_kind(0, q0, n0, d0, q as nat) == (n is P)
            }),
        decreases s.len() - q,
    {
        let t = skip_blank(s, q);
        let ghost next = match tgt@ {
            Some((q0, n0, d0)) => Some(chain_next(0, q0, n0, d0, q as nat)),
            None => None,
        };
        proof {
            match tgt@ {
                Some((q0, n0, d0)) => lemma_chain_at(0, s@, p as nat, q0, n0, sub, filt, d0, q as nat),
                None => {},
            }
        }
        if two_at(s, t, '|', '|') {
            let a = as_pred(n, s, t)?;
            let (m, q2) = parse_and(s, t + 2, sub, filt, Ghost(next))?;
            let ghost t2 = (t + 2) as nat;
            let ghost dm = choose|d1: Deriv| g_and(s@, t2, q2 as nat, m, sub, filt, d1);
            let b = as_pred(m, s, t)?;
            n = Node::P(Predicate::Or(Box::new(a), Box::new(b)));
            proof {
                d = Deriv::Pair(q as nat, Box::new(d), Box::new(dm));
            }
            q = q2;
        } else {
            return Ok((n, q));
        }
    }
}

/// A conjunction of predicates. Given the end, node and derivation of a conjunction that the
/// text spells from `p`, it reads exactly that far.
fn parse_and(s: &Vec<char>, p: usize, sub: bool, filt: bool, tgt: Ghost<Option<(nat, Node, Deriv)>>) -> (r: Result<
    (Node, usize),
    ParseError,
>)
    requires
        p <= s.len(),
        tgt@ matches Some((q0, n0, d0)) ==> g_and(s@, p as nat, q0, n0, sub, filt, d0) && stop_and(s@, q0),
    ensures
        parsed_ok(r, p as nat, s.len() as nat, sub, filt),
        r matches Ok((n, q)) ==> parses_and(s@, p as nat, q as nat, n, sub, filt),
        tgt@ matches Some((q0, n0, d0)) ==> (r matches Ok((n, q)) && q == q0 && (n is P) == (n0 is P)),
        !sub && last_first(s@, p as nat) ==> (r matches Err(e) && e.spec_message() == "LAST is allowed only in array subscripts"@
            && e.spec_position() == skip(s@, p as nat)),
    decreases s.len() - p, 7nat,
{
    let ghost first = match tgt@ {
        Some((q0, n0, d0)) => Some(chain_first(1, q0, n0, d0)),
        None => None,
    };
    proof {
        match tgt@ {
            Some((q0, n0, d0)) => lemma_chain_start(1, s@, p as nat, q0, n0, sub, filt, d0),
            None => {},
        }
    }
    let (mut n, mut q) = parse_not(s, p, sub, filt, Ghost(first))?;
    let ghost mut d = Deriv::Up(Box::new(choose|d1: Deriv| g_not(s@, p as nat, q as nat, n, sub, filt, d1)));
    loop
        invariant
            p <= q <= s.len(),
            node_ok(n, sub, filt),
            g_and(s@, p as nat, q as nat, n, sub, filt, d),
            !(!sub && last_first(s@, p as nat)),
            tgt@ matches Some((q0, n0, d0)) ==> ({
                &&& g_and(s@, p as nat, q0, n0, sub, filt, d0)
                &&& stop_and(s@, q0)
                &&& chain_has(1, q0, n0, d0, q as nat)
                &&& chain_kind(1, q0, n0, d0, q as nat) == (n is P)
            }),
        decreases s.len() - q,
    {
        let t = skip_blank(s, q);
        let ghost next = match tgt@ {
            Some((q0, n0, d0)) => Some(chain_next(1, q0, n0, d0, q as nat)),
            None => None,
        };
        proof {
            match tgt@ {
                Some((q0, n0, d0)) => lemma_chain_at(1, s@, p as nat, q0, n0, sub, filt, d0, q as nat),
                None => {},
            }
        }
        if two_at(s, t, '&', '&') {
            let a = as_pred(n, s, t)?;
            let (m, q2) = parse_not(s, t + 2, sub, filt, Ghost(next))?;
            let ghost t2 = (t + 2) as nat;
            let ghost dm = choose|d1: Deriv| g_not(s@, t2, q2 as nat, m, sub, filt, d1);
            let b = as_pred(m, s, t)?;
            n = Node::P(Predicate::And(Box::new(a), Box::new(b)));
            proof {
                d = Deriv::Pair(q as nat, Box::new(d), Box::new(dm));
            }
            q = q2;
        } else {
            return Ok((n, q));
        }
    }
}

/// A negated predicate `!(...)` or `!exists(...)`, or a comparison. Given the end, node and
/// derivation of such a text from `p`, it reads exactly that far.
fn parse_not(s: &Vec<char>, p: usize, sub: bool, filt: bool, tgt: Ghost<Option<(nat, Node, Deriv)>>) -> (r: Result<
    (Node, usize),
    ParseError,
>)
    requires
        p <= s.len(),
        tgt@ matches Some((q0, n0, d0)) ==> g_not(s@, p as nat, q0, n0, sub, filt, d0) && stop_compare(s@, q0),
    ensures
        parsed_ok(r, p as nat, s.len() as nat, sub, filt),
        r matches Ok((n, q)) ==> parses_not(s@, p as nat, q as nat, n, sub, filt),
        tgt@ matches Some((q0, n0, d0)) ==> (r matches Ok((n, q)) && q == q0 && (n is P) == (n0 is P)),
        !sub && last_first(s@, p as nat) ==> (r matches Err(e) && e.spec_message() == "LAST is allowed only in array subscripts"@
            && e.spec_position() == skip(s@, p as nat)),
    decreases s.len() - p, 6nat,
{
    let t = skip_blank(s, p);
    proof {
        lemma_skip_skip(s@, p as nat);
        if last_first(s@, p as nat) {
            lemma_word_ident(s@, t as nat, "last"@);
        }
        match tgt@ {
            Some((q0, n0, d0)) => {
                match d0 {
                    Deriv::Up(d1) => lemma_compare_start(s@, t as nat, q0, n0, sub, filt, *d1),
                    _ => {},
                }
            },
            None => {},
        }
    }
    if char_at(s, t, '!') && !two_at(s, t, '!', '=') {
        let u = skip_blank(s, t + 1);
        if char_at(s, u, '(') {
            let ghost inner = match tgt@ {
                Some((q0, n0, d0)) => match d0 {
                    Deriv::Sub(m, d1) => Some((m, Node::P(*n0->P_0->Not_0), *d1)),
                    _ => None,
                },
                None => None,
            };
            proof {
                match tgt@ {
                    Some((q0, n0, d0)) => {
                        if word(s@, u as nat, "exists"@) is Some {
                            lemma_word_ident(s@, u as nat, "exists"@);
                        }
                        match d0 {
                            Deriv::Sub(m, d1) => lemma_stop_or_at(s@, m),
                            _ => {},
                        }
                    },
                    None => {},
                }
            }
            let (n, q) = parse_or(s, u + 1, sub, filt, Ghost(inner))?;
            let ghost u1 = (u + 1) as nat;
            let ghost d1 = choose|d1: Deriv| g_or(s@, u1, q as nat, n, sub, filt, d1);
            let inner = as_pred(n, s, u)?;
            let q2 = expect_char(s, q, ')')?;
            let res = Node::P(Predicate::Not(Box::new(inner)));
            assert(parses_not(s@, p as nat, q2 as nat, res, sub, filt)) by {
                assert(g_not(s@, p as nat, q2 as nat, res, sub, filt, Deriv::Sub(q as nat, Box::new(d1))));
            }
            Ok((res, q2))
        } else {
            match word_at(s, u, "exists") {
                Some(e) => {
                    let ghost inner = match tgt@ {
                        Some((q0, n0, d0)) => match d0 {
                            Deriv::Neg(d1) => Some((q0, *n0->P_0->Not_0, *d1)),
                            _ => None,
                        },
                        None => None,
                    };
                    let (x, q) = parse_exists(s, e, sub, filt, Ghost(inner))?;
                    let ghost d1 = choose|d1: Deriv| g_exists(s@, e as nat, q as nat, x, sub, filt, d1);
                    let res = Node::P(Predicate::Not(Box::new(x)));
                    assert(parses_not(s@, p as nat, q as nat, res, sub, filt)) by {
                        assert(g_not(s@, p as nat, q as nat, res, sub, filt, Deriv::Neg(Box::new(d1))));
                    }
                    Ok((res, q))
                },
                None => Err(syntax_error(s, u)),
            }
        }
    } else {
        let ghost inner = match tgt@ {
            Some((q0, n0, d0)) => match d0 {
                Deriv::Up(d1) => Some((q0, n0, *d1)),
                _ => None,
            },
            None => None,
        };
        proof {
            match tgt@ {
                Some((q0, n0, d0)) => {
                    if at(s@, t as nat, '!') {
                        let u = skip(s@, t as nat + 1);
                        if word(s@, u, "exists"@) is Some {
                            lemma_word_ident(s@, u, "exists"@);
                        }
                    }
                },
                None => {},
            }
        }
        let (n, q) = parse_comparison(s, t, sub, filt, Ghost(inner))?;
        let ghost d1 = choose|d1: Deriv| g_compare(s@, t as nat, q as nat, n, sub, filt, d1);
        assert(parses_not(s@, p as nat, q as nat, n, sub, filt)) by {
            assert(g_not(s@, p as nat, q as nat, n, sub, filt, Deriv::Up(Box::new(d1))));
        }
        Ok((n, q))
    }
}

/// `exists (expr)` after the word `exists`. Given the end, predicate and derivation of such a
/// text from `p`, it reads exactly that far.
fn parse_exists(s: &Vec<char>, p: usize, sub: bool, filt: bool, tgt: Ghost<Option<(nat, Predicate, Deriv)>>) -> (r:
    Result<(Predicate, usize), ParseError>)
    requires
        0 < p <= s.len(),
        tgt@ matches Some((q0, x0, d0)) ==> g_exists(s@, p as nat, q0, x0, sub, filt, d0),
    ensures
        match r {
            Ok((x, q)) => p <= q <= s.len() && pred_ok(x, sub, filt),
            Err(e) => e.spec_position() <= s.len(),
        },
        r matches Ok((x, q)) ==> parses_exists(s@, p as nat, q as nat, x, sub, filt),
        tgt@ matches Some((q0, x0, d0)) ==> (r matches Ok((x, q)) && q == q0),
    decreases s.len() - p, 9nat,
{
    let ghost inner = match tgt@ {
        Some((q0, x0, d0)) => match d0 {
            Deriv::Sub(m, d1) => Some((m, Node::E(*x0->Exists_0), *d1)),
            _ => None,
        },
        None => None,
    };
    proof {
        match tgt@ {
            Some((q0, x0, d0)) => match d0 {
                Deriv::Sub(m, d1) => lemma_stop_or_at(s@, m),
                _ => {},
            },
            None => {},
        }
    }
    let u = expect_char(s, p, '(')?;
    let (n, q) = parse_or(s, u, sub, filt, Ghost(inner))?;
    let ghost d1 = choose|d1: Deriv| g_or(s@, u as nat, q as nat, n, sub, filt, d1);
    let e = as_expr(n, s, u)?;
    let q2 = expect_char(s, q, ')')?;
    let res = Predicate::Exists(Box::new(e));
    let ghost dr = Deriv::Sub(q as nat, Box::new(d1));
    assert(parses_exists(s@, p as nat, q2 as nat, res, sub, filt)) by {
        assert(g_exists(s@, p as nat, q2 as nat, res, sub, filt, dr));
    }
    Ok((res, q2))
}

/// A comparison operator at `t`, with its length.
fn compare_op_at(s: &Vec<char>, t: usize) -> (r: Option<(CompareOp, usize)>)
    requires
        t <= s.len(),
    ensures
        r matches Some((_, n)) ==> 1 <= n <= 2 && t + n <= s.len(),
        r matches Some((op, n)) ==> compare_op_lit(s@, t as nat) == Some((op, n as nat)),
        r is None ==> compare_op_lit(s@, t as nat) is None,
{
    if two_at(s, t, '=', '=') {
        Some((CompareOp::Eq, 2))
    } else if two_at(s, t, '!', '=') {
        Some((CompareOp::Ne, 2))
    } else if two_at(s, t, '<', '>') {
        Some((CompareOp::Ne, 2))
    } else if two_at(s, t, '<', '=') {
        Some((CompareOp::Le, 2))
    } else if two_at(s, t, '>', '=') {
        Some((CompareOp::Ge, 2))
    } else if char_at(s, t, '<') {
        Some((CompareOp::Lt, 1))
    } else if char_at(s, t, '>') {
        Some((CompareOp::Gt, 1))
    } else {
        None
    }
}

/// The initial of `starts with`: a string or a variable.
fn parse_initial(s: &Vec<char>, p: usize) -> (r: Result<(Value, usize), ParseError>)
    requires
        p <= s.len(),
    ensures
        match r {
            Ok((v, q)) => p < q <= s.len() && initial_lit(s@, p as nat, q as nat, v),
            Err(e) => e.spec_position() <= s.len() && forall|q: nat, v: Value| !initial_lit(s@, p as nat, q, v),
        },
{
    let t = skip_blank(s, p);
    if char_at(s, t, '"') {
        let (v, q) = read_string(s, t)?;
        Ok((Value::String(v), q))
    } else if char_at(s, t, '$') {
        match parse_variable(s, t)? {
            (Some(name), q) => Ok((Value::Variable(name), q)),
            (None, _) => Err(syntax_error(s, t)),
        }
    } else {
        Err(syntax_error(s, t))
    }
}

/// A variable at `t` (which holds `$`): `$name` or `$"name"`; `None` for a bare `$`.
fn parse_variable(s: &Vec<char>, t: usize) -> (r: Result<(Option<String>, usize), ParseError>)
    requires
        t < s.len(),
    ensures
        match r {
            Ok((o, q)) => t < q <= s.len() && variable_lit(s@, t as nat) == Some((opt_view(o), q as nat)),
            Err(e) => e.spec_position() <= s.len() && variable_lit(s@, t as nat) is None,
        },
{
    if char_at(s, t + 1, '"') {
        let (name, q) = read_string(s, t + 1)?;
        Ok((Some(name), q))
    } else if t + 1 < s.len() && is_ident_char(s[t + 1]) {
        let e = read_ident(s, t + 1);
        Ok((Some(string_of(&sub_chars(s, t + 1, e))), e))
    } else {
        Ok((None, t + 1))
    }
}

/// A `like_regex` pattern with its optional flags.
fn parse_regex(s: &Vec<char>, p: usize) -> (r: Result<(LikeRegex, usize), ParseError>)
    requires
        p <= s.len(),
    ensures
        match r {
            Ok((re, q)) => p < q <= s.len() && regex_lit(s@, p as nat, q as nat, re),
            Err(e) => e.spec_position() <= s.len() && forall|q: nat, re: LikeRegex| !regex_lit(s@, p as nat, q, re),
        },
{
    let t = skip_blank(s, p);
    if !char_at(s, t, '"') {
        return Err(syntax_error(s, t));
    }
    let (pattern, q) = read_string(s, t)?;
    let u = skip_blank(s, q);
    let (flags, q2) = match word_at(s, u, "flag") {
        Some(e) => {
            let v = skip_blank(s, e);
            if !char_at(s, v, '"') {
                return Err(syntax_error(s, v));
            }
            let (f, q3) = read_string(s, v)?;
            (canonical_flags(&f, v, s.len())?, q3)
        },
        None => (None, q),
    };
    match LikeRegex::with_flags(pattern.as_str(), flags) {
        Ok(re) => Ok((re, q2)),
        Err(e) => {
            let mut m = String::from_str("invalid regular expression: ");
            m.append(regex_error_text(&e).as_str());
            Err(ParseError { position: t, message: m })
        },
    }
}

/// A comparison, `starts with`, `like_regex` or `is unknown`, or an arithmetic expression.
/// Given the end, node and derivation of such a text from `p`, it reads exactly that far.
fn parse_comparison(s: &Vec<char>, p: usize, sub: bool, filt: bool, tgt: Ghost<Option<(nat, Node, Deriv)>>) -> (r:
    Result<(Node, usize), ParseError>)
    requires
        p <= s.len(),
        tgt@ matches Some((q0, n0, d0)) ==> g_compare(s@, p as nat, q0, n0, sub, filt, d0) && stop_compare(s@, q0),
    ensures
        parsed_ok(r, p as nat, s.len() as nat, sub, filt),
        r matches Ok((n, q)) ==> parses_compare(s@, p as nat, q as nat, n, sub, filt),
        tgt@ matches Some((q0, n0, d0)) ==> (r matches Ok((n, q)) && q == q0 && (n is P) == (n0 is P)),
        !sub && last_first(s@, p as nat) ==> (r matches Err(e) && e.spec_message() == "LAST is allowed only in array subscripts"@
            && e.spec_position() == skip(s@, p as nat)),
    decreases s.len() - p, 5nat,
{
    let ghost left = match tgt@ {
        Some((q0, n0, d0)) => match d0 {
            Deriv::Up(d1) => Some((q0, n0, *d1)),
            Deriv::Pair(m, dl, _) => Some((m, compare_left(n0), *dl)),
            Deriv::Sub(m, d1) => Some((m, compare_left(n0), *d1)),
            _ => None,
        },
        None => None,
    };
    proof {
        reveal_strlit("starts");
        reveal_strlit("like_regex");
        reveal_strlit("is");
        match tgt@ {
            Some((q0, n0, d0)) => match d0 {
                Deriv::Pair(m, _, _) => lemma_stop_add_at(s@, m),
                Deriv::Sub(m, _) => {
                    let t = skip(s@, m);
                    if word(s@, t, "starts"@) is Some {
                        lemma_word_ident(s@, t, "starts"@);
                    }
                    if word(s@, t, "like_regex"@) is Some {
                        lemma_word_ident(s@, t, "like_regex"@);
                    }
                    if word(s@, t, "is"@) is Some {
                        lemma_word_ident(s@, t, "is"@);
                    }
                    lemma_stop_add_at(s@, m);
                },
                _ => {},
            },
            None => {},
        }
    }
    let (n, q) = parse_add(s, p, sub, filt, Ghost(left))?;
    let ghost da = choose|d1: Deriv| g_add(s@, p as nat, q as nat, n, sub, filt, d1);
    let t = skip_blank(s, q);
    proof {
        match tgt@ {
            Some((q0, n0, d0)) => {
                if word(s@, t as nat, "starts"@) is Some {
                    lemma_word_ident(s@, t as nat, "starts"@);
                    lemma_word_distinct(s@, t as nat, "starts"@, "like_regex"@);
                    lemma_word_distinct(s@, t as nat, "starts"@, "is"@);
                }
                if word(s@, t as nat, "like_regex"@) is Some {
                    lemma_word_ident(s@, t as nat, "like_regex"@);
                    lemma_word_distinct(s@, t as nat, "like_regex"@, "is"@);
                }
                if word(s@, t as nat, "is"@) is Some {
                    lemma_word_ident(s@, t as nat, "is"@);
                }
            },
            None => {},
        }
    }
    if let Some((op, len)) = compare_op_at(s, t) {
        let ghost right = match tgt@ {
            Some((q0, n0, d0)) => match d0 {
                Deriv::Pair(_, _, dr) => Some((q0, Node::E(*n0->P_0->Compare_2), *dr)),
                _ => None,
            },
            None => None,
        };
        let l = as_expr(n, s, t)?;
        let (m, q2) = parse_add(s, t + len, sub, filt, Ghost(right))?;
        let ghost tl = (t + len) as nat;
        let ghost dm = choose|d1: Deriv| g_add(s@, tl, q2 as nat, m, sub, filt, d1);
        let r = as_expr(m, s, t)?;
        let res = Node::P(Predicate::Compare(op, Box::new(l), Box::new(r)));
        assert(parses_compare(s@, p as nat, q2 as nat, res, sub, filt)) by {
            assert(g_compare(s@, p as nat, q2 as nat, res, sub, filt, Deriv::Pair(q as nat, Box::new(da), Box::new(dm))));
        }
        return Ok((res, q2));
    }
    if let Some(e) = word_at(s, t, "starts") {
        let u = skip_blank(s, e);
        match word_at(s, u, "with") {
            Some(e2) => {
                let x = as_expr(n, s, t)?;
                let (v, q2) = parse_initial(s, e2)?;
                proof {
                    match tgt@ {
                        Some((q0, n0, d0)) => {
                            let v0 = n0->P_0->StartsWith_1;
                            lemma_initial_unique(s@, e2 as nat, q2 as nat, v, q0, v0);
                        },
                        None => {},
                    }
                }
                let res = Node::P(Predicate::StartsWith(Box::new(x), v));
                assert(parses_compare(s@, p as nat, q2 as nat, res, sub, filt)) by {
                    assert(g_compare(s@, p as nat, q2 as nat, res, sub, filt, Deriv::Sub(q as nat, Box::new(da))));
                }
                return Ok((res, q2));
            },
            None => {
                return Err(syntax_error(s, u));
            },
        }
    }
    if let Some(e) = word_at(s, t, "like_regex") {
        let x = as_expr(n, s, t)?;
        let (re, q2) = parse_regex(s, e)?;
        proof {
            match tgt@ {
                Some((q0, n0, d0)) => {
                    let re0 = *n0->P_0->LikeRegex_1;
                    lemma_regex_unique(s@, e as nat, q2 as nat, re, q0, re0);
                },
                None => {},
            }
        }
        let res = Node::P(Predicate::LikeRegex(Box::new(x), Box::new(re)));
        assert(parses_compare(s@, p as nat, q2 as nat, res, sub, filt)) by {
            assert(g_compare(s@, p as nat, q2 as nat, res, sub, filt, Deriv::Sub(q as nat, Box::new(da))));
        }
        return Ok((res, q2));
    }
    if let Some(e) = word_at(s, t, "is") {
        let u = skip_blank(s, e);
        match word_at(s, u, "unknown") {
            Some(e2) => {
                let x = as_pred(n, s, t)?;
                let res = Node::P(Predicate::IsUnknown(Box::new(x)));
                assert(parses_compare(s@, p as nat, e2 as nat, res, sub, filt)) by {
                    assert(g_compare(s@, p as nat, e2 as nat, res, sub, filt, Deriv::Sub(q as nat, Box::new(da))));
                }
                return Ok((res, e2));
            },
            None => {
                return Err(syntax_error(s, u));
            },
        }
    }
    assert(parses_compare(s@, p as nat, q as nat, n, sub, filt)) by {
        assert(g_compare(s@, p as nat, q as nat, n, sub, filt, Deriv::Up(Box::new(da))));
    }
    Ok((n, q))
}

/// A sum or difference. Given the end, node and derivation of a sum that the text spells
/// from `p`, it reads exactly that far.
fn parse_add(s: &Vec<char>, p: usize, sub: bool, filt: bool, tgt: Ghost<Option<(nat, Node, Deriv)>>) -> (r: Result<
    (Node, usize),
    ParseError,
>)
    requires
        p <= s.len(),
        tgt@ matches Some((q0, n0, d0)) ==> g_add(s@, p as nat, q0, n0, sub, filt, d0) && stop_add(s@, q0),
    ensures
        parsed_ok(r, p as nat, s.len() as nat, sub, filt),
        r matches Ok((n, q)) ==> parses_add(s@, p as nat, q as nat, n, sub, filt),
        tgt@ matches Some((q0, n0, d0)) ==> (r matches Ok((n, q)) && q == q0 && (n is P) == (n0 is P)),
        !sub && last_first(s@, p as nat) ==> (r matches Err(e) && e.spec_message() == "LAST is allowed only in array subscripts"@
            && e.spec_position() == skip(s@, p as nat)),
    decreases s.len() - p, 4nat,
{
    let ghost first = match tgt@ {
        Some((q0, n0, d0)) => Some(chain_first(2, q0, n0, d0)),
        None => None,
    };
    proof {
        match tgt@ {
            Some((q0, n0, d0)) => lemma_chain_start(2, s@, p as nat, q0, n0, sub, filt, d0),
            None => {},
        }
    }
    let (mut n, mut q) = parse_mul(s, p, sub, filt, Ghost(first))?;
    let ghost mut d = Deriv::Up(Box::new(choose|d1: Deriv| g_mul(s@, p as nat, q as nat, n, sub, filt, d1)));
    loop
        invariant
            p <= q <= s.len(),
            node_ok(n, sub, filt),
            g_add(s@, p as nat, q as nat, n, sub, filt, d),
            !(!sub && last_first(s@, p as nat)),
            tgt@ matches Some((q0, n0, d0)) ==> ({
                &&& g_add(s@, p as nat, q0, n0, sub, filt, d0)
                &&& stop_add(s@, q0)
                &&& chain_has(2, q0, n0, d0, q as nat)
                &&& chain_kind(2, q0, n0, d0, q as nat) == (n is P)
            }),
        decreases s.len() - q,
    {
        let t = skip_blank(s, q);
        let ghost next = match tgt@ {
            Some((q0, n0, d0)) => Some(chain_next(2, q0, n0, d0, q as nat)),
            None => None,
        };
        proof {
            match tgt@ {
                Some((q0, n0, d0)) => lemma_chain_at(2, s@, p as nat, q0, n0, sub, filt, d0, q as nat),
                None => {},
            }
        }
        let op = if char_at(s, t, '+') {
            BinaryOp::Add
        } else if char_at(s, t, '-') {
            BinaryOp::Sub
        } else {
            return Ok((n, q));
        };
        let l = as_expr(n, s, t)?;
        let (m, q2) = parse_mul(s, t + 1, sub, filt, Ghost(next))?;
        let ghost t1 = (t + 1) as nat;
        let ghost dm = choose|d1: Deriv| g_mul(s@, t1, q2 as nat, m, sub, filt, d1);
        let r = as_expr(m, s, t)?;
        n = Node::E(Expr::BinaryOp(op, Box::new(l), Box::new(r)));
        proof {
            d = Deriv::Pair(q as nat, Box::new(d), Box::new(dm));
        }
        q = q2;
    }
}

/// A product, quotient or remainder. Given the end, node and derivation of a product that
/// the text spells from `p`, it reads exactly that far.
fn parse_mul(s: &Vec<char>, p: usize, sub: bool, filt: bool, tgt: Ghost<Option<(nat, Node, Deriv)>>) -> (r: Result<
    (Node, usize),
    ParseError,
>)
    requires
        p <= s.len(),
        tgt@ matches Some((q0, n0, d0)) ==> g_mul(s@, p as nat, q0, n0, sub, filt, d0) && stop_mul(s@, q0),
    ensures
        parsed_ok(r, p as nat, s.len() as nat, sub, filt),
        r matches Ok((n, q)) ==> parses_mul(s@, p as nat, q as nat, n, sub, filt),
        tgt@ matches Some((q0, n0, d0)) ==> (r matches Ok((n, q)) && q == q0 && (n is P) == (n0 is P)),
        !sub && last_first(s@, p as nat) ==> (r matches Err(e) && e.spec_message() == "LAST is allowed only in array subscripts"@
            && e.spec_position() == skip(s@, p as nat)),
    decreases s.len() - p, 3nat,
{
    let ghost first = match tgt@ {
        Some((q0, n0, d0)) => Some(chain_first(3, q0, n0, d0)),
        None => None,
    };
    proof {
        match tgt@ {
            Some((q0, n0, d0)) => lemma_chain_start(3, s@, p as nat, q0, n0, sub, filt, d0),
            None => {},
        }
    }
    let (mut n, mut q) = parse_unary(s, p, sub, filt, Ghost(first))?;
    let ghost mut d = Deriv::Up(Box::new(choose|d1: Deriv| g_unary(s@, p as nat, q as nat, n, sub, filt, d1)));
    loop
        invariant
            p <= q <= s.len(),
            node_ok(n, sub, filt),
            g_mul(s@, p as nat, q as nat, n, sub, filt, d),
            !(!sub && last_first(s@, p as nat)),
            tgt@ matches Some((q0, n0, d0)) ==> ({
                &&& g_mul(s@, p as nat, q0, n0, sub, filt, d0)
                &&& stop_mul(s@, q0)
                &&& chain_has(3, q0, n0, d0, q as nat)
                &&& chain_kind(3, q0, n0, d0, q as nat) == (n is P)
            }),
        decreases s.len() - q,
    {
        let t = skip_blank(s, q);
        let ghost next = match tgt@ {
            Some((q0, n0, d0)) => Some(chain_next(3, q0, n0, d0, q as nat)),
            None => None,
        };
        proof {
            match tgt@ {
                Some((q0, n0, d0)) => lemma_chain_at(3, s@, p as nat, q0, n0, sub, filt, d0, q as nat),
                None => {},
            }
        }
        let op = if char_at(s, t, '*') {
            BinaryOp::Mul
        } else if char_at(s, t, '/') {
            BinaryOp::Div
        } else if char_at(s, t, '%') {
            BinaryOp::Rem
        } else {
            return Ok((n, q));
        };
        let l = as_expr(n, s, t)?;
        let (m, q2) = parse_unary(s, t + 1, sub, filt, Ghost(next))?;
        let ghost t1 = (t + 1) as nat;
        let ghost dm = choose|d1: Deriv| g_unary(s@, t1, q2 as nat, m, sub, filt, d1);
        let r = as_expr(m, s, t)?;
        n = Node::E(Expr::BinaryOp(op, Box::new(l), Box::new(r)));
        proof {
            d = Deriv::Pair(q as nat, Box::new(d), Box::new(dm));
        }
        q = q2;
    }
}

/// A unary `+` or `-`; applied to a number literal, it gives the literal or its negation.
/// Given the end, node and derivation of a unary expression from `p`, it reads exactly that
/// far.
fn parse_unary(s: &Vec<char>, p: usize, sub: bool, filt: bool, tgt: Ghost<Option<(nat, Node, Deriv)>>) -> (r: Result<
    (Node, usize),
    ParseError,
>)
    requires
        p <= s.len(),
        tgt@ matches Some((q0, n0, d0)) ==> g_unary(s@, p as nat, q0, n0, sub, filt, d0) && stop_postfix(s@, q0),
    ensures
        parsed_ok(r, p as nat, s.len() as nat, sub, filt),
        r matches Ok((n, q)) ==> parses_unary(s@, p as nat, q as nat, n, sub, filt),
        tgt@ matches Some((q0, n0, d0)) ==> (r matches Ok((n, q)) && q == q0 && (n is P) == (n0 is P)),
        !sub && last_first(s@, p as nat) ==> (r matches Err(e) && e.spec_message() == "LAST is allowed only in array subscripts"@
            && e.spec_position() == skip(s@, p as nat)),
    decreases s.len() - p, 2nat,
{
    let t = skip_blank(s, p);
    let ghost inner = match tgt@ {
        Some((q0, n0, d0)) => match d0 {
            Deriv::Up(d1) => Some((q0, n0, *d1)),
            Deriv::Sign(x, d1) => Some((q0, Node::E(x), *d1)),
            _ => None,
        },
        None => None,
    };
    proof {
        lemma_skip_skip(s@, p as nat);
        if last_first(s@, p as nat) {
            lemma_word_ident(s@, t as nat, "last"@);
        }
        match tgt@ {
            Some((q0, n0, d0)) => match d0 {
                Deriv::Up(d1) => lemma_postfix_start(s@, t as nat, q0, n0, sub, filt, *d1),
                _ => {},
            },
            None => {},
        }
    }
    let op = if char_at(s, t, '+') {
        UnaryOp::Plus
    } else if char_at(s, t, '-') {
        UnaryOp::Minus
    } else {
        let (n, q) = parse_postfix(s, t, sub, filt, Ghost(inner))?;
        let ghost dp = choose|d1: Deriv| g_postfix(s@, t as nat, q as nat, n, sub, filt, d1);
        assert(parses_unary(s@, p as nat, q as nat, n, sub, filt)) by {
            assert(g_unary(s@, p as nat, q as nat, n, sub, filt, Deriv::Up(Box::new(dp))));
        }
        return Ok((n, q));
    };
    let (n, q) = parse_unary(s, t + 1, sub, filt, Ghost(inner))?;
    let ghost t1 = (t + 1) as nat;
    let ghost du = choose|d1: Deriv| g_unary(s@, t1, q as nat, n, sub, filt, d1);
    let x = as_expr(n, s, t)?;
    let ghost xg = x;
    assert(expr_ok(x, sub, filt));
    let e = match x {
        Expr::PathPrimary(PathPrimary::Value(Value::Number(v))) => match op {
            UnaryOp::Plus => Expr::PathPrimary(PathPrimary::Value(Value::Number(v))),
            UnaryOp::Minus => Expr::PathPrimary(PathPrimary::Value(Value::Number(v.neg()))),
        },
        _ => Expr::UnaryOp(op, Box::new(x)),
    };
    proof {
        reveal_with_fuel(expr_ok, 2);
    }
    assert(expr_ok(e, sub, filt));
    assert(signed(op, xg, e));
    let res = Node::E(e);
    assert(parses_unary(s@, p as nat, q as nat, res, sub, filt)) by {
        assert(g_unary(s@, p as nat, q as nat, res, sub, filt, Deriv::Sign(xg, Box::new(du))));
    }
    Ok((res, q))
}

/// A primary expression followed by accessors. Given the end, node and derivation of such a
/// text from `p`, it reads exactly that far.
fn parse_postfix(s: &Vec<char>, p: usize, sub: bool, filt: bool, tgt: Ghost<Option<(nat, Node, Deriv)>>) -> (r:
    Result<(Node, usize), ParseError>)
    requires
        p <= s.len(),
        tgt@ matches Some((q0, n0, d0)) ==> g_postfix(s@, p as nat, q0, n0, sub, filt, d0) && stop_postfix(s@, q0),
    ensures
        parsed_ok(r, p as nat, s.len() as nat, sub, filt),
        r matches Ok((n, q)) ==> parses_postfix(s@, p as nat, q as nat, n, sub, filt),
        tgt@ matches Some((q0, n0, d0)) ==> (r matches Ok((n, q)) && q == q0 && (n is P) == (n0 is P)),
        !sub && last_first(s@, p as nat) ==> (r matches Err(e) && e.spec_message() == "LAST is allowed only in array subscripts"@
            && e.spec_position() == skip(s@, p as nat)),
    decreases s.len() - p, 1nat,
{
    let ghost first = match tgt@ {
        Some((q0, n0, d0)) => Some(pchain_first(q0, n0, d0)),
        None => None,
    };
    proof {
        match tgt@ {
            Some((q0, n0, d0)) => lemma_pchain_first(s@, p as nat, q0, n0, sub, filt, d0),
            None => {},
        }
    }
    let (mut n, mut q) = parse_primary(s, p, sub, filt, Ghost(first))?;
    let ghost mut d = Deriv::Up(Box::new(choose|d1: Deriv| g_primary(s@, p as nat, q as nat, n, sub, filt, d1)));
    loop
        invariant
            p < q <= s.len(),
            node_ok(n, sub, filt),
            g_postfix(s@, p as nat, q as nat, n, sub, filt, d),
            !(!sub && last_first(s@, p as nat)),
            tgt@ matches Some((q0, n0, d0)) ==> ({
                let (f, fnode, fd) = pchain_first(q0, n0, d0);
                &&& g_postfix(s@, p as nat, q0, n0, sub, filt, d0)
                &&& stop_postfix(s@, q0)
                &&& pchain_has(q0, n0, d0, q as nat)
                &&& f <= q
                &&& (f == q0 ==> fnode == n0)
                &&& (f != q0 ==> n0 is E)
                &&& (q == f ==> (n is P) == (fnode is P))
                &&& (q != f ==> n is E)
            }),
        decreases s.len() - q,
    {
        let t = skip_blank(s, q);
        let ghost next = match tgt@ {
            Some((q0, n0, d0)) => if q as nat != q0 {
                let (y, op, ad) = pchain_next(q0, n0, d0, q as nat);
                Some((y, op, ad))
            } else {
                None
            },
            None => None,
        };
        proof {
            match tgt@ {
                Some((q0, n0, d0)) => if q as nat != q0 {
                    lemma_pchain_next(s@, p as nat, q0, n0, sub, filt, d0, q as nat);
                    let (y, op, ad) = pchain_next(q0, n0, d0, q as nat);
                    lemma_accessor_start(s@, t as nat, y, op, sub, filt, ad);
                },
                None => {},
            }
        }
        if char_at(s, t, '.') || char_at(s, t, '[') || char_at(s, t, '?') {
            let (op, q2) = parse_accessor(s, t, sub, filt, Ghost(next))?;
            let ghost dacc = choose|d1: Deriv| g_accessor(s@, t as nat, q2 as nat, op, sub, filt, d1);
            let ghost n0 = n;
            let base = match n {
                Node::E(e) => e,
                Node::P(x) => Expr::PathPrimary(PathPrimary::ExprOrPred(Box::new(ExprOrPredicate::Pred(x)))),
            };
            proof {
                if n0 is E {
                    d = Deriv::Pair(q as nat, Box::new(d), Box::new(dacc));
                } else {
                    d = Deriv::PairP(q as nat, Box::new(d), Box::new(dacc));
                }
            }
            proof {
                reveal_with_fuel(expr_ok, 3);
            }
            assert(expr_ok(base, sub, filt));
            let acc = Expr::Accessor(Box::new(base), op);
            assert(expr_ok(acc, sub, filt));
            n = Node::E(acc);
            q = q2;
        } else {
            return Ok((n, q));
        }
    }
}

/// The subscripts of `[...]`, from `p` on. Given the end, subscripts and derivation of such a
/// text from `p`, it reads exactly that far.
fn parse_indices(s: &Vec<char>, p: usize, filt: bool, tgt: Ghost<Option<(nat, Seq<ArrayIndex>, Deriv)>>) -> (r:
    Result<(Vec<ArrayIndex>, usize), ParseError>)
    requires
        0 < p <= s.len(),
        tgt@ matches Some((q0, idx0, d0)) ==> g_indices(s@, p as nat, q0, idx0, filt, d0),
    ensures
        match r {
            Ok((v, q)) => p <= q <= s.len() && indices_ok(v@, 0, filt),
            Err(e) => e.spec_position() <= s.len(),
        },
        r matches Ok((v, q)) ==> parses_indices(s@, p as nat, q as nat, v@, filt),
        tgt@ matches Some((q0, idx0, d0)) ==> (r matches Ok((v, q)) && q == q0),
    decreases s.len() - p, 9nat,
{
    let mut out: Vec<ArrayIndex> = Vec::new();
    let mut u = p;
    let ghost mut dl = Deriv::Leaf;
    proof {
        match tgt@ {
            Some((q0, idx0, d0)) => lemma_indices_at(s@, p as nat, q0, idx0, filt, d0, 0),
            None => {},
        }
    }
    loop
        invariant
            p <= u <= s.len(),
            indices_ok(out@, 0, filt),
            g_list(s@, p as nat, u as nat, out@, filt, dl),
            tgt@ matches Some((q0, idx0, d0)) ==> ({
                &&& g_indices(s@, p as nat, q0, idx0, filt, d0)
                &&& out@.len() < idx0.len()
                &&& u == indices_items(p as nat, idx0, d0)[out@.len() as int].0
            }),
        decreases s.len() - u,
    {
        let ghost k = out@.len() as int;
        let ghost item = match tgt@ {
            Some((q0, idx0, d0)) => Some((indices_items(p as nat, idx0, d0)[k], idx0[k])),
            None => None,
        };
        let ghost first = match item {
            Some(((_, m, di), x)) => match di {
                Deriv::Up(d1) => Some((m, Node::E(x->Index_0), *d1)),
                Deriv::Pair(k1, d1, _) => Some((k1, Node::E(x->Slice_0), *d1)),
                _ => None,
            },
            None => None,
        };
        let ghost second = match item {
            Some(((_, m, di), x)) => match di {
                Deriv::Pair(_, _, d2) => Some((m, Node::E(x->Slice_1), *d2)),
                _ => None,
            },
            None => None,
        };
        proof {
            reveal_strlit("to");
            match tgt@ {
                Some((q0, idx0, d0)) => {
                    lemma_indices_at(s@, p as nat, q0, idx0, filt, d0, k);
                    let (_, m, di) = indices_items(p as nat, idx0, d0)[k];
                    lemma_stop_or_at(s@, m);
                    if word(s@, skip(s@, m), "to"@) is Some {
                        lemma_word_ident(s@, skip(s@, m), "to"@);
                    }
                    match di {
                        Deriv::Pair(k1, _, _) => lemma_stop_or_to(s@, k1),
                        _ => {},
                    }
                },
                None => {},
            }
        }
        let (n1, q1) = parse_or(s, u, true, filt, Ghost(first))?;
        let ghost d1 = choose|d1: Deriv| g_or(s@, u as nat, q1 as nat, n1, true, filt, d1);
        let e1 = as_expr(n1, s, u)?;
        let w = skip_blank(s, q1);
        let ghost mut di = Deriv::Leaf;
        let (elem, q2) = match word_at(s, w, "to") {
            Some(e) => {
                let (n2, q3) = parse_or(s, e, true, filt, Ghost(second))?;
                let ghost d2 = choose|d2: Deriv| g_or(s@, e as nat, q3 as nat, n2, true, filt, d2);
                let e2 = as_expr(n2, s, e)?;
                proof {
                    di = Deriv::Pair(q1 as nat, Box::new(d1), Box::new(d2));
                }
                (ArrayIndex::Slice(e1, e2), q3)
            },
            None => {
                proof {
                    di = Deriv::Up(Box::new(d1));
                }
                (ArrayIndex::Index(e1), q1)
            },
        };
        assert(g_item(s@, u as nat, q2 as nat, elem, filt, di));
        proof {
            lemma_indices_push(out@, elem, filt);
        }
        let ghost prev = out@;
        out.push(elem);
        assert(out@.drop_last() =~= prev);
        let w2 = skip_blank(s, q2);
        if char_at(s, w2, ',') {
            if w2 + 1 > s.len() {
                return Err(syntax_error(s, w2));
            }
            proof {
                dl = Deriv::Item(u as nat, q2 as nat, Box::new(di), Box::new(dl));
            }
            u = w2 + 1;
        } else if char_at(s, w2, ']') {
            assert(parses_indices(s@, p as nat, (w2 + 1) as nat, out@, filt)) by {
                assert(g_indices(s@, p as nat, (w2 + 1) as nat, out@, filt, Deriv::Item(u as nat, q2 as nat, Box::new(di), Box::new(dl))));
            }
            return Ok((out, w2 + 1));
        } else {
            return Err(syntax_error(s, w2));
        }
    }
}

proof fn lemma_indices_push(idx: Seq<ArrayIndex>, x: ArrayIndex, filt: bool)
    requires
        indices_ok(idx, 0, filt),
        match x {
            ArrayIndex::Index(e) => expr_ok(e, true, filt),
            ArrayIndex::Slice(b, e) => expr_ok(b, true, filt) && expr_ok(e, true, filt),
        },
    ensures
        indices_ok(idx.push(x), 0, filt),
{
    lemma_indices_suffix(idx, x, filt, 0);
}

proof fn lemma_indices_suffix(idx: Seq<ArrayIndex>, x: ArrayIndex, filt: bool, k: nat)
    requires
        k <= idx.len(),
        indices_ok(idx, k, filt),
        match x {
            ArrayIndex::Index(e) => expr_ok(e, true, filt),
            ArrayIndex::Slice(b, e) => expr_ok(b, true, filt) && expr_ok(e, true, filt),
        },
    ensures
        indices_ok(idx.push(x), k, filt),
    decreases idx.len() - k,
{
    if k < idx.len() {
        lemma_indices_suffix(idx, x, filt, k + 1);
        assert(idx.push(x)[k as int] == idx[k as int]);
    } else {
        assert(idx.push(x)[k as int] == x);
        assert(indices_ok(idx.push(x), k + 1, filt));
    }
}

/// An accessor at `t` (which holds `.`, `[` or `?`). Given the end, accessor and derivation of
/// such a text at `t`, it reads exactly that far.
fn parse_accessor(s: &Vec<char>, t: usize, sub: bool, filt: bool, tgt: Ghost<Option<(nat, AccessorOp, Deriv)>>) -> (r:
    Result<(AccessorOp, usize), ParseError>)
    requires
        t < s.len(),
        s@[t as int] == '.' || s@[t as int] == '[' || s@[t as int] == '?',
        tgt@ matches Some((q0, op0, d0)) ==> g_accessor(s@, t as nat, q0, op0, sub, filt, d0),
    ensures
        match r {
            Ok((op, q)) => t < q <= s.len() && op_ok(op, sub, filt),
            Err(e) => e.spec_position() <= s.len(),
        },
        r matches Ok((op, q)) ==> parses_accessor(s@, t as nat, q as nat, op, sub, filt),
        tgt@ matches Some((q0, op0, d0)) ==> (r matches Ok((op, q)) && q == q0),
    decreases s.len() - t, 10nat,
{
    if s[t] == '.' {
        let u = skip_blank(s, t + 1);
        proof {
            match tgt@ {
                Some((q0, op0, d0)) => {
                    lemma_ident_start(s@, u as nat);
                },
                None => {},
            }
        }
        if char_at(s, u, '*') {
            if char_at(s, u + 1, '*') {
                return Err(error(u, "descendant accessor .** is not supported"));
            }
            let res = AccessorOp::MemberWildcard;
            assert(parses_accessor(s@, t as nat, (u + 1) as nat, res, sub, filt)) by {
                assert(g_accessor(s@, t as nat, (u + 1) as nat, res, sub, filt, Deriv::Leaf));
            }
            Ok((res, u + 1))
        } else if char_at(s, u, '"') {
            let (name, q) = read_string(s, u)?;
            let res = AccessorOp::Member(name);
            assert(parses_accessor(s@, t as nat, q as nat, res, sub, filt)) by {
                assert(g_accessor(s@, t as nat, q as nat, res, sub, filt, Deriv::Leaf));
            }
            Ok((res, q))
        } else if u < s.len() && is_ident_char(s[u]) {
            let e = read_ident(s, u);
            proof {
                lemma_ident_end_ge(s@, u as nat);
            }
            let v = skip_blank(s, e);
            if char_at(s, v, '(') {
                match method_of(s, u, e) {
                    Some(m) => {
                        let q = expect_char(s, v + 1, ')')?;
                        let res = AccessorOp::Method(m);
                        assert(parses_accessor(s@, t as nat, q as nat, res, sub, filt)) by {
                            assert(g_accessor(s@, t as nat, q as nat, res, sub, filt, Deriv::Leaf));
                        }
                        Ok((res, q))
                    },
                    None => Err(error(u, "unknown item method")),
                }
            } else {
                let res = AccessorOp::Member(string_of(&sub_chars(s, u, e)));
                assert(parses_accessor(s@, t as nat, e as nat, res, sub, filt)) by {
                    assert(g_accessor(s@, t as nat, e as nat, res, sub, filt, Deriv::Leaf));
                }
                Ok((res, e))
            }
        } else {
            Err(syntax_error(s, u))
        }
    } else if s[t] == '[' {
        let u = skip_blank(s, t + 1);
        let ghost inner = match tgt@ {
            Some((q0, op0, d0)) => match d0 {
                Deriv::Up(d1) => Some((q0, op0->Element_0@, *d1)),
                _ => None,
            },
            None => None,
        };
        proof {
            match tgt@ {
                Some((q0, op0, d0)) => match d0 {
                    Deriv::Up(d1) => lemma_indices_start(s@, (t + 1) as nat, q0, op0->Element_0@, filt, *d1),
                    _ => {},
                },
                None => {},
            }
        }
        if char_at(s, u, '*') {
            let q = expect_char(s, u + 1, ']')?;
            let res = AccessorOp::ElementWildcard;
            assert(parses_accessor(s@, t as nat, q as nat, res, sub, filt)) by {
                assert(g_accessor(s@, t as nat, q as nat, res, sub, filt, Deriv::Leaf));
            }
            Ok((res, q))
        } else {
            let (indices, q) = parse_indices(s, t + 1, filt, Ghost(inner))?;
            let ghost t1 = (t + 1) as nat;
            let ghost di = choose|d1: Deriv| g_indices(s@, t1, q as nat, indices@, filt, d1);
            let res = AccessorOp::Element(indices);
            assert(parses_accessor(s@, t as nat, q as nat, res, sub, filt)) by {
                assert(g_accessor(s@, t as nat, q as nat, res, sub, filt, Deriv::Up(Box::new(di))));
            }
            Ok((res, q))
        }
    } else {
        let ghost inner = match tgt@ {
            Some((q0, op0, d0)) => match d0 {
                Deriv::Sub(m, d1) => Some((m, Node::P(*op0->FilterExpr_0), *d1)),
                _ => None,
            },
            None => None,
        };
        proof {
            match tgt@ {
                Some((q0, op0, d0)) => match d0 {
                    Deriv::Sub(m, _) => lemma_stop_or_at(s@, m),
                    _ => {},
                },
                None => {},
            }
        }
        let u = expect_char(s, t + 1, '(')?;
        let (n, q) = parse_or(s, u, sub, true, Ghost(inner))?;
        let ghost d1 = choose|d1: Deriv| g_or(s@, u as nat, q as nat, n, sub, true, d1);
        let pred = as_pred(n, s, u)?;
        let q2 = expect_char(s, q, ')')?;
        let res = AccessorOp::FilterExpr(Box::new(pred));
        assert(parses_accessor(s@, t as nat, q2 as nat, res, sub, filt)) by {
            assert(g_accessor(s@, t as nat, q2 as nat, res, sub, filt, Deriv::Sub(q as nat, Box::new(d1))));
        }
        Ok((res, q2))
    }
}

/// A primary expression: `$`, `@`, `last`, a literal, a variable, `exists (...)` or a
/// bracketed expression or predicate. Given the end, node and derivation of such a text from
/// `p`, it reads exactly that far.
fn parse_primary(s: &Vec<char>, p: usize, sub: bool, filt: bool, tgt: Ghost<Option<(nat, Node, Deriv)>>) -> (r:
    Result<(Node, usize), ParseError>)
    requires
        p <= s.len(),
        tgt@ matches Some((q0, n0, d0)) ==> g_primary(s@, p as nat, q0, n0, sub, filt, d0),
    ensures
        parsed_ok(r, p as nat, s.len() as nat, sub, filt),
        r matches Ok((_, q)) ==> p < q,
        r matches Ok((n, q)) ==> parses_primary(s@, p as nat, q as nat, n, sub, filt),
        tgt@ matches Some((q0, n0, d0)) ==> (r matches Ok((n, q)) && q == q0 && (n is P) == (n0 is P)),
        !sub && last_first(s@, p as nat) ==> (r matches Err(e) && e.spec_message() == "LAST is allowed only in array subscripts"@
            && e.spec_position() == skip(s@, p as nat)),
    decreases s.len() - p, 0nat,
{
    let t = skip_blank(s, p);
    proof {
        reveal_strlit("null");
        reveal_strlit("true");
        reveal_strlit("false");
        reveal_strlit("last");
        reveal_strlit("exists");
        if last_first(s@, p as nat) {
            lemma_word_ident(s@, t as nat, "last"@);
            lemma_ident_end_ge(s@, t as nat);
        }
        match tgt@ {
            Some((q0, n0, d0)) => lemma_primary_cases(s@, p as nat, q0, n0, sub, filt, d0),
            None => {},
        }
    }
    if t >= s.len() {
        return Err(syntax_error(s, t));
    }
    let c = s[t];
    if c == '$' {
        match parse_variable(s, t)? {
            (Some(name), q) => {
                let res = primary_node(PathPrimary::Value(Value::Variable(name)));
                assert(parses_primary(s@, p as nat, q as nat, res, sub, filt)) by {
                    assert(g_primary(s@, p as nat, q as nat, res, sub, filt, Deriv::Leaf));
                }
                Ok((res, q))
            },
            (None, q) => {
                let res = primary_node(PathPrimary::Root);
                assert(parses_primary(s@, p as nat, q as nat, res, sub, filt)) by {
                    assert(g_primary(s@, p as nat, q as nat, res, sub, filt, Deriv::Leaf));
                }
                Ok((res, q))
            },
        }
    } else if c == '@' {
        if !filt {
            return Err(error(t, "@ is not allowed in root expressions"));
        }
        let res = primary_node(PathPrimary::Current);
        assert(parses_primary(s@, p as nat, (t + 1) as nat, res, sub, filt)) by {
            assert(g_primary(s@, p as nat, (t + 1) as nat, res, sub, filt, Deriv::Leaf));
        }
        Ok((res, t + 1))
    } else if c == '(' {
        let ghost inner = match tgt@ {
            Some((q0, n0, d0)) => match d0 {
                Deriv::Sub(m, d1) => Some((m, n0, *d1)),
                _ => None,
            },
            None => None,
        };
        proof {
            match tgt@ {
                Some((q0, n0, d0)) => match d0 {
                    Deriv::Sub(m, _) => lemma_stop_or_at(s@, m),
                    _ => {},
                },
                None => {},
            }
        }
        let (n, q) = parse_or(s, t + 1, sub, filt, Ghost(inner))?;
        let ghost t1 = (t + 1) as nat;
        let ghost d1 = choose|d1: Deriv| g_or(s@, t1, q as nat, n, sub, filt, d1);
        let q2 = expect_char(s, q, ')')?;
        assert(parses_primary(s@, p as nat, q2 as nat, n, sub, filt)) by {
            assert(g_primary(s@, p as nat, q2 as nat, n, sub, filt, Deriv::Sub(q as nat, Box::new(d1))));
        }
        Ok((n, q2))
    } else if c == '"' {
        let (v, q) = read_string(s, t)?;
        let res = primary_node(PathPrimary::Value(Value::String(v)));
        assert(parses_primary(s@, p as nat, q as nat, res, sub, filt)) by {
            assert(g_primary(s@, p as nat, q as nat, res, sub, filt, Deriv::Leaf));
        }
        Ok((res, q))
    } else if ('0' <= c && c <= '9') || (c == '.' && t < s.len() - 1 && '0' <= s[t + 1] && s[t + 1] <= '9') {
        let (v, q) = read_number(s, t)?;
        let res = primary_node(PathPrimary::Value(Value::Number(v)));
        assert(parses_primary(s@, p as nat, q as nat, res, sub, filt)) by {
            assert(g_primary(s@, p as nat, q as nat, res, sub, filt, Deriv::Leaf));
        }
        Ok((res, q))
    } else if is_ident_char(c) {
        let e = read_ident(s, t);
        if e == t {
            return Err(syntax_error(s, t));
        }
        proof {
            if last_first(s@, p as nat) {
                assert("null"@ != "last"@) by {
                    assert("null"@[0] != "last"@[0]);
                }
                assert("true"@ != "last"@) by {
                    assert("true"@[0] != "last"@[0]);
                }
                assert("false"@.len() != "last"@.len());
            }
            match tgt@ {
                Some((q0, n0, d0)) => lemma_primary_word(s@, p as nat, q0, n0, sub, filt, d0, e as nat),
                None => {},
            }
        }
        if is_word(s, t, e, "null") {
            let res = primary_node(PathPrimary::Value(Value::Null));
            assert(parses_primary(s@, p as nat, e as nat, res, sub, filt)) by {
                assert(g_primary(s@, p as nat, e as nat, res, sub, filt, Deriv::Leaf));
            }
            Ok((res, e))
        } else if is_word(s, t, e, "true") {
            let res = primary_node(PathPrimary::Value(Value::Boolean(true)));
            assert(parses_primary(s@, p as nat, e as nat, res, sub, filt)) by {
                assert(g_primary(s@, p as nat, e as nat, res, sub, filt, Deriv::Leaf));
            }
            Ok((res, e))
        } else if is_word(s, t, e, "false") {
            let res = primary_node(PathPrimary::Value(Value::Boolean(false)));
            assert(parses_primary(s@, p as nat, e as nat, res, sub, filt)) by {
                assert(g_primary(s@, p as nat, e as nat, res, sub, filt, Deriv::Leaf));
            }
            Ok((res, e))
        } else if is_word(s, t, e, "last") {
            if !sub {
                return Err(error(t, "LAST is allowed only in array subscripts"));
            }
            let res = primary_node(PathPrimary::Last);
            assert(parses_primary(s@, p as nat, e as nat, res, sub, filt)) by {
                assert(g_primary(s@, p as nat, e as nat, res, sub, filt, Deriv::Leaf));
            }
            Ok((res, e))
        } else if is_word(s, t, e, "exists") {
            let ghost inner = match tgt@ {
                Some((q0, n0, d0)) => match d0 {
                    Deriv::Neg(d1) => Some((q0, n0->P_0, *d1)),
                    _ => None,
                },
                None => None,
            };
            let (x, q) = parse_exists(s, e, sub, filt, Ghost(inner))?;
            let ghost dx = choose|d1: Deriv| g_exists(s@, e as nat, q as nat, x, sub, filt, d1);
            let res = Node::P(x);
            assert(parses_primary(s@, p as nat, q as nat, res, sub, filt)) by {
                assert(g_primary(s@, p as nat, q as nat, res, sub, filt, Deriv::Neg(Box::new(dx))));
            }
            Ok((res, q))
        } else {
            Err(syntax_error(s, t))
        }
    } else {
        Err(syntax_error(s, t))
    }
}

impl JsonPath {
    /// Reads a JSON path: an optional mode (`strict` or `lax`, lax by default) and an
    /// expression or predicate. A path it gives uses `last` only inside array subscripts
    /// and `@` only inside filters, and every text that the grammar derives a path from is
    /// read.
    pub fn new(text: &str) -> (r: Result<JsonPath, ParseError>)
        ensures
            match r {
                Ok(p) => path_ok(p) && parses_path(text@, p),
                Err(e) => e.spec_position() <= text@.len(),
            },
            (exists|p: JsonPath| parses_path(text@, p)) ==> r is Ok,
            last_first(text@, mode_prefix(text@).1) ==> (r matches Err(e) && e.spec_message()
                == "LAST is allowed only in array subscripts"@),
    {
        let s = chars_of(text);
        let ghost tgt: Option<(nat, Node, Deriv)> = if exists|p: JsonPath| parses_path(text@, p) {
            let pth = choose|p: JsonPath| parses_path(text@, p);
            let d = choose|d: Deriv| g_path(text@, pth, d);
            match d {
                Deriv::Sub(q, d1) => Some((q, node_of(pth.expr), *d1)),
                _ => None,
            }
        } else {
            None
        };
        let mut i = skip_blank(&s, 0);
        let mut mode = Mode::Lax;
        match word_at(&s, i, "strict") {
            Some(e) => {
                mode = Mode::Strict;
                i = e;
            },
            None => match word_at(&s, i, "lax") {
                Some(e) => {
                    i = e;
                },
                None => {},
            },
        }
        assert(mode_prefix(s@) == (mode, i as nat));
        proof {
            if exists|p: JsonPath| parses_path(text@, p) {
                let pth = choose|p: JsonPath| parses_path(text@, p);
                let d = choose|d: Deriv| g_path(text@, pth, d);
                assert(g_path(s@, pth, d));
                match d {
                    Deriv::Sub(q, _) => lemma_stop_or_at(s@, q),
                    _ => {},
                }
            }
        }
        let (n, q) = parse_or(&s, i, false, false, Ghost(tgt))?;
        let ghost d1 = choose|d1: Deriv| g_or(s@, i as nat, q as nat, n, false, false, d1);
        let t = skip_blank(&s, q);
        if t < s.len() {
            return Err(syntax_error(&s, t));
        }
        let ghost n0 = n;
        let expr = match n {
            Node::E(e) => ExprOrPredicate::Expr(e),
            Node::P(p) => ExprOrPredicate::Pred(p),
        };
        let res = JsonPath { mode, expr };
        assert(node_of(res.expr) == n0);
        assert(parses_path(text@, res)) by {
            assert(g_path(s@, res, Deriv::Sub(q as nat, Box::new(d1))));
        }
        Ok(res)
    }
}

impl core::str::FromStr for JsonPath {
    type Err = ParseError;

    fn from_str(s: &str) -> Result<JsonPath, ParseError> {
        JsonPath::new(s)
    }
}

} // verus!

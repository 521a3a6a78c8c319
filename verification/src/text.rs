//! Text forms of numbers and other scalars: printing and parsing.

use vstd::prelude::*;
use crate::number::{
    Number, spec_fit, fit_number, abs_int, pow10, pow10_u128, lemma_pow10_values, lemma_pow10_mono,
    lemma_pow10_pos,
};
use crate::json::push_char;

verus! {

/// The character of a decimal digit.
pub open spec fn digit_char(d: nat) -> char {
    if d == 0 {
        '0'
    } else if d == 1 {
        '1'
    } else if d == 2 {
        '2'
    } else if d == 3 {
        '3'
    } else if d == 4 {
        '4'
    } else if d == 5 {
        '5'
    } else if d == 6 {
        '6'
    } else if d == 7 {
        '7'
    } else if d == 8 {
        '8'
    } else {
        '9'
    }
}

/// The value of a decimal digit character.
pub open spec fn char_digit(c: char) -> nat {
    ((c as u32) - ('0' as u32)) as nat
}

/// Whether a character is an ASCII digit.
pub open spec fn is_digit(c: char) -> bool {
    '0' <= c && c <= '9'
}

/// The decimal digits of a natural number, without leading zeros.
pub open spec fn nat_digits(n: nat) -> Seq<char>
    decreases n,
{
    if n < 10 {
        seq![digit_char(n)]
    } else {
        nat_digits(n / 10).push(digit_char(n % 10))
    }
}

/// The last `width` decimal digits of `n`, with leading zeros.
pub open spec fn padded_digits(n: nat, width: nat) -> Seq<char>
    decreases width,
{
    if width == 0 {
        Seq::empty()
    } else {
        padded_digits(n / 10, (width - 1) as nat).push(digit_char(n % 10))
    }
}

/// The character of a digit.
pub fn digit_to_char(d: u64) -> (c: char)
    requires
        d < 10,
    ensures
        c == digit_char(d as nat),
{
    match d {
        0 => '0',
        1 => '1',
        2 => '2',
        3 => '3',
        4 => '4',
        5 => '5',
        6 => '6',
        7 => '7',
        8 => '8',
        _ => '9',
    }
}

/// Appends the decimal digits of `n`.
pub fn push_nat_digits(n: u128, out: &mut String)
    ensures
        final(out)@ == old(out)@ + nat_digits(n as nat),
    decreases n,
{
    if n < 10 {
        push_char(out, digit_to_char(n as u64));
        assert(final(out)@ =~= old(out)@ + nat_digits(n as nat));
    } else {
        push_nat_digits(n / 10, out);
        push_char(out, digit_to_char((n % 10) as u64));
        assert(final(out)@ =~= old(out)@ + nat_digits(n as nat));
    }
}

/// Appends the last `width` decimal digits of `n`, with leading zeros.
pub fn push_padded_digits(n: u128, width: u32, out: &mut String)
    ensures
        final(out)@ == old(out)@ + padded_digits(n as nat, width as nat),
    decreases width,
{
    if width == 0 {
        assert(final(out)@ =~= old(out)@ + padded_digits(n as nat, width as nat));
    } else {
        push_padded_digits(n / 10, width - 1, out);
        push_char(out, digit_to_char((n % 10) as u64));
        assert(final(out)@ =~= old(out)@ + padded_digits(n as nat, width as nat));
    }
}

/// A decimal `±mag / 10^scale` written out; `strip` drops trailing zeros of the fraction
/// and writes `.0` for a whole number, as a fractional number is shown; otherwise the
/// digits are kept as written and a whole number has no point, as a literal is shown.
pub open spec fn decimal_text(neg: bool, mag: nat, scale: nat, strip: bool) -> Seq<char>
    decreases scale,
{
    if strip && scale > 0 && mag % 10 == 0 {
        decimal_text(neg, mag / 10, (scale - 1) as nat, strip)
    } else {
        let sign = if neg {
            seq!['-']
        } else {
            Seq::empty()
        };
        let int_part = nat_digits(mag / pow10(scale) as nat);
        if scale == 0 {
            sign + int_part + (if strip {
                seq!['.', '0']
            } else {
                Seq::empty()
            })
        } else {
            sign + int_part + seq!['.'] + padded_digits(mag % pow10(scale) as nat, scale)
        }
    }
}

/// The text of a number as a value: integers in decimal, fractions with a point.
pub open spec fn number_text(n: Number) -> Seq<char> {
    match n {
        Number::Int(i) => if i < 0 {
            seq!['-'] + nat_digits(abs_int(i as int))
        } else {
            nat_digits(i as nat)
        },
        Number::Float(d) => decimal_text(d.spec_neg(), d.spec_mag(), d.spec_scale(), true),
    }
}

/// The text of a number as a literal of a path: the digits of the fraction as held.
pub open spec fn literal_text(n: Number) -> Seq<char> {
    match n {
        Number::Int(_) => number_text(n),
        Number::Float(d) => decimal_text(d.spec_neg(), d.spec_mag(), d.spec_scale(), false),
    }
}

/// Appends the text of a decimal.
fn push_decimal(neg: bool, mag: u64, scale: u32, strip: bool, out: &mut String)
    requires
        scale <= 18,
    ensures
        final(out)@ == old(out)@ + decimal_text(neg, mag as nat, scale as nat, strip),
    decreases scale,
{
    if strip && scale > 0 && mag % 10 == 0 {
        push_decimal(neg, mag / 10, scale - 1, strip, out);
        return ;
    }
    proof {
        lemma_pow10_values();
        lemma_pow10_mono(scale as nat, 18);
        lemma_pow10_pos(scale as nat);
    }
    if neg {
        push_char(out, '-');
    }
    let p = pow10_u128(scale);
    let m = mag as u128;
    push_nat_digits(m / p, out);
    if scale == 0 {
        if strip {
            push_char(out, '.');
            push_char(out, '0');
        }
    } else {
        push_char(out, '.');
        push_padded_digits(m % p, scale, out);
    }
    assert(final(out)@ =~= old(out)@ + decimal_text(neg, mag as nat, scale as nat, strip));
}

/// Appends the text of a number.
pub fn push_number(n: &Number, literal: bool, out: &mut String)
    ensures
        final(out)@ == old(out)@ + (if literal {
            literal_text(*n)
        } else {
            number_text(*n)
        }),
{
    match n {
        Number::Int(i) => {
            let v = *i as i128;
            if v < 0 {
                push_char(out, '-');
                push_nat_digits((-v) as u128, out);
            } else {
                push_nat_digits(v as u128, out);
            }
            assert(final(out)@ =~= old(out)@ + (if literal {
                literal_text(*n)
            } else {
                number_text(*n)
            }));
        },
        Number::Float(d) => {
            push_decimal(d.is_negative(), d.magnitude(), d.scale(), !literal, out);
        },
    }
}

/// The text of a number as a value.
pub fn number_to_string(n: &Number) -> (r: String)
    ensures
        r@ == number_text(*n),
{
    let mut s = String::new();
    push_number(n, false, &mut s);
    assert(s@ =~= number_text(*n));
    s
}


/// The value of a sequence of decimal digits.
pub open spec fn digits_value(s: Seq<char>) -> nat
    decreases s.len(),
{
    if s.len() == 0 {
        0
    } else {
        digits_value(s.drop_last()) * 10 + char_digit(s.last())
    }
}

/// The end of the run of digits that starts at `i`.
pub open spec fn scan_digits(s: Seq<char>, i: nat) -> nat
    decreases s.len() - i,
{
    if i < s.len() && is_digit(s[i as int]) {
        scan_digits(s, i + 1)
    } else {
        i
    }
}

/// The parts of an unsigned number written at a position: digits, an optional point
/// with digits, an optional exponent (taken only when digits follow its sign).
pub struct NumScan {
    pub int_end: nat,
    pub has_point: bool,
    pub frac_start: nat,
    pub frac_end: nat,
    pub exp_neg: bool,
    pub exp_start: nat,
    pub exp_end: nat,
    pub end: nat,
}

/// Scans an unsigned number that starts at `i`.
pub open spec fn scan_number(s: Seq<char>, i: nat) -> NumScan {
    let int_end = scan_digits(s, i);
    let has_point = int_end < s.len() && s[int_end as int] == '.';
    let frac_start = if has_point {
        int_end + 1
    } else {
        int_end
    };
    let frac_end = scan_digits(s, frac_start);
    let has_e = frac_end < s.len() && (s[frac_end as int] == 'e' || s[frac_end as int] == 'E');
    let sign_at = frac_end + 1;
    let has_sign = has_e && sign_at < s.len() && (s[sign_at as int] == '+' || s[sign_at as int] == '-');
    let exp_start = if has_sign {
        sign_at + 1
    } else {
        sign_at
    };
    let exp_end = scan_digits(s, exp_start);
    let has_exp = has_e && exp_end > exp_start;
    NumScan {
        int_end,
        has_point,
        frac_start,
        frac_end,
        exp_neg: has_exp && has_sign && s[sign_at as int] == '-',
        exp_start: if has_exp {
            exp_start
        } else {
            frac_end
        },
        exp_end: if has_exp {
            exp_end
        } else {
            frac_end
        },
        end: if has_exp {
            exp_end
        } else {
            frac_end
        },
    }
}

/// The largest exponent that a number may be written with.
pub open spec fn max_exponent() -> nat {
    1_000_000
}

/// The decimal `±digits * 10^(exp - frac_len)`, reduced into range; `None` when the
/// digits or the exponent are too large or the value does not fit.
pub open spec fn decimal_of(neg: bool, digits: nat, frac_len: nat, exp: int) -> Option<Number> {
    if digits >= pow10(38) || exp > max_exponent() || exp < -max_exponent() || frac_len > max_exponent() {
        None
    } else if exp >= frac_len {
        let d2 = digits * pow10((exp - frac_len) as nat);
        if d2 >= pow10(38) {
            None
        } else {
            match spec_fit(neg, d2 as nat, 0) {
                Some(d) => Some(Number::Float(d)),
                None => None,
            }
        }
    } else {
        match spec_fit(neg, digits, (frac_len - exp) as nat) {
            Some(d) => Some(Number::Float(d)),
            None => None,
        }
    }
}

/// The number that the scanned parts stand for: an integer when it has no point and no
/// exponent and fits 64 bits, a fraction otherwise.
pub open spec fn scanned_value(s: Seq<char>, start: nat, neg: bool, sc: NumScan) -> Option<Number> {
    let idigits = s.subrange(start as int, sc.int_end as int);
    let fdigits = s.subrange(sc.frac_start as int, sc.frac_end as int);
    let all = idigits + fdigits;
    let ev = digits_value(s.subrange(sc.exp_start as int, sc.exp_end as int));
    let exp = if sc.exp_neg {
        -(ev as int)
    } else {
        ev as int
    };
    let v = digits_value(all);
    if !sc.has_point && sc.exp_end == sc.exp_start {
        if neg && v <= 9_223_372_036_854_775_808 {
            Some(Number::Int((-(v as int)) as i64))
        } else if !neg && v <= 9_223_372_036_854_775_807 {
            Some(Number::Int(v as i64))
        } else {
            decimal_of(neg, v, 0, 0)
        }
    } else if ev > max_exponent() {
        None
    } else {
        decimal_of(neg, v, fdigits.len(), exp)
    }
}

proof fn lemma_digits_mono(s: Seq<char>, t: Seq<char>)
    ensures
        digits_value(s + t) >= digits_value(s),
    decreases t.len(),
{
    if t.len() > 0 {
        lemma_digits_mono(s, t.drop_last());
        assert((s + t).drop_last() =~= s + t.drop_last());
    }
}

proof fn lemma_scan_digits(s: Seq<char>, i: nat)
    requires
        i <= s.len(),
    ensures
        i <= scan_digits(s, i) <= s.len(),
        forall|j: int| i <= j < scan_digits(s, i) ==> is_digit(#[trigger] s[j]),
        scan_digits(s, i) < s.len() ==> !is_digit(s[scan_digits(s, i) as int]),
    decreases s.len() - i,
{
    if i < s.len() && is_digit(s[i as int]) {
        lemma_scan_digits(s, i + 1);
    }
}

/// Exec counterpart of [`scan_digits`].
pub fn scan_digits_exec(s: &Vec<char>, i: usize) -> (r: usize)
    requires
        i <= s.len(),
    ensures
        r == scan_digits(s@, i as nat),
        i <= r <= s.len(),
{
    proof {
        lemma_scan_digits(s@, i as nat);
    }
    let mut j = i;
    while j < s.len() && '0' <= s[j] && s[j] <= '9'
        invariant
            i <= j <= s.len(),
            scan_digits(s@, j as nat) == scan_digits(s@, i as nat),
        decreases s.len() - j,
    {
        j = j + 1;
    }
    j
}

/// The value of the digits `s[a..b]`, if it is below `10^38`.
pub fn digits_value_exec(s: &Vec<char>, a: usize, b: usize) -> (r: Option<u128>)
    requires
        a <= b <= s.len(),
        forall|j: int| a <= j < b ==> is_digit(#[trigger] s@[j]),
    ensures
        match r {
            Some(v) => v == digits_value(s@.subrange(a as int, b as int)) && v < pow10(38),
            None => digits_value(s@.subrange(a as int, b as int)) >= pow10(38),
        },
{
    proof {
        lemma_pow10_values();
    }
    let mut v: u128 = 0;
    let mut j = a;
    assert(s@.subrange(a as int, a as int) =~= Seq::<char>::empty());
    while j < b
        invariant
            a <= j <= b <= s.len(),
            forall|k: int| a <= k < b ==> is_digit(#[trigger] s@[k]),
            v == digits_value(s@.subrange(a as int, j as int)),
            v < pow10(38),
            pow10(38) == 100_000_000_000_000_000_000_000_000_000_000_000_000,
        decreases b - j,
    {
        let d = (s[j] as u32 - '0' as u32) as u128;
        assert(s@.subrange(a as int, j + 1).drop_last() =~= s@.subrange(a as int, j as int));
        if v >= 10_000_000_000_000_000_000_000_000_000_000_000_000 || v * 10 + d >= 100_000_000_000_000_000_000_000_000_000_000_000_000 {
            proof {
                assert(digits_value(s@.subrange(a as int, j + 1)) == v * 10 + d);
                lemma_digits_mono(s@.subrange(a as int, j + 1), s@.subrange(j + 1, b as int));
                assert(s@.subrange(a as int, j + 1) + s@.subrange(j + 1, b as int) =~= s@.subrange(a as int, b as int));
            }
            return None;
        }
        v = v * 10 + d;
        j = j + 1;
    }
    Some(v)
}


/// The parts of a scanned number.
pub struct NumScanExec {
    pub int_end: usize,
    pub has_point: bool,
    pub frac_start: usize,
    pub frac_end: usize,
    pub exp_neg: bool,
    pub exp_start: usize,
    pub exp_end: usize,
    pub end: usize,
}

impl NumScanExec {
    pub open spec fn view(self) -> NumScan {
        NumScan {
            int_end: self.int_end as nat,
            has_point: self.has_point,
            frac_start: self.frac_start as nat,
            frac_end: self.frac_end as nat,
            exp_neg: self.exp_neg,
            exp_start: self.exp_start as nat,
            exp_end: self.exp_end as nat,
            end: self.end as nat,
        }
    }
}

/// The facts that a scan gives about the positions it finds.
pub open spec fn scan_facts(s: Seq<char>, i: nat, sc: NumScan) -> bool {
    &&& i <= sc.int_end <= sc.frac_start <= sc.frac_end <= sc.end <= s.len()
    &&& sc.frac_end <= sc.exp_start <= sc.exp_end == sc.end
    &&& forall|j: int| i <= j < sc.int_end ==> is_digit(#[trigger] s[j])
    &&& forall|j: int| sc.frac_start <= j < sc.frac_end ==> is_digit(#[trigger] s[j])
    &&& forall|j: int| sc.exp_start <= j < sc.exp_end ==> is_digit(#[trigger] s[j])
    &&& (sc.has_point ==> sc.frac_start == sc.int_end + 1)
    &&& (!sc.has_point ==> sc.frac_start == sc.int_end)
    &&& sc.int_end < s.len() ==> !is_digit(s[sc.int_end as int])
}

/// Exec counterpart of [`scan_number`].
pub fn scan_number_exec(s: &Vec<char>, i: usize) -> (r: NumScanExec)
    requires
        i <= s.len(),
    ensures
        r.view() == scan_number(s@, i as nat),
        scan_facts(s@, i as nat, r.view()),
{
    proof {
        lemma_scan_digits(s@, i as nat);
    }
    let int_end = scan_digits_exec(s, i);
    let has_point = int_end < s.len() && s[int_end] == '.';
    let frac_start = if has_point {
        int_end + 1
    } else {
        int_end
    };
    proof {
        lemma_scan_digits(s@, frac_start as nat);
    }
    let frac_end = scan_digits_exec(s, frac_start);
    let has_e = frac_end < s.len() && (s[frac_end] == 'e' || s[frac_end] == 'E');
    let sign_at = if has_e {
        frac_end + 1
    } else {
        frac_end
    };
    let has_sign = has_e && sign_at < s.len() && (s[sign_at] == '+' || s[sign_at] == '-');
    let exp_start = if has_sign {
        sign_at + 1
    } else {
        sign_at
    };
    let (exp_end, has_exp) = if has_e {
        proof {
            lemma_scan_digits(s@, exp_start as nat);
        }
        let e = scan_digits_exec(s, exp_start);
        (e, e > exp_start)
    } else {
        (frac_end, false)
    };
    assert(has_e ==> exp_end == scan_digits(s@, exp_start as nat));
    NumScanExec {
        int_end,
        has_point,
        frac_start,
        frac_end,
        exp_neg: has_exp && has_sign && s[sign_at] == '-',
        exp_start: if has_exp {
            exp_start
        } else {
            frac_end
        },
        exp_end: if has_exp {
            exp_end
        } else {
            frac_end
        },
        end: if has_exp {
            exp_end
        } else {
            frac_end
        },
    }
}

/// Exec counterpart of [`decimal_of`].
fn decimal_of_exec(neg: bool, digits: u128, frac_len: usize, exp: i64) -> (r: Option<Number>)
    requires
        digits < pow10(38),
        -max_exponent() <= exp <= max_exponent(),
    ensures
        r == decimal_of(neg, digits as nat, frac_len as nat, exp as int),
{
    proof {
        lemma_pow10_values();
    }
    if frac_len > 1_000_000 {
        return None;
    }
    let fl = frac_len as i64;
    if exp >= fl {
        let k = exp - fl;
        if digits == 0 {
            proof {
                lemma_pow10_pos(k as nat);
                assert((exp - frac_len) as nat == k as nat);
                assert(digits * pow10(k as nat) == 0) by (nonlinear_arith)
                    requires
                        digits == 0,
                ;
            }
            return fit_number(neg, 0, 0);
        }
        if k > 38 {
            proof {
                lemma_pow10_mono(38, k as nat);
                assert(digits * pow10(k as nat) >= pow10(k as nat)) by (nonlinear_arith)
                    requires
                        digits >= 1,
                        pow10(k as nat) >= 1,
                ;
            }
            return None;
        }
        let p = pow10_u128(k as u32);
        match digits.checked_mul(p) {
            Some(d2) => {
                if d2 >= 100_000_000_000_000_000_000_000_000_000_000_000_000 {
                    None
                } else {
                    fit_number(neg, d2, 0)
                }
            },
            None => {
                proof {
                    assert(digits * p > u128::MAX);
                }
                None
            },
        }
    } else {
        fit_number(neg, digits, (fl - exp) as u32)
    }
}

/// The digits `s[a..b]` followed by `s[c..d]`.
fn concat_ranges(s: &Vec<char>, a: usize, b: usize, c: usize, d: usize) -> (r: Vec<char>)
    requires
        a <= b <= s.len(),
        c <= d <= s.len(),
    ensures
        r@ == s@.subrange(a as int, b as int) + s@.subrange(c as int, d as int),
{
    let mut r: Vec<char> = Vec::new();
    let mut j = a;
    while j < b
        invariant
            a <= j <= b <= s.len(),
            r@ == s@.subrange(a as int, j as int),
        decreases b - j,
    {
        r.push(s[j]);
        j = j + 1;
        assert(r@ =~= s@.subrange(a as int, j as int));
    }
    let mut k = c;
    while k < d
        invariant
            c <= k <= d <= s.len(),
            r@ == s@.subrange(a as int, b as int) + s@.subrange(c as int, k as int),
        decreases d - k,
    {
        r.push(s[k]);
        k = k + 1;
        assert(r@ =~= s@.subrange(a as int, b as int) + s@.subrange(c as int, k as int));
    }
    r
}

/// Exec counterpart of [`scanned_value`].
pub fn scanned_value_exec(s: &Vec<char>, start: usize, neg: bool, sc: &NumScanExec) -> (r: Option<Number>)
    requires
        scan_facts(s@, start as nat, sc.view()),
    ensures
        r == scanned_value(s@, start as nat, neg, sc.view()),
{
    proof {
        lemma_pow10_values();
    }
    let all = concat_ranges(s, start, sc.int_end, sc.frac_start, sc.frac_end);
    assert forall|j: int| 0 <= j < all.len() implies is_digit(#[trigger] all@[j]) by {
        if j < sc.int_end - start {
            assert(all@[j] == s@[start + j]);
        } else {
            assert(all@[j] == s@[sc.frac_start + j - (sc.int_end - start)]);
        }
    }
    assert(all@.subrange(0, all@.len() as int) =~= all@);
    let v = match digits_value_exec(&all, 0, all.len()) {
        Some(v) => v,
        None => {
            return None;
        },
    };
    let fl = sc.frac_end - sc.frac_start;
    if !sc.has_point && sc.exp_end == sc.exp_start {
        if neg && v <= 9_223_372_036_854_775_808 {
            if v == 9_223_372_036_854_775_808 {
                Some(Number::Int(i64::MIN))
            } else {
                Some(Number::Int(-(v as i64)))
            }
        } else if !neg && v <= 9_223_372_036_854_775_807 {
            Some(Number::Int(v as i64))
        } else {
            decimal_of_exec(neg, v, 0, 0)
        }
    } else {
        let ev = match digits_value_exec(s, sc.exp_start, sc.exp_end) {
            Some(e) => e,
            None => {
                return None;
            },
        };
        if ev > 1_000_000 {
            return None;
        }
        let exp: i64 = if sc.exp_neg {
            -(ev as i64)
        } else {
            ev as i64
        };
        decimal_of_exec(neg, v, fl, exp)
    }
}


/// The number written in a text: an optional minus sign, digits, an optional point with
/// digits and an optional exponent, and nothing else.
pub open spec fn text_number(s: Seq<char>) -> Option<Number> {
    let neg = s.len() > 0 && s[0] == '-';
    let start: nat = if neg { 1 } else { 0 };
    let sc = scan_number(s, start);
    if sc.end != s.len() || sc.int_end == start {
        None
    } else {
        scanned_value(s, start, neg, sc)
    }
}

/// The number written in a text (see [`text_number`]).
pub fn number_from_text(text: &str) -> (r: Option<Number>)
    ensures
        r == text_number(text@),
{
    let s = crate::json::chars_of(text);
    let neg = s.len() > 0 && s[0] == '-';
    let start: usize = if neg { 1 } else { 0 };
    let sc = scan_number_exec(&s, start);
    if sc.end != s.len() || sc.int_end == start {
        None
    } else {
        scanned_value_exec(&s, start, neg, &sc)
    }
}

/// The value of the scanned parts as a fraction, whatever their form.
pub open spec fn scanned_fraction(s: Seq<char>, start: nat, neg: bool, sc: NumScan) -> Option<Number> {
    let all = s.subrange(start as int, sc.int_end as int) + s.subrange(sc.frac_start as int, sc.frac_end as int);
    let ev = digits_value(s.subrange(sc.exp_start as int, sc.exp_end as int));
    let exp = if sc.exp_neg { -(ev as int) } else { ev as int };
    if ev > max_exponent() {
        None
    } else {
        decimal_of(neg, digits_value(all), (sc.frac_end - sc.frac_start) as nat, exp)
    }
}

/// The number that a text holds as a floating point literal: an optional sign, digits with
/// an optional point (with digits on at least one side of it), an optional exponent, and
/// nothing else. The value is always fractional.
pub open spec fn double_from_text(s: Seq<char>) -> Option<Number> {
    let signed = s.len() > 0 && (s[0] == '+' || s[0] == '-');
    let neg = s.len() > 0 && s[0] == '-';
    let start: nat = if signed { 1 } else { 0 };
    let sc = scan_number(s, start);
    if sc.end != s.len() || (sc.int_end == start && sc.frac_end == sc.frac_start) {
        None
    } else {
        scanned_fraction(s, start, neg, sc)
    }
}

/// Exec counterpart of [`scanned_fraction`].
fn scanned_fraction_exec(s: &Vec<char>, start: usize, neg: bool, sc: &NumScanExec) -> (r: Option<Number>)
    requires
        scan_facts(s@, start as nat, sc.view()),
    ensures
        r == scanned_fraction(s@, start as nat, neg, sc.view()),
{
    proof {
        lemma_pow10_values();
    }
    let ev = match digits_value_exec(s, sc.exp_start, sc.exp_end) {
        Some(e) => e,
        None => {
            return None;
        },
    };
    if ev > 1_000_000 {
        return None;
    }
    let exp: i64 = if sc.exp_neg {
        -(ev as i64)
    } else {
        ev as i64
    };
    let all = concat_ranges(s, start, sc.int_end, sc.frac_start, sc.frac_end);
    assert forall|j: int| 0 <= j < all.len() implies is_digit(#[trigger] all@[j]) by {
        if j < sc.int_end - start {
            assert(all@[j] == s@[start + j]);
        } else {
            assert(all@[j] == s@[sc.frac_start + j - (sc.int_end - start)]);
        }
    }
    assert(all@.subrange(0, all@.len() as int) =~= all@);
    let v = match digits_value_exec(&all, 0, all.len()) {
        Some(v) => v,
        None => {
            return None;
        },
    };
    decimal_of_exec(neg, v, sc.frac_end - sc.frac_start, exp)
}

/// The number that a text holds as a floating point literal (see [`double_from_text`]).
pub fn double_from_str(text: &str) -> (r: Option<Number>)
    ensures
        r == double_from_text(text@),
{
    let s = crate::json::chars_of(text);
    let signed = s.len() > 0 && (s[0] == '+' || s[0] == '-');
    let neg = s.len() > 0 && s[0] == '-';
    let start: usize = if signed { 1 } else { 0 };
    let sc = scan_number_exec(&s, start);
    if sc.end != s.len() || (sc.int_end == start && sc.frac_end == sc.frac_start) {
        None
    } else {
        scanned_fraction_exec(&s, start, neg, &sc)
    }
}

} // verus!

//! Text helpers: white space, trimming, integers and booleans written as text.

use vstd::prelude::*;
use crate::json::chars_of;
use crate::number::{lemma_pow10_values};
use crate::text::{digits_value, is_digit, digits_value_exec};

verus! {

/// Whether a character has the Unicode `White_Space` property.
pub open spec fn is_ws(c: char) -> bool {
    ||| '\u{09}' <= c <= '\u{0D}'
    ||| c == ' '
    ||| c == '\u{85}'
    ||| c == '\u{A0}'
    ||| c == '\u{1680}'
    ||| '\u{2000}' <= c <= '\u{200A}'
    ||| c == '\u{2028}'
    ||| c == '\u{2029}'
    ||| c == '\u{202F}'
    ||| c == '\u{205F}'
    ||| c == '\u{3000}'
}

/// Exec counterpart of [`is_ws`].
pub fn is_white_space(c: char) -> (b: bool)
    ensures
        b == is_ws(c),
{
    ('\u{09}' <= c && c <= '\u{0D}') || c == ' ' || c == '\u{85}' || c == '\u{A0}' || c == '\u{1680}' || ('\u{2000}'
        <= c && c <= '\u{200A}') || c == '\u{2028}' || c == '\u{2029}' || c == '\u{202F}' || c == '\u{205F}' || c
        == '\u{3000}'
}

/// The text without its leading white space.
pub open spec fn trim_start(s: Seq<char>) -> Seq<char>
    decreases s.len(),
{
    if s.len() > 0 && is_ws(s[0]) {
        trim_start(s.drop_first())
    } else {
        s
    }
}

/// The text without its trailing white space.
pub open spec fn trim_end(s: Seq<char>) -> Seq<char>
    decreases s.len(),
{
    if s.len() > 0 && is_ws(s.last()) {
        trim_end(s.drop_last())
    } else {
        s
    }
}

/// The text without leading and trailing white space.
pub open spec fn trim(s: Seq<char>) -> Seq<char> {
    trim_end(trim_start(s))
}

/// The index of the first character that is not white space, from `i` on.
fn skip_ws(s: &Vec<char>, i: usize) -> (r: usize)
    requires
        i <= s.len(),
    ensures
        i <= r <= s.len(),
        trim_start(s@.subrange(i as int, s@.len() as int)) == s@.subrange(r as int, s@.len() as int),
{
    let mut j = i;
    while j < s.len() && is_white_space(s[j])
        invariant
            i <= j <= s.len(),
            trim_start(s@.subrange(i as int, s@.len() as int)) == trim_start(s@.subrange(j as int, s@.len() as int)),
        decreases s.len() - j,
    {
        assert(s@.subrange(j as int, s@.len() as int).drop_first() =~= s@.subrange(j + 1, s@.len() as int));
        j = j + 1;
    }
    j
}

/// The end of the text once trailing white space is dropped from `s[a..b]`.
fn skip_ws_back(s: &Vec<char>, a: usize, b: usize) -> (r: usize)
    requires
        a <= b <= s.len(),
    ensures
        a <= r <= b,
        trim_end(s@.subrange(a as int, b as int)) == s@.subrange(a as int, r as int),
{
    let mut j = b;
    while j > a && is_white_space(s[j - 1])
        invariant
            a <= j <= b <= s.len(),
            trim_end(s@.subrange(a as int, b as int)) == trim_end(s@.subrange(a as int, j as int)),
        decreases j,
    {
        assert(s@.subrange(a as int, j as int).drop_last() =~= s@.subrange(a as int, j - 1));
        j = j - 1;
    }
    j
}

/// The characters `s[a..b]`.
pub fn sub_chars(s: &Vec<char>, a: usize, b: usize) -> (r: Vec<char>)
    requires
        a <= b <= s.len(),
    ensures
        r@ == s@.subrange(a as int, b as int),
{
    let mut r: Vec<char> = Vec::new();
    let mut j = a;
    while j < b
        invariant
            a <= j <= b <= s.len(),
            r@ == s@.subrange(a as int, j as int),
        decreases b - j,
    {
        r.push(s[j]);
        j = j + 1;
        assert(r@ =~= s@.subrange(a as int, j as int));
    }
    r
}

/// The characters of a text without leading and trailing white space.
pub fn trim_chars(s: &Vec<char>) -> (r: Vec<char>)
    ensures
        r@ == trim(s@),
{
    let a = skip_ws(s, 0);
    assert(s@.subrange(0, s@.len() as int) =~= s@);
    let b = skip_ws_back(s, a, s.len());
    sub_chars(s, a, b)
}

/// Whether every character is a decimal digit.
pub open spec fn all_digits(d: Seq<char>) -> bool {
    forall|j: int| 0 <= j < d.len() ==> is_digit(#[trigger] d[j])
}

/// The integer written in a text: an optional sign and decimal digits, nothing else.
pub open spec fn int_text_value(s: Seq<char>) -> Option<int> {
    let signed = s.len() > 0 && (s[0] == '+' || s[0] == '-');
    let start: int = if signed { 1 } else { 0 };
    let digits = s.subrange(start, s.len() as int);
    if digits.len() == 0 || !all_digits(digits) {
        None
    } else {
        let v = digits_value(digits) as int;
        Some(if s[0] == '-' { -v } else { v })
    }
}

/// The integer written in a text, if it lies in `lo..=hi`.
pub open spec fn int_in_range(s: Seq<char>, lo: int, hi: int) -> Option<int> {
    match int_text_value(s) {
        Some(v) => if lo <= v <= hi {
            Some(v)
        } else {
            None
        },
        None => None,
    }
}

/// Parses an integer written in a text, if it lies in `lo..=hi`.
pub fn parse_int_in_range(s: &Vec<char>, lo: i64, hi: i64) -> (r: Option<i64>)
    ensures
        match r {
            Some(v) => int_in_range(s@, lo as int, hi as int) == Some(v as int),
            None => int_in_range(s@, lo as int, hi as int) is None,
        },
{
    proof {
        lemma_pow10_values();
    }
    let signed = s.len() > 0 && (s[0] == '+' || s[0] == '-');
    let start: usize = if signed { 1 } else { 0 };
    if start == s.len() {
        assert(s@.subrange(start as int, s@.len() as int).len() == 0);
        return None;
    }
    let ghost digits = s@.subrange(start as int, s@.len() as int);
    let mut j = start;
    while j < s.len()
        invariant
            start <= j <= s.len(),
            digits == s@.subrange(start as int, s@.len() as int),
            start as int == (if s@.len() > 0 && (s@[0] == '+' || s@[0] == '-') { 1int } else { 0int }),
            forall|k: int| start <= k < j ==> is_digit(#[trigger] s@[k]),
        decreases s.len() - j,
    {
        if !('0' <= s[j] && s[j] <= '9') {
            assert(digits[j - start] == s@[j as int]);
            assert(!is_digit(digits[j - start]));
            assert(!all_digits(digits));
            assert((if s@.len() > 0 && (s@[0] == '+' || s@[0] == '-') { 1int } else { 0int }) == start as int);
            return None;
        }
        j = j + 1;
    }
    assert forall|k: int| 0 <= k < digits.len() implies is_digit(#[trigger] digits[k]) by {
        assert(digits[k] == s@[start + k]);
    }
    match digits_value_exec(s, start, s.len()) {
        Some(v) => {
            let neg = s[0] == '-';
            let val: i128 = if neg {
                -(v as i128)
            } else {
                v as i128
            };
            if lo as i128 <= val && val <= hi as i128 {
                Some(val as i64)
            } else {
                None
            }
        },
        None => None,
    }
}

/// The code of a character with ASCII capitals made small.
pub open spec fn lower_code(c: char) -> u32 {
    if 'A' <= c <= 'Z' {
        (c as u32 + 32) as u32
    } else {
        c as u32
    }
}

/// Whether a text equals a word made of small letters and digits, ignoring ASCII case.
pub open spec fn equals_ignoring_case(s: Seq<char>, word: Seq<char>) -> bool {
    s.len() == word.len() && forall|j: int| 0 <= j < s.len() ==> lower_code(#[trigger] s[j]) == word[j] as u32
}

/// Exec counterpart of [`equals_ignoring_case`].
fn eq_ignore_case(s: &Vec<char>, word: &str) -> (b: bool)
    ensures
        b == equals_ignoring_case(s@, word@),
{
    let w = chars_of(word);
    if s.len() != w.len() {
        return false;
    }
    let mut j: usize = 0;
    while j < s.len()
        invariant
            s.len() == w.len(),
            w@ == word@,
            j <= s.len(),
            forall|k: int| 0 <= k < j ==> lower_code(#[trigger] s@[k]) == w@[k] as u32,
        decreases s.len() - j,
    {
        let c = s[j];
        let code: u32 = if 'A' <= c && c <= 'Z' {
            c as u32 + 32
        } else {
            c as u32
        };
        if code != w[j] as u32 {
            return false;
        }
        j = j + 1;
    }
    true
}

/// The boolean that a text spells (after trimming, ignoring ASCII case):
/// `true`, `t`, `yes`, `y`, `on`, `1` or `false`, `f`, `no`, `n`, `off`, `0`.
pub open spec fn boolean_text(s: Seq<char>) -> Option<bool> {
    let t = trim(s);
    if equals_ignoring_case(t, "true"@) || equals_ignoring_case(t, "t"@) || equals_ignoring_case(t, "yes"@)
        || equals_ignoring_case(t, "y"@) || equals_ignoring_case(t, "on"@) || equals_ignoring_case(t, "1"@) {
        Some(true)
    } else if equals_ignoring_case(t, "false"@) || equals_ignoring_case(t, "f"@) || equals_ignoring_case(t, "no"@)
        || equals_ignoring_case(t, "n"@) || equals_ignoring_case(t, "off"@) || equals_ignoring_case(t, "0"@) {
        Some(false)
    } else {
        None
    }
}

/// The boolean that a text spells (see [`boolean_text`]).
pub fn parse_boolean(s: &str) -> (r: Option<bool>)
    ensures
        r == boolean_text(s@),
{
    let cs = chars_of(s);
    let t = trim_chars(&cs);
    if eq_ignore_case(&t, "true") || eq_ignore_case(&t, "t") || eq_ignore_case(&t, "yes") || eq_ignore_case(&t, "y")
        || eq_ignore_case(&t, "on") || eq_ignore_case(&t, "1") {
        Some(true)
    } else if eq_ignore_case(&t, "false") || eq_ignore_case(&t, "f") || eq_ignore_case(&t, "no") || eq_ignore_case(
        &t,
        "n",
    ) || eq_ignore_case(&t, "off") || eq_ignore_case(&t, "0") {
        Some(false)
    } else {
        None
    }
}

/// The text without one leading `+`.
pub open spec fn strip_plus(s: Seq<char>) -> Seq<char> {
    if s.len() > 0 && s[0] == '+' {
        s.drop_first()
    } else {
        s
    }
}

/// Exec counterpart of [`strip_plus`].
pub fn strip_plus_chars(s: &Vec<char>) -> (r: Vec<char>)
    ensures
        r@ == strip_plus(s@),
{
    if s.len() > 0 && s[0] == '+' {
        let r = sub_chars(s, 1, s.len());
        assert(r@ =~= s@.drop_first());
        r
    } else {
        sub_chars(s, 0, s.len())
    }
}

} // verus!

//! Quoted strings: what the printer writes, the parser reads back.

use vstd::prelude::*;
use crate::grammar::{char_of, code_of, escape_at, hex_run, string_from, string_lit, unicode_code, unicode_escape};
use crate::printer::{escape_char, escaped, hex_digit, quoted};

verus! {

/// A hexadecimal digit written by the printer reads as its value.
proof fn lemma_hex_digit_value(n: nat)
    requires
        n < 16,
    ensures
        crate::grammar::hex_digit(hex_digit(n)) == Some(n),
{
}

/// The escapes of the first characters of a text begin the escapes of the text.
proof fn lemma_escaped_prefix(s: Seq<char>, k: nat)
    requires
        k <= s.len(),
    ensures
        escaped(s.take(k as int)).is_prefix_of(escaped(s)),
    decreases s.len() - k,
{
    if k == s.len() {
        assert(s.take(k as int) =~= s);
        assert(escaped(s).subrange(0, escaped(s).len() as int) =~= escaped(s));
    } else {
        lemma_escaped_prefix(s, k + 1);
        assert(s.take(k as int + 1).drop_last() =~= s.take(k as int));
        let a = escaped(s.take(k as int));
        let b = escaped(s.take(k as int + 1));
        assert(b == a + escape_char(s.take(k as int + 1).last()));
        assert(escaped(s).subrange(0, a.len() as int) =~= b.subrange(0, a.len() as int));
        assert(b.subrange(0, a.len() as int) =~= a);
    }
}

/// Reading the escape of one character gives that character.
#[verifier::spinoff_prover]
proof fn lemma_step(t: Seq<char>, j: nat, c: char, acc: Seq<char>)
    requires
        j + escape_char(c).len() < t.len(),
        forall|i: int| 0 <= i < escape_char(c).len() ==> t[j + i] == #[trigger] escape_char(c)[i],
        c != '\0',
    ensures
        string_from(t, j, acc) == string_from(t, j + escape_char(c).len(), acc.push(c)),
{
    let ec = escape_char(c);
    if c == '\u{08}' || c == '\u{0C}' || c == '\n' || c == '\r' || c == '\t' || c == '"' || c == '\\' {
        assert(t[j as int] == ec[0] && t[j + 1 as int] == ec[1]);
        assert(escape_at(t, j) == Some((c, j + 2)));
    } else if (c as u32) < 0x20 {
        lemma_unicode_step(t, j, c);
    } else {
        assert(t[j as int] == ec[0]);
    }
}

/// Reading a `\u00XY` escape gives the character of that code.
#[verifier::spinoff_prover]
proof fn lemma_unicode_step(t: Seq<char>, j: nat, c: char)
    requires
        (c as u32) < 0x20,
        !(c == '\u{08}' || c == '\u{0C}' || c == '\n' || c == '\r' || c == '\t' || c == '"' || c == '\\'),
        c != '\0',
        j + escape_char(c).len() < t.len(),
        forall|i: int| 0 <= i < escape_char(c).len() ==> t[j + i] == #[trigger] escape_char(c)[i],
    ensures
        escape_at(t, j) == Some((c, j + 6)),
        escape_char(c).len() == 6,
{
    let ec = escape_char(c);
    let hi = (c as u32 / 16) as nat;
    let lo = (c as u32 % 16) as nat;
    lemma_hex_digit_value(hi);
    lemma_hex_digit_value(lo);
    assert(t[j as int] == ec[0] && t[j + 1 as int] == ec[1] && t[j + 2 as int] == ec[2] && t[j + 3 as int] == ec[3]);
    assert(t[j + 4 as int] == ec[4] && t[j + 5 as int] == ec[5]);
    assert(t[j + 1 as int] == 'u' && t[j + 2 as int] == '0' && t[j + 3 as int] == '0');
    assert(t[j + 4 as int] == hex_digit(hi) && t[j + 5 as int] == hex_digit(lo));
    assert(hex_run(t, j + 2, 4) == Some(code_of(c))) by {
        reveal_with_fuel(hex_run, 5);
    }
    assert(unicode_escape(t, j + 2) == Some((code_of(c), j + 6)));
    assert(unicode_code(t, j) == Some((code_of(c), j + 6)));
    assert(char_of(code_of(c)) == c);
}

/// Reading the quoted text from the escape of the `k`-th character on gives the text.
proof fn lemma_read_back(s: Seq<char>, rest: Seq<char>, k: nat)
    requires
        k <= s.len(),
        !s.contains('\0'),
    ensures
        string_from(quoted(s) + rest, 1 + escaped(s.take(k as int)).len(), s.take(k as int)) == Some(
            (s, quoted(s).len()),
        ),
    decreases s.len() - k,
{
    let t = quoted(s) + rest;
    let e = escaped(s);
    assert(forall|m: int| 0 <= m < e.len() ==> t[1 + m] == #[trigger] e[m]);
    assert(t[1 + e.len() as int] == '"');
    if k == s.len() {
        assert(s.take(k as int) =~= s);
    } else {
        lemma_escaped_prefix(s, k + 1);
        let c = s[k as int];
        assert(s.take(k as int + 1).drop_last() =~= s.take(k as int));
        assert(s.take(k as int + 1).last() == c);
        let a = escaped(s.take(k as int));
        let ec = escape_char(c);
        assert(escaped(s.take(k as int + 1)) == a + ec);
        let jn: nat = 1 + a.len();
        assert forall|i: int| 0 <= i < ec.len() implies t[jn + i] == #[trigger] ec[i] by {
            assert(e[a.len() as int + i] == (a + ec)[a.len() as int + i]);
        }
        assert(s.take(k as int).push(c) =~= s.take(k as int + 1));
        assert(c != '\0') by {
            assert(s[k as int] == c);
        }
        lemma_step(t, jn, c, s.take(k as int));
        lemma_read_back(s, rest, k + 1);
    }
}

/// A text that the printer quotes reads back as the same text, ending after the closing
/// quote, whatever follows; a text that holds the NUL character is the exception, since
/// its escape `\u0000` is refused when read.
pub proof fn law_quoted_text_reads_back(s: Seq<char>, rest: Seq<char>)
    requires
        !s.contains('\0'),
    ensures
        string_lit(quoted(s) + rest, 0) == Some((s, quoted(s).len())),
{
    assert(s.take(0) =~= Seq::<char>::empty());
    assert(escaped(Seq::<char>::empty()) =~= Seq::<char>::empty());
    lemma_read_back(s, rest, 0);
    assert((quoted(s) + rest)[0] == '"');
}

} // verus!

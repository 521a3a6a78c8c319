//! Regular expressions of `like_regex`, compiled by the `regex` crate.

use vstd::prelude::*;

verus! {

#[verifier::external_type_specification]
#[verifier::external_body]
pub struct ExRegexCompiled(::regex::Regex);

#[verifier::external_type_specification]
#[verifier::external_body]
pub struct ExRegexError(::regex::Error);

/// Whether a character means something in a regex (`regex_syntax::is_meta_character`).
pub open spec fn regex_meta(c: char) -> bool {
    c == '\\' || c == '.' || c == '+' || c == '*' || c == '?' || c == '(' || c == ')' || c == '|' || c == '['
        || c == ']' || c == '{' || c == '}' || c == '^' || c == '$' || c == '#' || c == '&' || c == '-' || c == '~'
}

/// What `::regex::escape` returns for a pattern: each meta character preceded by `\`, so
/// that the result matches the pattern literally.
pub open spec fn regex_escape(pattern: Seq<char>) -> Seq<char>
    decreases pattern.len(),
{
    if pattern.len() == 0 {
        Seq::empty()
    } else {
        let c = pattern.last();
        regex_escape(pattern.drop_last()) + (if regex_meta(c) {
            seq!['\\', c]
        } else {
            seq![c]
        })
    }
}

/// Whether `::regex::RegexBuilder` accepts a pattern with the given options
/// (case insensitive, multi line, dot matches new line).
pub uninterp spec fn regex_builds(pattern: Seq<char>, case_insensitive: bool, multi_line: bool, dot_all: bool) -> bool;

/// Whether the regex built from a pattern with the given options matches
/// somewhere in a text (`::regex::Regex::is_match`).
pub uninterp spec fn regex_matches(
    pattern: Seq<char>,
    case_insensitive: bool,
    multi_line: bool,
    dot_all: bool,
    text: Seq<char>,
) -> bool;

/// Calls `::regex::escape`, which puts `\` before each meta character ([`regex_escape`]).
#[verifier::external_body]
fn escape(pattern: &str) -> (r: String)
    ensures
        r@ == regex_escape(pattern@),
{
    ::regex::escape(pattern)
}

/// A regex compiled by the `regex` crate, with the pattern and options it was built from.
#[derive(Debug)]
pub struct CompiledRegex {
    regex: ::regex::Regex,
    pattern: String,
    case_insensitive: bool,
    multi_line: bool,
    dot_all: bool,
}

/// Builds a regex with `::regex::RegexBuilder::new(pattern)`, the three options set by
/// `case_insensitive`, `multi_line` and `dot_matches_new_line`, and `build`.
/// Whether it succeeds is named by [`regex_builds`]; the compiled regex is returned with
/// the pattern and options it was built from.
#[verifier::external_body]
fn build(pattern: &str, case_insensitive: bool, multi_line: bool, dot_all: bool) -> (r: Result<
    CompiledRegex,
    ::regex::Error,
>)
    ensures
        r is Ok <==> regex_builds(pattern@, case_insensitive, multi_line, dot_all),
        r matches Ok(c) ==> c.pattern@ == pattern@ && c.case_insensitive == case_insensitive
            && c.multi_line == multi_line && c.dot_all == dot_all,
{
    let mut b = ::regex::RegexBuilder::new(pattern);
    b.case_insensitive(case_insensitive).multi_line(multi_line).dot_matches_new_line(dot_all);
    match b.build() {
        Ok(regex) => Ok(CompiledRegex { regex, pattern: pattern.to_string(), case_insensitive, multi_line, dot_all }),
        Err(e) => Err(e),
    }
}

/// The text of a `::regex::Error` (its `Display`). Nothing is stated of the text.
#[verifier::external_body]
pub(crate) fn regex_error_text(e: &::regex::Error) -> (r: String) {
    e.to_string()
}

/// A compiled regular expression with its flags.
#[derive(Debug)]
pub struct LikeRegex {
    compiled: CompiledRegex,
    source: String,
    pattern: String,
    flags: Option<String>,
    case_insensitive: bool,
    multi_line: bool,
    dot_all: bool,
}

/// Whether a flag string holds a character.
pub open spec fn has_flag(flags: Option<Seq<char>>, c: char) -> bool {
    match flags {
        Some(f) => f.contains(c),
        None => false,
    }
}

/// The pattern given to the regex engine: escaped under the `q` flag.
pub open spec fn effective_pattern(pattern: Seq<char>, flags: Option<Seq<char>>) -> Seq<char> {
    if has_flag(flags, 'q') {
        regex_escape(pattern)
    } else {
        pattern
    }
}

pub open spec fn opt_view(o: Option<String>) -> Option<Seq<char>> {
    match o {
        Some(s) => Some(s@),
        None => None,
    }
}

/// Whether a string holds a character.
fn contains_char(s: &str, c: char) -> (b: bool)
    ensures
        b == s@.contains(c),
{
    let n = s.unicode_len();
    let mut i: usize = 0;
    while i < n
        invariant
            n == s@.len(),
            i <= n,
            forall|j: int| 0 <= j < i ==> s@[j] != c,
        decreases n - i,
    {
        if s.get_char(i) == c {
            return true;
        }
        i = i + 1;
    }
    false
}

/// Calls `::regex::Regex::is_match` on a compiled regex; the result is named by
/// [`regex_matches`] over the pattern and options the regex was built from.
#[verifier::external_body]
fn matches(compiled: &CompiledRegex, text: &str) -> (b: bool)
    ensures
        b == regex_matches(
            compiled.pattern@,
            compiled.case_insensitive,
            compiled.multi_line,
            compiled.dot_all,
            text@,
        ),
{
    compiled.regex.is_match(text)
}

impl LikeRegex {
    #[verifier::type_invariant]
    spec fn inv(self) -> bool {
        &&& self.compiled.pattern@ == self.pattern@
        &&& self.compiled.case_insensitive == self.case_insensitive
        &&& self.compiled.multi_line == self.multi_line
        &&& self.compiled.dot_all == self.dot_all
        &&& self.case_insensitive == has_flag(opt_view(self.flags), 'i')
        &&& self.multi_line == has_flag(opt_view(self.flags), 'm')
        &&& self.dot_all == has_flag(opt_view(self.flags), 's')
    }

    /// The pattern given to the regex engine.
    pub closed spec fn spec_pattern(&self) -> Seq<char> {
        self.pattern@
    }

    /// The pattern and options (case insensitive, multi line, dot matches new line) that
    /// the stored regex was compiled from.
    pub closed spec fn spec_compiled(&self) -> (Seq<char>, bool, bool, bool) {
        (self.compiled.pattern@, self.compiled.case_insensitive, self.compiled.multi_line, self.compiled.dot_all)
    }

    /// The pattern as written.
    pub closed spec fn spec_source(&self) -> Seq<char> {
        self.source@
    }

    /// The flags the regex was written with.
    pub closed spec fn spec_flags(&self) -> Option<Seq<char>> {
        opt_view(self.flags)
    }

    /// Whether the text matches the regex.
    pub open spec fn spec_matches(&self, text: Seq<char>) -> bool {
        regex_matches(
            self.spec_pattern(),
            has_flag(self.spec_flags(), 'i'),
            has_flag(self.spec_flags(), 'm'),
            has_flag(self.spec_flags(), 's'),
            text,
        )
    }

    /// Compiles a pattern with flags: `q` quotes the pattern, `i` ignores case,
    /// `m` is multi line mode and `s` lets `.` match new lines.
    pub fn with_flags(pattern: &str, flags: Option<String>) -> (r: Result<LikeRegex, ::regex::Error>)
        ensures
            r is Ok <==> regex_builds(
                effective_pattern(pattern@, opt_view(flags)),
                has_flag(opt_view(flags), 'i'),
                has_flag(opt_view(flags), 'm'),
                has_flag(opt_view(flags), 's'),
            ),
            r matches Ok(re) ==> re.spec_pattern() == effective_pattern(pattern@, opt_view(flags))
                && re.spec_flags() == opt_view(flags) && re.spec_source() == pattern@
                && re.spec_compiled() == (
                effective_pattern(pattern@, opt_view(flags)),
                has_flag(opt_view(flags), 'i'),
                has_flag(opt_view(flags), 'm'),
                has_flag(opt_view(flags), 's'),
            ),
    {
        let (q, i, m, s) = match &flags {
            Some(f) => (
                contains_char(f.as_str(), 'q'),
                contains_char(f.as_str(), 'i'),
                contains_char(f.as_str(), 'm'),
                contains_char(f.as_str(), 's'),
            ),
            None => (false, false, false, false),
        };
        let p = if q {
            escape(pattern)
        } else {
            String::from_str(pattern)
        };
        let compiled = build(p.as_str(), i, m, s)?;
        Ok(
            LikeRegex {
                compiled,
                source: String::from_str(pattern),
                pattern: p,
                flags,
                case_insensitive: i,
                multi_line: m,
                dot_all: s,
            },
        )
    }

    /// The pattern given to the regex engine.
    pub fn pattern(&self) -> (r: &str)
        ensures
            r@ == self.spec_pattern(),
    {
        self.pattern.as_str()
    }

    /// The pattern as written.
    pub fn source(&self) -> (r: &str)
        ensures
            r@ == self.spec_source(),
    {
        self.source.as_str()
    }

    /// The flags.
    pub fn flags(&self) -> (r: Option<&str>)
        ensures
            r is Some <==> self.spec_flags() is Some,
            r matches Some(f) ==> self.spec_flags() == Some(f@),
    {
        match &self.flags {
            Some(f) => Some(f.as_str()),
            None => None,
        }
    }

    /// Whether the text matches the regex.
    pub fn is_match(&self, text: &str) -> (b: bool)
        ensures
            b == self.spec_matches(text@),
    {
        proof {
            use_type_invariant(self);
        }
        matches(&self.compiled, text)
    }
}

} // verus!

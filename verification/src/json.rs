//! JSON values.

use vstd::prelude::*;
use crate::number::Number;

verus! {

/// A JSON value.
#[derive(Debug, PartialEq)]
pub enum JsonValue {
    Null,
    Bool(bool),
    Number(Number),
    String(String),
    Array(Vec<JsonValue>),
    Object(Vec<(String, JsonValue)>),
}

/// The mathematical content of a JSON value.
#[verifier::ext_equal]
pub enum Json {
    Null,
    Bool(bool),
    Number(Number),
    String(Seq<char>),
    Array(Seq<Json>),
    Object(Seq<(Seq<char>, Json)>),
}

pub open spec fn json_view(v: JsonValue) -> Json
    decreases v,
{
    match v {
        JsonValue::Null => Json::Null,
        JsonValue::Bool(b) => Json::Bool(b),
        JsonValue::Number(n) => Json::Number(n),
        JsonValue::String(s) => Json::String(s@),
        JsonValue::Array(a) => Json::Array(
            Seq::new(a@.len(), |i: int| if 0 <= i < a@.len() { json_view(a@[i]) } else { Json::Null }),
        ),
        JsonValue::Object(o) => Json::Object(
            Seq::new(o@.len(), |i: int| if 0 <= i < o@.len() { (o@[i].0@, json_view(o@[i].1)) } else { (Seq::empty(), Json::Null) }),
        ),
    }
}


/// The elements of an array view are the views of its elements.
pub proof fn lemma_array_view(a: Vec<JsonValue>)
    ensures
        json_view(JsonValue::Array(a)) is Array,
        json_view(JsonValue::Array(a))->Array_0.len() == a@.len(),
        forall|i: int| 0 <= i < a@.len() ==> #[trigger] json_view(JsonValue::Array(a))->Array_0[i] == json_view(a@[i]),
{
}

/// The members of an object view are the keys and the views of the values.
pub proof fn lemma_object_view(o: Vec<(String, JsonValue)>)
    ensures
        json_view(JsonValue::Object(o)) is Object,
        json_view(JsonValue::Object(o))->Object_0.len() == o@.len(),
        forall|i: int| 0 <= i < o@.len() ==> #[trigger] json_view(JsonValue::Object(o))->Object_0[i] == (o@[i].0@, json_view(o@[i].1)),
{
}

/// The value of the first member with the given key.
pub open spec fn object_lookup(entries: Seq<(Seq<char>, Json)>, key: Seq<char>) -> Option<Json>
    decreases entries.len(),
{
    if entries.len() == 0 {
        None
    } else if entries[0].0 == key {
        Some(entries[0].1)
    } else {
        object_lookup(entries.drop_first(), key)
    }
}

/// Whether the members of an object have different keys.
pub open spec fn keys_distinct(entries: Seq<(Seq<char>, Json)>) -> bool {
    forall|i: int, j: int| 0 <= i < j < entries.len() ==> #[trigger] entries[i].0 != #[trigger] entries[j].0
}

/// Whether every object in a JSON value, at any depth, has members with different keys, as
/// the objects of a JSON text read into maps have.
pub open spec fn json_wf(j: Json) -> bool
    decreases j,
{
    match j {
        Json::Array(a) => forall|i: int| 0 <= i < a.len() ==> json_wf(#[trigger] a[i]),
        Json::Object(o) => keys_distinct(o) && forall|i: int| 0 <= i < o.len() ==> json_wf(#[trigger] o[i].1),
        _ => true,
    }
}

/// Among members with different keys, looking a key up finds the member that has it,
/// wherever it stands: the order of the members does not matter to a lookup.
pub proof fn law_lookup_distinct(entries: Seq<(Seq<char>, Json)>, k: int)
    requires
        keys_distinct(entries),
        0 <= k < entries.len(),
    ensures
        object_lookup(entries, entries[k].0) == Some(entries[k].1),
    decreases entries.len(),
{
    if k > 0 {
        assert(entries[0].0 != entries[k].0);
        let rest = entries.drop_first();
        assert forall|i: int, j: int| 0 <= i < j < rest.len() implies #[trigger] rest[i].0 != #[trigger] rest[j].0 by {
            assert(rest[i] == entries[i + 1]);
            assert(rest[j] == entries[j + 1]);
        }
        law_lookup_distinct(rest, k - 1);
        assert(rest[k - 1] == entries[k]);
    }
}

/// A character sequence as a `Vec`.
pub fn chars_of(s: &str) -> (r: Vec<char>)
    ensures
        r@ == s@,
{
    let n = s.unicode_len();
    let mut r: Vec<char> = Vec::new();
    let mut i: usize = 0;
    while i < n
        invariant
            n == s@.len(),
            i <= n,
            r@ == s@.subrange(0, i as int),
        decreases n - i,
    {
        r.push(s.get_char(i));
        i = i + 1;
        assert(r@ =~= s@.subrange(0, i as int));
    }
    assert(s@.subrange(0, n as int) =~= s@);
    r
}

/// Appends a character to a string.
#[verifier::external_body]
pub fn push_char(s: &mut String, c: char)
    ensures
        final(s)@ == old(s)@.push(c),
{
    s.push(c)
}

/// A string made of the given characters.
pub fn string_of(cs: &Vec<char>) -> (r: String)
    ensures
        r@ == cs@,
{
    let mut r = String::new();
    let mut i: usize = 0;
    while i < cs.len()
        invariant
            i <= cs.len(),
            r@ == cs@.subrange(0, i as int),
        decreases cs.len() - i,
    {
        push_char(&mut r, cs[i]);
        i = i + 1;
        assert(r@ =~= cs@.subrange(0, i as int));
    }
    assert(cs@.subrange(0, cs.len() as int) =~= cs@);
    r
}

/// Lexicographic order of character sequences by code point.
pub open spec fn chars_less(a: Seq<char>, b: Seq<char>) -> bool
    decreases a.len(),
{
    if a.len() == 0 || b.len() == 0 {
        a.len() < b.len()
    } else if a[0] != b[0] {
        (a[0] as u32) < (b[0] as u32)
    } else {
        chars_less(a.drop_first(), b.drop_first())
    }
}

/// Exec counterpart of [`chars_less`].
pub fn string_less(a: &String, b: &String) -> (r: bool)
    ensures
        r == chars_less(a@, b@),
{
    let x = chars_of(a.as_str());
    let y = chars_of(b.as_str());
    let mut i: usize = 0;
    assert(x@.skip(0) =~= x@);
    assert(y@.skip(0) =~= y@);
    while i < x.len() && i < y.len()
        invariant
            i <= x.len(),
            i <= y.len(),
            x@ == a@,
            y@ == b@,
            chars_less(a@, b@) == chars_less(x@.skip(i as int), y@.skip(i as int)),
        decreases x.len() - i,
    {
        assert(x@.skip(i as int).drop_first() =~= x@.skip(i + 1));
        assert(y@.skip(i as int).drop_first() =~= y@.skip(i + 1));
        if x[i] != y[i] {
            return (x[i] as u32) < (y[i] as u32);
        }
        i = i + 1;
    }
    x.len() - i < y.len() - i
}

/// Whether `p` is a prefix of `s`.
pub open spec fn is_prefix(p: Seq<char>, s: Seq<char>) -> bool {
    p.len() <= s.len() && s.subrange(0, p.len() as int) == p
}

/// Exec counterpart of [`is_prefix`].
pub fn starts_with(s: &String, p: &String) -> (r: bool)
    ensures
        r == is_prefix(p@, s@),
{
    let x = chars_of(s.as_str());
    let y = chars_of(p.as_str());
    if y.len() > x.len() {
        return false;
    }
    let mut i: usize = 0;
    while i < y.len()
        invariant
            y.len() <= x.len(),
            x@ == s@,
            y@ == p@,
            i <= y.len(),
            forall|j: int| 0 <= j < i ==> x@[j] == y@[j],
        decreases y.len() - i,
    {
        if x[i] != y[i] {
            assert(s@.subrange(0, p@.len() as int)[i as int] != p@[i as int]);
            return false;
        }
        i = i + 1;
    }
    assert(s@.subrange(0, p@.len() as int) =~= p@);
    true
}

impl JsonValue {
    /// A copy of the value.
    pub fn copy(&self) -> (r: JsonValue)
        ensures
            json_view(r) == json_view(*self),
        decreases self,
    {
        match self {
            JsonValue::Null => JsonValue::Null,
            JsonValue::Bool(b) => JsonValue::Bool(*b),
            JsonValue::Number(n) => JsonValue::Number(*n),
            JsonValue::String(s) => JsonValue::String(s.clone()),
            JsonValue::Array(a) => {
                let mut out: Vec<JsonValue> = Vec::new();
                let mut i: usize = 0;
                while i < a.len()
                    invariant
                        *self == JsonValue::Array(*a),
                        i <= a.len(),
                        out@.len() == i,
                        forall|j: int| 0 <= j < i ==> json_view(#[trigger] out@[j]) == json_view(a@[j]),
                    decreases a.len() - i,
                {
                    proof {
                        vstd::std_specs::vec::axiom_vec_index_decreases(*a, i as int);
                        assert(*self == JsonValue::Array(*a));
                        assert(decreases_to!(*self => (*self)->Array_0));
                    }
                    let c = a[i].copy();
                    out.push(c);
                    i = i + 1;
                }
                let r = JsonValue::Array(out);
                assert(json_view(r) == json_view(*self)) by {
                    lemma_array_view(out);
                    lemma_array_view(*a);
                    assert(json_view(r)->Array_0 =~= json_view(*self)->Array_0);
                }
                r
            },
            JsonValue::Object(o) => {
                let mut out: Vec<(String, JsonValue)> = Vec::new();
                let mut i: usize = 0;
                while i < o.len()
                    invariant
                        *self == JsonValue::Object(*o),
                        i <= o.len(),
                        out@.len() == i,
                        forall|j: int| 0 <= j < i ==> (#[trigger] out@[j]).0@ == o@[j].0@ && json_view(out@[j].1) == json_view(o@[j].1),
                    decreases o.len() - i,
                {
                    let k = o[i].0.clone();
                    proof {
                        vstd::std_specs::vec::axiom_vec_index_decreases(*o, i as int);
                        assert(*self == JsonValue::Object(*o));
                        assert(decreases_to!(*self => (*self)->Object_0));
                        assert(decreases_to!(o[i as int] => o[i as int].1));
                    }
                    let c = o[i].1.copy();
                    out.push((k, c));
                    i = i + 1;
                }
                let r = JsonValue::Object(out);
                assert(json_view(r) == json_view(*self)) by {
                    lemma_object_view(out);
                    lemma_object_view(*o);
                    assert(json_view(r)->Object_0 =~= json_view(*self)->Object_0);
                }
                r
            },
        }
    }
}

/// The members of an object.
pub open spec fn entries_view(entries: Vec<(String, JsonValue)>) -> Seq<(Seq<char>, Json)> {
    json_view(JsonValue::Object(entries))->Object_0
}

/// The value of the first member with the given key.
pub fn object_get<'a>(entries: &'a Vec<(String, JsonValue)>, key: &String) -> (r: Option<&'a JsonValue>)
    ensures
        match r {
            Some(x) => object_lookup(entries_view(*entries), key@) == Some(json_view(*x)),
            None => object_lookup(entries_view(*entries), key@) is None,
        },
{
    let ghost es = entries_view(*entries);
    let mut i: usize = 0;
    proof {
        lemma_object_view(*entries);
    }
    assert(es.skip(0) =~= es);
    while i < entries.len()
        invariant
            i <= entries.len(),
            es == entries_view(*entries),
            es.len() == entries.len(),
            forall|j: int| 0 <= j < es.len() ==> #[trigger] es[j] == (entries@[j].0@, json_view(entries@[j].1)),
            object_lookup(es, key@) == object_lookup(es.skip(i as int), key@),
        decreases entries.len() - i,
    {
        assert(es.skip(i as int).drop_first() =~= es.skip(i + 1));
        assert(es[i as int] == (entries@[i as int].0@, json_view(entries@[i as int].1)));
        assert(es.skip(i as int)[0] == es[i as int]);
        if entries[i].0 == *key {
            assert(es.skip(i as int).len() > 0);
            assert(object_lookup(es.skip(i as int), key@) == Some(json_view(entries@[i as int].1)));
            return Some(&entries[i].1);
        }
        i = i + 1;
    }
    None
}

} // verus!

//! Three-valued truth used by SQL/JSON path predicates.

use vstd::prelude::*;

verus! {

/// Truth value used in SQL/JSON path predicates.
#[derive(Debug, Clone, Copy, PartialEq, Eq, Structural)]
pub enum Truth {
    True,
    False,
    Unknown,
}

/// Conversion of a boolean into a truth value.
pub open spec fn truth_of(b: bool) -> Truth {
    if b {
        Truth::True
    } else {
        Truth::False
    }
}

/// Three-valued conjunction.
pub open spec fn truth_and(a: Truth, b: Truth) -> Truth {
    match (a, b) {
        (Truth::True, Truth::True) => Truth::True,
        (Truth::False, _) => Truth::False,
        (_, Truth::False) => Truth::False,
        _ => Truth::Unknown,
    }
}

/// Three-valued disjunction.
pub open spec fn truth_or(a: Truth, b: Truth) -> Truth {
    match (a, b) {
        (Truth::True, _) => Truth::True,
        (_, Truth::True) => Truth::True,
        (Truth::False, Truth::False) => Truth::False,
        _ => Truth::Unknown,
    }
}

/// Three-valued negation.
pub open spec fn truth_not(a: Truth) -> Truth {
    match a {
        Truth::True => Truth::False,
        Truth::False => Truth::True,
        Truth::Unknown => Truth::Unknown,
    }
}

/// Merge of two results of the same predicate over a sequence: unknown dominates,
/// then true, then false.
pub open spec fn truth_merge(a: Truth, b: Truth) -> Truth {
    match (a, b) {
        (Truth::Unknown, _) => Truth::Unknown,
        (_, Truth::Unknown) => Truth::Unknown,
        (Truth::True, _) => Truth::True,
        (_, Truth::True) => Truth::True,
        (Truth::False, Truth::False) => Truth::False,
    }
}

impl Truth {
    /// Converts a boolean into a truth value.
    pub fn from_bool(b: bool) -> (t: Truth)
        ensures
            t == truth_of(b),
    {
        if b {
            Truth::True
        } else {
            Truth::False
        }
    }

    /// Returns true if the value is true.
    pub fn is_true(self) -> (b: bool)
        ensures
            b <==> self == Truth::True,
    {
        matches!(self, Truth::True)
    }

    /// Returns true if the value is false.
    pub fn is_false(self) -> (b: bool)
        ensures
            b <==> self == Truth::False,
    {
        matches!(self, Truth::False)
    }

    /// Returns true if the value is unknown.
    pub fn is_unknown(self) -> (b: bool)
        ensures
            b <==> self == Truth::Unknown,
    {
        matches!(self, Truth::Unknown)
    }

    /// AND operation.
    pub fn and(self, other: Truth) -> (t: Truth)
        ensures
            t == truth_and(self, other),
    {
        match (self, other) {
            (Truth::True, Truth::True) => Truth::True,
            (Truth::False, _) | (_, Truth::False) => Truth::False,
            _ => Truth::Unknown,
        }
    }

    /// OR operation.
    pub fn or(self, other: Truth) -> (t: Truth)
        ensures
            t == truth_or(self, other),
    {
        match (self, other) {
            (Truth::True, _) | (_, Truth::True) => Truth::True,
            (Truth::False, Truth::False) => Truth::False,
            _ => Truth::Unknown,
        }
    }

    /// NOT operation.
    pub fn not(self) -> (t: Truth)
        ensures
            t == truth_not(self),
    {
        match self {
            Truth::True => Truth::False,
            Truth::False => Truth::True,
            Truth::Unknown => Truth::Unknown,
        }
    }

    /// Merges two predicate results.
    pub fn merge(self, other: Truth) -> (t: Truth)
        ensures
            t == truth_merge(self, other),
    {
        match (self, other) {
            (Truth::Unknown, _) | (_, Truth::Unknown) => Truth::Unknown,
            (Truth::True, _) | (_, Truth::True) => Truth::True,
            (Truth::False, Truth::False) => Truth::False,
        }
    }
}

/// Conjunction and disjunction are commutative.
pub proof fn law_and_or_commutative(a: Truth, b: Truth)
    ensures
        truth_and(a, b) == truth_and(b, a),
        truth_or(a, b) == truth_or(b, a),
{
}

/// Conjunction and disjunction are associative.
pub proof fn law_and_or_associative(a: Truth, b: Truth, c: Truth)
    ensures
        truth_and(truth_and(a, b), c) == truth_and(a, truth_and(b, c)),
        truth_or(truth_or(a, b), c) == truth_or(a, truth_or(b, c)),
{
}

/// De Morgan's laws hold in three-valued logic, and negation is an involution.
pub proof fn law_de_morgan(a: Truth, b: Truth)
    ensures
        truth_not(truth_and(a, b)) == truth_or(truth_not(a), truth_not(b)),
        truth_not(truth_or(a, b)) == truth_and(truth_not(a), truth_not(b)),
        truth_not(truth_not(a)) == a,
{
}

/// On definite values the three-valued operators agree with boolean logic.
pub proof fn law_agrees_with_bool(x: bool, y: bool)
    ensures
        truth_and(truth_of(x), truth_of(y)) == truth_of(x && y),
        truth_or(truth_of(x), truth_of(y)) == truth_of(x || y),
        truth_not(truth_of(x)) == truth_of(!x),
        truth_merge(truth_of(x), truth_of(y)) == truth_of(x || y),
{
}

/// Merging is commutative, associative and idempotent, and unknown absorbs everything.
pub proof fn law_merge(a: Truth, b: Truth, c: Truth)
    ensures
        truth_merge(a, b) == truth_merge(b, a),
        truth_merge(truth_merge(a, b), c) == truth_merge(a, truth_merge(b, c)),
        truth_merge(a, a) == a,
        truth_merge(a, Truth::Unknown) == Truth::Unknown,
        truth_merge(a, Truth::False) == a,
{
}

} // verus!

//! Errors raised while evaluating a JSON path.

use vstd::prelude::*;
use crate::ast::{BinaryOp, UnaryOp, unary_op_symbol, binary_op_symbol, unary_op_text, binary_op_text};

verus! {

/// The error type returned when evaluating a JSON path.
#[derive(Debug, Clone, PartialEq, Eq)]
pub enum EvalError {
    /// The object has no member of this name.
    NoKey(String),
    /// An array accessor applied to a non-array.
    ArrayAccess,
    /// A wildcard array accessor applied to a non-array.
    WildcardArrayAccess,
    /// A member accessor applied to a non-object.
    MemberAccess,
    /// A wildcard member accessor applied to a non-object.
    WildcardMemberAccess,
    /// An array subscript outside the array.
    ArrayIndexOutOfBounds,
    /// An array subscript outside the integer range.
    ArrayIndexOutOfRange,
    /// An array subscript that is not a single number.
    ArrayIndexNotNumeric,
    /// A variable that the variables object does not hold.
    NoVariable(String),
    /// The variables argument is not an object.
    VarsNotObject,
    /// The operand of a unary operator is not a number.
    UnaryOperandNotNumeric(UnaryOp),
    /// The left operand of a binary operator is not a single number.
    LeftOperandNotNumeric(BinaryOp),
    /// The right operand of a binary operator is not a single number.
    RightOperandNotNumeric(BinaryOp),
    /// A numeric item method applied to a non-number.
    MethodNotNumeric(&'static str),
    /// `.size()` applied to a non-array in strict mode.
    SizeNotArray,
    /// `.double()` applied to something else than a string or number.
    DoubleTypeError,
    /// The number does not fit a double precision number.
    DoubleOutOfRange,
    /// The string is not a number.
    InvalidDouble,
    /// `.keyvalue()` applied to a non-object.
    KeyValueNotObject,
    /// A numeric conversion method applied to something else than a string or number.
    NumericConversionType(&'static str),
    /// A conversion method could not convert its argument.
    InvalidConversion(String, &'static str, &'static str),
    /// `.boolean()` applied to an unsupported item.
    BooleanTypeError,
    /// `.string()` applied to an unsupported item.
    StringTypeError,
    /// A datetime method applied to a non-string.
    DateTimeTypeError(&'static str),
    /// A datetime method could not parse its argument.
    InvalidDateTime(&'static str, String),
    /// Division or remainder by zero.
    DivisionByZero,
    /// A single boolean result was expected.
    ExpectSingleBoolean,
    /// The result of an arithmetic operation is outside the numeric range.
    NumericOutOfRange,
}

/// Whether the error may be suppressed (every error but a missing variable).
pub open spec fn spec_can_silent(e: EvalError) -> bool {
    !(e is NoVariable)
}

/// Whether the error is structural: an access to a missing member or element,
/// or an accessor applied to an item of the wrong type.
pub open spec fn spec_is_structural(e: EvalError) -> bool {
    ||| e is NoKey
    ||| e is ArrayAccess
    ||| e is WildcardArrayAccess
    ||| e is MemberAccess
    ||| e is WildcardMemberAccess
    ||| e is ArrayIndexOutOfBounds
}

/// The message of an error.
pub open spec fn spec_message(e: EvalError) -> Seq<char> {
    match e {
        EvalError::NoKey(k) => "JSON object does not contain key \""@ + k@ + "\""@,
        EvalError::ArrayAccess => "jsonpath array accessor can only be applied to an array"@,
        EvalError::WildcardArrayAccess => "jsonpath wildcard array accessor can only be applied to an array"@,
        EvalError::MemberAccess => "jsonpath member accessor can only be applied to an object"@,
        EvalError::WildcardMemberAccess => "jsonpath wildcard member accessor can only be applied to an object"@,
        EvalError::ArrayIndexOutOfBounds => "jsonpath array subscript is out of bounds"@,
        EvalError::ArrayIndexOutOfRange => "jsonpath array subscript is out of integer range"@,
        EvalError::ArrayIndexNotNumeric => "jsonpath array subscript is not a single numeric value"@,
        EvalError::NoVariable(v) => "could not find jsonpath variable \""@ + v@ + "\""@,
        EvalError::VarsNotObject => "\"vars\" argument is not an object"@,
        EvalError::UnaryOperandNotNumeric(op) => "operand of unary jsonpath operator "@ + unary_op_text(op)
            + " is not a numeric value"@,
        EvalError::LeftOperandNotNumeric(op) => "left operand of jsonpath operator "@ + binary_op_text(op)
            + " is not a single numeric value"@,
        EvalError::RightOperandNotNumeric(op) => "right operand of jsonpath operator "@ + binary_op_text(op)
            + " is not a single numeric value"@,
        EvalError::MethodNotNumeric(m) => "jsonpath item method ."@ + m@ + "() can only be applied to a numeric value"@,
        EvalError::SizeNotArray => "jsonpath item method .size() can only be applied to an array"@,
        EvalError::DoubleTypeError => "jsonpath item method .double() can only be applied to a string or numeric value"@,
        EvalError::DoubleOutOfRange => "numeric argument of jsonpath item method .double() is out of range for type double precision"@,
        EvalError::InvalidDouble => "string argument of jsonpath item method .double() is not a valid representation of a double precision number"@,
        EvalError::KeyValueNotObject => "jsonpath item method .keyvalue() can only be applied to an object"@,
        EvalError::NumericConversionType(m) => "jsonpath item method ."@ + m@ + "() can only be applied to a string or numeric value"@,
        EvalError::InvalidConversion(a, m, t) => "argument \""@ + a@ + "\" of jsonpath item method ."@ + m@
            + "() is invalid for type "@ + t@,
        EvalError::BooleanTypeError => "jsonpath item method .boolean() can only be applied to a boolean, string, or numeric value"@,
        EvalError::StringTypeError => "jsonpath item method .string() can only be applied to a boolean, string, numeric, or datetime value"@,
        EvalError::DateTimeTypeError(m) => "jsonpath item method ."@ + m@ + "() can only be applied to a string"@,
        EvalError::InvalidDateTime(m, s) => m@ + " format is not recognized: \""@ + s@ + "\""@,
        EvalError::DivisionByZero => "division by zero"@,
        EvalError::ExpectSingleBoolean => "single boolean result is expected"@,
        EvalError::NumericOutOfRange => "numeric value out of range"@,
    }
}

/// A string holding the given text.
pub fn text(s: &str) -> (r: String)
    ensures
        r@ == s@,
{
    String::from_str(s)
}

impl EvalError {
    /// Returns true if the error can be suppressed.
    pub fn can_silent(&self) -> (b: bool)
        ensures
            b == spec_can_silent(*self),
    {
        !matches!(self, EvalError::NoVariable(_))
    }

    /// Returns true if the error is structural: an attempt to access a non-existent member
    /// of an object or element of an array.
    pub fn is_structural(&self) -> (b: bool)
        ensures
            b == spec_is_structural(*self),
    {
        matches!(
            self,
            EvalError::NoKey(_) | EvalError::ArrayAccess | EvalError::WildcardArrayAccess | EvalError::MemberAccess
                | EvalError::WildcardMemberAccess | EvalError::ArrayIndexOutOfBounds
        )
    }

    /// The message that describes the error.
    pub fn to_string(&self) -> (r: String)
        ensures
            r@ == spec_message(*self),
    {
        match self {
            EvalError::NoKey(k) => {
                let mut s = text("JSON object does not contain key \"");
                s.append(k.as_str());
                s.append("\"");
                s
            },
            EvalError::ArrayAccess => text("jsonpath array accessor can only be applied to an array"),
            EvalError::WildcardArrayAccess => text("jsonpath wildcard array accessor can only be applied to an array"),
            EvalError::MemberAccess => text("jsonpath member accessor can only be applied to an object"),
            EvalError::WildcardMemberAccess => text("jsonpath wildcard member accessor can only be applied to an object"),
            EvalError::ArrayIndexOutOfBounds => text("jsonpath array subscript is out of bounds"),
            EvalError::ArrayIndexOutOfRange => text("jsonpath array subscript is out of integer range"),
            EvalError::ArrayIndexNotNumeric => text("jsonpath array subscript is not a single numeric value"),
            EvalError::NoVariable(v) => {
                let mut s = text("could not find jsonpath variable \"");
                s.append(v.as_str());
                s.append("\"");
                s
            },
            EvalError::VarsNotObject => text("\"vars\" argument is not an object"),
            EvalError::UnaryOperandNotNumeric(op) => {
                let mut s = text("operand of unary jsonpath operator ");
                s.append(unary_op_symbol(*op));
                s.append(" is not a numeric value");
                s
            },
            EvalError::LeftOperandNotNumeric(op) => {
                let mut s = text("left operand of jsonpath operator ");
                s.append(binary_op_symbol(*op));
                s.append(" is not a single numeric value");
                s
            },
            EvalError::RightOperandNotNumeric(op) => {
                let mut s = text("right operand of jsonpath operator ");
                s.append(binary_op_symbol(*op));
                s.append(" is not a single numeric value");
                s
            },
            EvalError::MethodNotNumeric(m) => {
                let mut s = text("jsonpath item method .");
                s.append(m);
                s.append("() can only be applied to a numeric value");
                s
            },
            EvalError::SizeNotArray => text("jsonpath item method .size() can only be applied to an array"),
            EvalError::DoubleTypeError => text("jsonpath item method .double() can only be applied to a string or numeric value"),
            EvalError::DoubleOutOfRange => text("numeric argument of jsonpath item method .double() is out of range for type double precision"),
            EvalError::InvalidDouble => text("string argument of jsonpath item method .double() is not a valid representation of a double precision number"),
            EvalError::KeyValueNotObject => text("jsonpath item method .keyvalue() can only be applied to an object"),
            EvalError::NumericConversionType(m) => {
                let mut s = text("jsonpath item method .");
                s.append(m);
                s.append("() can only be applied to a string or numeric value");
                s
            },
            EvalError::InvalidConversion(a, m, t) => {
                let mut s = text("argument \"");
                s.append(a.as_str());
                s.append("\" of jsonpath item method .");
                s.append(m);
                s.append("() is invalid for type ");
                s.append(t);
                s
            },
            EvalError::BooleanTypeError => text("jsonpath item method .boolean() can only be applied to a boolean, string, or numeric value"),
            EvalError::StringTypeError => text("jsonpath item method .string() can only be applied to a boolean, string, numeric, or datetime value"),
            EvalError::DateTimeTypeError(m) => {
                let mut s = text("jsonpath item method .");
                s.append(m);
                s.append("() can only be applied to a string");
                s
            },
            EvalError::InvalidDateTime(m, v) => {
                let mut s = text(m);
                s.append(" format is not recognized: \"");
                s.append(v.as_str());
                s.append("\"");
                s
            },
            EvalError::DivisionByZero => text("division by zero"),
            EvalError::ExpectSingleBoolean => text("single boolean result is expected"),
            EvalError::NumericOutOfRange => text("numeric value out of range"),
        }
    }
}

/// Every structural error can be suppressed.
pub proof fn law_structural_errors_are_silent(e: EvalError)
    ensures
        spec_is_structural(e) ==> spec_can_silent(e),
{
}


/// The content of an error, with its texts as character sequences.
pub enum ErrorView {
    NoKey(Seq<char>),
    ArrayAccess,
    WildcardArrayAccess,
    MemberAccess,
    WildcardMemberAccess,
    ArrayIndexOutOfBounds,
    ArrayIndexOutOfRange,
    ArrayIndexNotNumeric,
    NoVariable(Seq<char>),
    VarsNotObject,
    UnaryOperandNotNumeric(UnaryOp),
    LeftOperandNotNumeric(BinaryOp),
    RightOperandNotNumeric(BinaryOp),
    MethodNotNumeric(Seq<char>),
    SizeNotArray,
    DoubleTypeError,
    DoubleOutOfRange,
    InvalidDouble,
    KeyValueNotObject,
    NumericConversionType(Seq<char>),
    InvalidConversion(Seq<char>, Seq<char>, Seq<char>),
    BooleanTypeError,
    StringTypeError,
    DateTimeTypeError(Seq<char>),
    InvalidDateTime(Seq<char>, Seq<char>),
    DivisionByZero,
    ExpectSingleBoolean,
    NumericOutOfRange,
}

/// The content of an error.
pub open spec fn error_view(e: EvalError) -> ErrorView {
    match e {
        EvalError::NoKey(k) => ErrorView::NoKey(k@),
        EvalError::ArrayAccess => ErrorView::ArrayAccess,
        EvalError::WildcardArrayAccess => ErrorView::WildcardArrayAccess,
        EvalError::MemberAccess => ErrorView::MemberAccess,
        EvalError::WildcardMemberAccess => ErrorView::WildcardMemberAccess,
        EvalError::ArrayIndexOutOfBounds => ErrorView::ArrayIndexOutOfBounds,
        EvalError::ArrayIndexOutOfRange => ErrorView::ArrayIndexOutOfRange,
        EvalError::ArrayIndexNotNumeric => ErrorView::ArrayIndexNotNumeric,
        EvalError::NoVariable(v) => ErrorView::NoVariable(v@),
        EvalError::VarsNotObject => ErrorView::VarsNotObject,
        EvalError::UnaryOperandNotNumeric(op) => ErrorView::UnaryOperandNotNumeric(op),
        EvalError::LeftOperandNotNumeric(op) => ErrorView::LeftOperandNotNumeric(op),
        EvalError::RightOperandNotNumeric(op) => ErrorView::RightOperandNotNumeric(op),
        EvalError::MethodNotNumeric(m) => ErrorView::MethodNotNumeric(m@),
        EvalError::SizeNotArray => ErrorView::SizeNotArray,
        EvalError::DoubleTypeError => ErrorView::DoubleTypeError,
        EvalError::DoubleOutOfRange => ErrorView::DoubleOutOfRange,
        EvalError::InvalidDouble => ErrorView::InvalidDouble,
        EvalError::KeyValueNotObject => ErrorView::KeyValueNotObject,
        EvalError::NumericConversionType(m) => ErrorView::NumericConversionType(m@),
        EvalError::InvalidConversion(a, m, t) => ErrorView::InvalidConversion(a@, m@, t@),
        EvalError::BooleanTypeError => ErrorView::BooleanTypeError,
        EvalError::StringTypeError => ErrorView::StringTypeError,
        EvalError::DateTimeTypeError(m) => ErrorView::DateTimeTypeError(m@),
        EvalError::InvalidDateTime(m, v) => ErrorView::InvalidDateTime(m@, v@),
        EvalError::DivisionByZero => ErrorView::DivisionByZero,
        EvalError::ExpectSingleBoolean => ErrorView::ExpectSingleBoolean,
        EvalError::NumericOutOfRange => ErrorView::NumericOutOfRange,
    }
}

/// Whether the error is structural (see [`spec_is_structural`]).
pub open spec fn view_is_structural(e: ErrorView) -> bool {
    ||| e is NoKey
    ||| e is ArrayAccess
    ||| e is WildcardArrayAccess
    ||| e is MemberAccess
    ||| e is WildcardMemberAccess
    ||| e is ArrayIndexOutOfBounds
}

/// A result with its error viewed.
pub open spec fn result_view<T>(r: Result<T, EvalError>) -> Result<T, ErrorView> {
    match r {
        Ok(v) => Ok(v),
        Err(e) => Err(error_view(e)),
    }
}

} // verus!

use std::str::FromStr;

use sql_json_path::ast::{BinaryOp, CompareOp, UnaryOp};
use sql_json_path::compare::compare_json_values;
use sql_json_path::json::JsonValue;
use sql_json_path::number::{Decimal, Number, NumberExt};
use sql_json_path::text::{number_from_text, number_to_string};
use sql_json_path::{EvalError, JsonPath, Truth};
use sql_json_path::truth::Truth::{False, True, Unknown};

fn json(text: &str) -> JsonValue {
    to_value(&serde_json::Value::from_str(text).unwrap())
}

fn run(input: &str, path: &str) -> Result<Vec<serde_json::Value>, EvalError> {
    let input = json(input);
    let list = JsonPath::new(path).unwrap().query(&input)?;
    Ok(list.iter().map(from_value).collect())
}

fn vals(text: &str) -> Vec<serde_json::Value> {
    match serde_json::Value::from_str(text).unwrap() {
        serde_json::Value::Array(a) => a,
        _ => panic!("expected an array"),
    }
}

fn dec(neg: bool, mag: u64, scale: u32) -> Number {
    Number::Float(Decimal::new(neg, mag, scale).unwrap())
}

#[test]
fn lax_mode_hides_structural_errors() {
    assert_eq!(run("1", "lax $.a"), Ok(vec![]));
    assert_eq!(run("1", "strict $.a"), Err(EvalError::MemberAccess));
    assert_eq!(run("[1]", "lax $[5]"), Ok(vec![]));
    assert_eq!(run("[1]", "strict $[5]"), Err(EvalError::ArrayIndexOutOfBounds));
    assert_eq!(run("1", "lax $.*"), Ok(vec![]));
    assert_eq!(run("1", "strict $.*"), Err(EvalError::WildcardMemberAccess));
    assert_eq!(run("1", "strict $[*]"), Err(EvalError::WildcardArrayAccess));
    assert_eq!(run("{}", "lax $.a"), Ok(vec![]));
    assert_eq!(run("{}", "strict $.a"), Err(EvalError::NoKey("a".to_string())));
    assert_eq!(run("{}", "strict $[0]"), Err(EvalError::ArrayAccess));
}

#[test]
fn lax_mode_unwraps_and_wraps() {
    assert_eq!(run(r#"[{"a": 1}, {"a": 2}]"#, "lax $.a"), Ok(vals("[1, 2]")));
    assert_eq!(run("1", "lax $[0]"), Ok(vals("[1]")));
    assert_eq!(run("1", "lax $[last]"), Ok(vals("[1]")));
    assert_eq!(run("1", "lax $[*]"), Ok(vals("[1]")));
}

#[test]
fn predicate_errors_become_unknown() {
    assert_eq!(run(r#"{"b": 1}"#, "strict $ ? (@.a == 1)"), Ok(vec![]));
    assert_eq!(run(r#"[1, "a", 3]"#, r#"$[*] ? (@ > 1)"#), Ok(vals("[3]")));
    assert_eq!(
        run(r#"[1, "a", 3]"#, r#"$[*] ? ((@ > 1) is unknown)"#),
        Ok(vals(r#"["a"]"#))
    );
    assert_eq!(
        run("1", "$ ? ($x == 1)"),
        Err(EvalError::NoVariable("x".to_string()))
    );
}

#[test]
fn variables_must_be_an_object() {
    let path = JsonPath::new("$x").unwrap();
    assert_eq!(
        path.query_with_vars(&json("1"), &json("2")),
        Err(EvalError::VarsNotObject)
    );
    assert_eq!(
        path.query_with_vars(&json("1"), &json(r#"{"x": 7}"#)),
        Ok(vec![json("7")])
    );
    assert_eq!(
        path.query_with_vars(&json("1"), &json(r#"{"y": 7}"#)),
        Err(EvalError::NoVariable("x".to_string()))
    );
}

#[test]
fn arithmetic_results() {
    assert_eq!(run("null", "1 + 2"), Ok(vals("[3]")));
    assert_eq!(run("null", "1 - 2.5"), Ok(vals("[-1.5]")));
    assert_eq!(run("null", "3 * 1.5"), Ok(vals("[4.5]")));
    assert_eq!(run("null", "7 / 2"), Ok(vals("[3.5]")));
    assert_eq!(run("null", "7 % 3"), Ok(vals("[1]")));
    assert_eq!(run("null", "-7 % 3"), Ok(vals("[-1]")));
    assert_eq!(run("[1, 2]", "lax $[*] + 1"), Err(EvalError::LeftOperandNotNumeric(BinaryOp::Add)));
    assert_eq!(run("[1, 2]", "lax -$[*]"), Ok(vals("[-1, -2]")));
}

#[test]
fn arithmetic_errors() {
    assert_eq!(
        run("null", r#""a" + 1"#),
        Err(EvalError::LeftOperandNotNumeric(BinaryOp::Add))
    );
    assert_eq!(
        run("null", r#"1 * "a""#),
        Err(EvalError::RightOperandNotNumeric(BinaryOp::Mul))
    );
    assert_eq!(
        run("null", r#"-"a""#),
        Err(EvalError::UnaryOperandNotNumeric(UnaryOp::Minus))
    );
    assert_eq!(run("null", "1 % 0"), Err(EvalError::DivisionByZero));
    assert_eq!(
        run("null", "1000000000000000000 * 1000000000000000000"),
        Err(EvalError::NumericOutOfRange)
    );
}

#[test]
fn method_errors() {
    assert_eq!(run(r#""a""#, "$.abs()"), Err(EvalError::MethodNotNumeric("abs")));
    assert_eq!(run("1", "strict $.size()"), Err(EvalError::SizeNotArray));
    assert_eq!(run("1", "lax $.size()"), Ok(vals("[1]")));
    assert_eq!(run("true", "$.double()"), Err(EvalError::DoubleTypeError));
    assert_eq!(run(r#""abc""#, "$.double()"), Err(EvalError::InvalidDouble));
    assert_eq!(run("1", "$.keyvalue()"), Err(EvalError::KeyValueNotObject));
    assert_eq!(
        run("true", "$.integer()"),
        Err(EvalError::NumericConversionType("integer"))
    );
    assert_eq!(
        run(r#""abc""#, "$.integer()"),
        Err(EvalError::InvalidConversion("abc".to_string(), "integer", "integer"))
    );
    assert_eq!(
        run(r#""abc""#, "$.number()"),
        Err(EvalError::InvalidConversion("abc".to_string(), "number", "numeric"))
    );
    assert_eq!(run("null", "$.boolean()"), Err(EvalError::BooleanTypeError));
    assert_eq!(run("null", "$.string()"), Err(EvalError::StringTypeError));
    assert_eq!(run("1", "$.date()"), Err(EvalError::DateTimeTypeError("date")));
    assert_eq!(
        run(r#""x""#, "$.date()"),
        Err(EvalError::InvalidDateTime("date", "x".to_string()))
    );
    assert_eq!(run(r#"["a"]"#, r#"strict $["a"]"#), Err(EvalError::ArrayIndexNotNumeric));
}

#[test]
fn item_methods() {
    assert_eq!(
        run(r#"[1, "a", null, true, {}, []]"#, "$[*].type()"),
        Ok(vals(r#"["number", "string", "null", "boolean", "object", "array"]"#))
    );
    assert_eq!(run("[1, 2, 3]", "$.size()"), Ok(vals("[3]")));
    assert_eq!(run(r#""1.5""#, "$.double()"), Ok(vals("[1.5]")));
    assert_eq!(run("[0, 1, 2, 3]", "$[1 to 2]"), Ok(vals("[1, 2]")));
    assert_eq!(run("[0, 1, 2, 3]", "$[0, last]"), Ok(vals("[0, 3]")));
    let kv = run(r#"{"a": 1}"#, "$.keyvalue()").unwrap();
    assert_eq!(kv.len(), 1);
    assert_eq!(kv[0]["key"], serde_json::Value::from("a"));
    assert_eq!(kv[0]["value"], serde_json::Value::from(1));
    assert_eq!(run(r#"{"a": 1}"#, "$.keyvalue().key"), Ok(vals(r#"["a"]"#)));
}

#[test]
fn starts_with_and_exists() {
    assert_eq!(
        run(r#"["abc", "xabc", 1]"#, r#"$[*] ? (@ starts with "ab")"#),
        Ok(vals(r#"["abc"]"#))
    );
    assert_eq!(
        run(r#"[{"a": 1}, {"b": 2}]"#, "$[*] ? (exists (@.a))"),
        Ok(vals(r#"[{"a": 1}]"#))
    );
    let path = JsonPath::new("$.a").unwrap();
    assert_eq!(path.exists_in(&json(r#"{"a": 1}"#)), Ok(true));
    assert_eq!(path.exists_in(&json(r#"{"b": 1}"#)), Ok(false));
    let path = JsonPath::new("$[*]").unwrap();
    assert_eq!(path.query_first(&json("[1, 2]")), Ok(Some(json("1"))));
    assert_eq!(path.query_first(&json("[]")), Ok(None));
}

#[test]
fn truth_operations() {
    assert_eq!(True.and(Unknown), Unknown);
    assert_eq!(False.and(Unknown), False);
    assert_eq!(True.or(Unknown), True);
    assert_eq!(False.or(Unknown), Unknown);
    assert_eq!(Unknown.not(), Unknown);
    assert_eq!(Unknown.and(True), True.and(Unknown));
    assert_eq!(False.or(Unknown).not(), False.not().and(Unknown.not()));
    assert_eq!(Truth::from_bool(true), True);
    assert!(Unknown.is_unknown());
}

#[test]
fn error_classes() {
    assert!(!EvalError::NoVariable("x".to_string()).can_silent());
    assert!(EvalError::MemberAccess.is_structural());
    assert!(EvalError::MemberAccess.can_silent());
    assert!(!EvalError::DivisionByZero.is_structural());
    assert!(EvalError::DivisionByZero.can_silent());
    assert_eq!(EvalError::DivisionByZero.to_string(), "division by zero");
    assert_eq!(
        EvalError::NoKey("k".to_string()).to_string(),
        "JSON object does not contain key \"k\""
    );
}

#[test]
fn comparison_laws_on_values() {
    let one = json("1");
    let two = json("2.5");
    let null = json("null");
    assert_eq!(compare_json_values(CompareOp::Lt, &one, &two), Truth::True);
    assert_eq!(
        compare_json_values(CompareOp::Lt, &one, &two),
        compare_json_values(CompareOp::Gt, &two, &one)
    );
    assert_eq!(
        compare_json_values(CompareOp::Ge, &one, &two),
        compare_json_values(CompareOp::Lt, &one, &two).not()
    );
    assert_eq!(compare_json_values(CompareOp::Lt, &null, &one), Truth::False);
    assert_eq!(compare_json_values(CompareOp::Ge, &null, &one), Truth::False);
    assert_eq!(compare_json_values(CompareOp::Ne, &null, &one), Truth::True);
    assert_eq!(
        compare_json_values(CompareOp::Eq, &one, &json(r#""1""#)),
        Truth::Unknown
    );
}

#[test]
fn number_laws_on_values() {
    let a = Number::Int(2);
    let b = dec(false, 15, 1);
    assert_eq!(a.add(&b), b.add(&a));
    assert_eq!(a.add(&b), Ok(dec(false, 35, 1)));
    assert_eq!(a.mul(&b), b.mul(&a));
    let c = dec(true, 34, 1);
    assert!(c.floor().less_than(&c.ceil()));
    assert_eq!(number_to_string(&c.floor()), "-4");
    assert_eq!(number_to_string(&c.ceil()), "-3");
    assert_eq!(
        Number::Int(i64::MAX).add(&Number::Int(1)).map(|n| number_to_string(&n)),
        Ok("9223372036854775808.0".to_string())
    );
}

#[test]
fn printing_quotes_and_escapes() {
    assert_eq!(JsonPath::new(r#"$."a\"b""#).unwrap().to_string(), r#"$."a\"b""#);
    assert_eq!(JsonPath::new(r#"$ ? (@ == "x\\y")"#).unwrap().to_string(), r#"$?(@ == "x\\y")"#);
    assert_eq!(JsonPath::new("strict $.a").unwrap().to_string(), r#"strict $."a""#);
}

#[test]
fn parse_errors_report_position() {
    let err = JsonPath::new("$.a +").unwrap_err();
    assert!(err.position() <= 5);
    assert!(JsonPath::new("@").is_err());
    assert!(JsonPath::new("$ ? (last > 0)").is_err());
}

#[test]
fn string_escapes_read_to_characters() {
    assert_eq!(run(r#""é""#, r#"$ ? (@ == "\u00e9")"#), Ok(vec![serde_json::Value::from("é")]));
    assert_eq!(run(r#""A""#, r#"$ ? (@ == "\x41")"#), Ok(vec![serde_json::Value::from("A")]));
    assert_eq!(
        run(r#""😀""#, r#"$ ? (@ == "\ud83d\ude00")"#),
        Ok(vec![serde_json::Value::from("😀")])
    );
    assert_eq!(
        run(r#""😀""#, r#"$ ? (@ == "\u{1F600}")"#),
        Ok(vec![serde_json::Value::from("😀")])
    );
    assert_eq!(
        run(r#""a\nb""#, r#"$ ? (@ == "a\nb")"#),
        Ok(vec![serde_json::Value::from("a\nb")])
    );
    assert!(JsonPath::new(r#""\x00""#).is_err());
    assert!(JsonPath::new(r#""\ud800""#).is_err());
    assert!(JsonPath::new(r#""abc"#).is_err());
}

#[test]
fn names_and_variables() {
    assert_eq!(run(r#"{"a b": 1}"#, r#"$."a b""#), Ok(vals("[1]")));
    let path = JsonPath::new(r#"$ ? (@ == $"my var")"#).unwrap();
    assert_eq!(
        path.query_with_vars(&json("3"), &json(r#"{"my var": 3}"#)),
        Ok(vec![json("3")])
    );
    assert_eq!(JsonPath::new("$.size ( )").unwrap().to_string(), "$.size()");
    assert!(JsonPath::new("$.nosuch()").is_err());
}

#[test]
fn first_value_agrees_with_query() {
    let doc = json("[1, 2, 3]");
    for text in ["strict $[*]", "lax $[*] ? (@ > 1)", "$[1 to 2]", "lax $[*].type()"] {
        let path = JsonPath::new(text).unwrap();
        let all = path.query(&doc).unwrap();
        let first = path.query_first(&doc).unwrap();
        assert_eq!(first, all.first().map(|v| v.copy()), "path {}", text);
    }
    let path = JsonPath::new("strict $[5]").unwrap();
    assert_eq!(path.query_first(&doc), Err(EvalError::ArrayIndexOutOfBounds));
    assert_eq!(path.query(&doc), Err(EvalError::ArrayIndexOutOfBounds));
}

#[test]
fn printed_strings_read_back() {
    for text in [
        r#"$ ? (@ == "a\"b\\c\u0001\t")"#,
        r#"$."key with \"quotes\"""#,
        r#"$ ? (@ starts with "\u00e9\n")"#,
    ] {
        let printed = JsonPath::new(text).unwrap().to_string();
        let again = JsonPath::new(&printed).unwrap().to_string();
        assert_eq!(printed, again, "path {}", text);
    }
    let input = json("\"a\\u0001\"");
    let path = JsonPath::new(&JsonPath::new(r#"$ ? (@ == "a\u0001")"#).unwrap().to_string()).unwrap();
    assert_eq!(path.query(&input), Ok(vec![json("\"a\\u0001\"")]));
}

#[test]
fn lax_member_skips_non_objects() {
    assert_eq!(run(r#"[{"a": 1}, 3, {"a": 2}]"#, "lax $.a"), Ok(vals("[1, 2]")));
    assert_eq!(run(r#"[{"a": 1}, {"b": 5}, {"a": 2}]"#, "lax $.a"), Ok(vals("[1, 2]")));
    assert_eq!(run(r#"[{"a": 1}, 3, {"b": 2}]"#, "lax $.*"), Ok(vals("[1, 2]")));
    assert_eq!(
        run(r#"[{"a": 1}, 3, {"a": 2}]"#, "strict $[*].a"),
        Err(EvalError::MemberAccess)
    );
}

#[test]
fn early_stop_can_differ_from_full_evaluation() {
    let doc = json("[[], 5]");
    let path = JsonPath::new("lax -$[*]").unwrap();
    assert_eq!(path.query(&doc), Ok(vec![json("-5")]));
    assert_eq!(path.query_first(&doc), Ok(None));
    let path = JsonPath::new("lax (-$[*]) + 1").unwrap();
    assert_eq!(path.query(&doc), Ok(vec![json("-4")]));
    assert_eq!(
        path.query_first(&doc),
        Err(EvalError::LeftOperandNotNumeric(BinaryOp::Add))
    );
}

fn to_value(v: &serde_json::Value) -> JsonValue {
    match v {
        serde_json::Value::Null => JsonValue::Null,
        serde_json::Value::Bool(b) => JsonValue::Bool(*b),
        serde_json::Value::Number(n) => JsonValue::Number(match n.as_i64() {
            Some(i) => Number::Int(i),
            None => number_from_text(&n.to_string()).expect("number in range"),
        }),
        serde_json::Value::String(s) => JsonValue::String(s.clone()),
        serde_json::Value::Array(a) => JsonValue::Array(a.iter().map(to_value).collect()),
        serde_json::Value::Object(o) => {
            JsonValue::Object(o.iter().map(|(k, v)| (k.clone(), to_value(v))).collect())
        }
    }
}

fn from_value(v: &JsonValue) -> serde_json::Value {
    match v {
        JsonValue::Null => serde_json::Value::Null,
        JsonValue::Bool(b) => serde_json::Value::Bool(*b),
        JsonValue::Number(n) => match n {
            Number::Int(i) => serde_json::Value::from(*i),
            Number::Float(_) => {
                serde_json::Value::from(number_to_string(n).parse::<f64>().expect("decimal text"))
            }
        },
        JsonValue::String(s) => serde_json::Value::String(s.clone()),
        JsonValue::Array(a) => serde_json::Value::Array(a.iter().map(from_value).collect()),
        JsonValue::Object(o) => {
            let mut m = serde_json::Map::new();
            for (k, v) in o {
                m.insert(k.clone(), from_value(v));
            }
            serde_json::Value::Object(m)
        }
    }
}

#[test]
fn grammar_texts_with_blanks_are_read() {
    let p = JsonPath::new("  strict  $ . a [ 1 to last , 0 ] ? ( @ . b == 1 && ! ( @ . c < 2 ) )  ").unwrap();
    assert_eq!(p.to_string(), r#"strict $."a"[1 to last,0]?(@."b" == 1 && !(@."c" < 2))"#);
    assert!(JsonPath::new("$.a.type ( )").is_ok());
    assert!(JsonPath::new("- $.x * 2 + 1").is_ok());
    assert!(JsonPath::new("exists ( $.a ) is unknown").is_ok());
    assert!(JsonPath::new(r#"$ ? (@ starts with "a" || @ like_regex "b" flag "i")"#).is_ok());
    assert!(JsonPath::new("$[*] ? (!exists(@.x))").is_ok());
    assert_eq!(run(r#"{"a": [5, {"b": 1, "c": 3}]}"#, "$ . a [ 1 ] ? ( @ . b == 1 ) . c"), Ok(vals("[3]")));
}

#[test]
fn lookup_with_distinct_keys_ignores_order() {
    assert_eq!(run(r#"{"a": 1, "b": 2}"#, "$.b"), Ok(vals("[2]")));
    assert_eq!(run(r#"{"b": 2, "a": 1}"#, "$.b"), Ok(vals("[2]")));
    assert_eq!(run(r#"{"b": 2, "a": 1}"#, "$.a"), Ok(vals("[1]")));
}

#[test]
fn binary_operators_take_one_item_from_each_side() {
    assert_eq!(run("[5]", "lax $ + 1"), Ok(vals("[6]")));
    assert_eq!(run("[5, 6]", "lax 1 + $"), Err(EvalError::RightOperandNotNumeric(BinaryOp::Add)));
    assert_eq!(run("[5, 6]", "lax $[*] * $[*]"), Err(EvalError::LeftOperandNotNumeric(BinaryOp::Mul)));
    assert_eq!(run("[5]", "strict $ + 1"), Err(EvalError::LeftOperandNotNumeric(BinaryOp::Add)));
}

#[test]
fn unary_operators_apply_to_each_item() {
    assert_eq!(run("[1, -2]", "lax -$"), Ok(vals("[-1, 2]")));
    assert_eq!(run("[1, -2]", "lax +$"), Ok(vals("[1, -2]")));
    assert_eq!(run(r#"[1, "a", 3]"#, "lax -$"), Err(EvalError::UnaryOperandNotNumeric(UnaryOp::Minus)));
    assert_eq!(run("[1, -2]", "strict -$"), Err(EvalError::UnaryOperandNotNumeric(UnaryOp::Minus)));
}

#[test]
fn accessors_apply_to_each_item_in_order() {
    assert_eq!(run(r#"[{"a": [1, 2]}, {"a": [3]}]"#, "lax $[*].a[*]"), Ok(vals("[1, 2, 3]")));
    let path = JsonPath::new("lax $[*].a").unwrap();
    let doc = json(r#"[{"b": 0}, {"a": 7}, {"a": 8}]"#);
    assert_eq!(path.query_first(&doc), Ok(Some(json("7"))));
    assert_eq!(run(r#"[{"a": 1}, 2]"#, "strict $[*].a"), Err(EvalError::MemberAccess));
}

#[test]
fn string_tests_over_items() {
    assert_eq!(run(r#"["a", 1]"#, r#"lax $[*] starts with "a""#), Ok(vals("[true]")));
    assert_eq!(run(r#"["a", 1]"#, r#"strict $[*] starts with "a""#), Ok(vals("[null]")));
    assert_eq!(run(r#"["b", 1, "a"]"#, r#"lax $[*] starts with "a""#), Ok(vals("[null]")));
    assert_eq!(run(r#"["b", "c"]"#, r#"lax $[*] like_regex "a""#), Ok(vals("[false]")));
    assert_eq!(run(r#"["b", "ca"]"#, r#"strict $[*] like_regex "a""#), Ok(vals("[true]")));
}

#[test]
fn filters_and_subscripts_apply_in_order() {
    assert_eq!(run("[1, 5, 2, 7]", "lax $ ? (@ > 1)"), Ok(vals("[5, 2, 7]")));
    assert_eq!(run("[1, 5, 2, 7]", "$[3, 0, 1 to 2]"), Ok(vals("[7, 1, 5, 2]")));
    assert_eq!(run("[1, 5]", "strict $[0, 9]"), Err(EvalError::ArrayIndexOutOfBounds));
    let path = JsonPath::new("lax $ ? (@ > 1)").unwrap();
    assert_eq!(path.query_first(&json("[1, 5, 2, 7]")), Ok(Some(json("5"))));
}

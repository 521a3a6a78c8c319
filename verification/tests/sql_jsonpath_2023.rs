use std::str::FromStr;

use sql_json_path::json::JsonValue;
use sql_json_path::number::Number;
use sql_json_path::text::{number_from_text, number_to_string};
use sql_json_path::JsonPath;

fn query(input: &str, path: &str) -> Vec<serde_json::Value> {
    let input = to_value(&serde_json::Value::from_str(input).unwrap());
    JsonPath::new(path)
        .unwrap()
        .query(&input)
        .unwrap()
        .iter()
        .map(from_value)
        .collect()
}

fn string(s: &str) -> serde_json::Value {
    serde_json::Value::String(s.to_string())
}

#[test]
fn numeric_conversion_methods() {
    assert_eq!(query("1.83", "$.bigint()"), vec![serde_json::Value::from(2)]);
    assert_eq!(query("1.23", "$.integer()"), vec![serde_json::Value::from(1)]);
    assert_eq!(
        query(r#""+12.3""#, "$.number()"),
        vec![serde_json::Value::from(12.3)]
    );
    assert_eq!(
        query(r#""-12.3""#, "$.decimal()"),
        vec![serde_json::Value::from(-12.3)]
    );
}

#[test]
fn boolean_and_string_conversion_methods() {
    assert_eq!(query(r#""YES""#, "$.boolean()"), vec![serde_json::Value::Bool(true)]);
    assert_eq!(query("0", "$.boolean()"), vec![serde_json::Value::Bool(false)]);
    assert_eq!(query("1234", "$.string()"), vec![string("1234")]);
    assert_eq!(query("true", "$.string()"), vec![string("true")]);
    assert_eq!(
        query(r#"[1,"yes",false]"#, "$[*].string()"),
        vec![string("1"), string("yes"), string("false")]
    );
}

#[test]
fn datetime_conversion_methods() {
    assert_eq!(query(r#""2023-08-15""#, "$.date()"), vec![string("2023-08-15")]);
    assert_eq!(query(r#""12:34:56.789""#, "$.time()"), vec![string("12:34:56.789")]);
    assert_eq!(
        query(r#""12:34:56 +5:30""#, "$.time_tz()"),
        vec![string("12:34:56+05:30")]
    );
    assert_eq!(
        query(r#""2023-08-15 12:34:56""#, "$.timestamp()"),
        vec![string("2023-08-15T12:34:56")]
    );
    assert_eq!(
        query(r#""2023-08-15 12:34:56 +5:30""#, "$.timestamp_tz()"),
        vec![string("2023-08-15T12:34:56+05:30")]
    );
}

#[test]
fn datetime_items_keep_their_sql_json_type() {
    assert_eq!(query(r#""2023-08-15""#, "$.date().type()"), vec![string("date")]);
    assert_eq!(
        query(r#""12:34:56 +05:30""#, "$.time_tz().type()"),
        vec![string("time with time zone")]
    );
    assert_eq!(
        query(r#""2023-08-15 12:34:56 +05:30""#, "$.timestamp_tz().string()"),
        vec![string("2023-08-15T12:34:56+05:30")]
    );
}

#[test]
fn datetime_items_are_comparable() {
    assert_eq!(
        query(r#""2023-08-15""#, r#"$.date() == "2023-08-15".date()"#),
        vec![serde_json::Value::Bool(true)]
    );
    assert_eq!(
        query(r#""12:30:00+01""#, r#"$.time_tz() < "11:30:00+00".time_tz()"#),
        vec![serde_json::Value::Bool(true)]
    );
}

#[test]
fn invalid_conversions_report_errors() {
    let input = JsonValue::String("1.23".to_string());
    assert!(JsonPath::new("$.integer()")
        .unwrap()
        .query(&input)
        .unwrap_err()
        .to_string()
        .contains("invalid for type integer"));

    let input = JsonValue::String("bogus".to_string());
    assert!(JsonPath::new("$.date()")
        .unwrap()
        .query(&input)
        .unwrap_err()
        .to_string()
        .contains("date format is not recognized"));

    let input = JsonValue::String("2023-08-15 12:34:56+05:30".to_string());
    assert!(JsonPath::new("$.date()")
        .unwrap()
        .query(&input)
        .unwrap_err()
        .to_string()
        .contains("date format is not recognized"));
}

fn to_value(v: &serde_json::Value) -> JsonValue {
    match v {
        serde_json::Value::Null => JsonValue::Null,
        serde_json::Value::Bool(b) => JsonValue::Bool(*b),
        serde_json::Value::Number(n) => JsonValue::Number(match n.as_i64() {
            Some(i) => Number::Int(i),
            None => number_from_text(&n.to_string()).expect("number in range"),
        }),
        serde_json::Value::String(s) => JsonValue::String(s.clone()),
        serde_json::Value::Array(a) => JsonValue::Array(a.iter().map(to_value).collect()),
        serde_json::Value::Object(o) => {
            JsonValue::Object(o.iter().map(|(k, v)| (k.clone(), to_value(v))).collect())
        }
    }
}

fn from_value(v: &JsonValue) -> serde_json::Value {
    match v {
        JsonValue::Null => serde_json::Value::Null,
        JsonValue::Bool(b) => serde_json::Value::Bool(*b),
        JsonValue::Number(n) => match n {
            Number::Int(i) => serde_json::Value::from(*i),
            Number::Float(_) => {
                serde_json::Value::from(number_to_string(n).parse::<f64>().expect("decimal text"))
            }
        },
        JsonValue::String(s) => serde_json::Value::String(s.clone()),
        JsonValue::Array(a) => serde_json::Value::Array(a.iter().map(from_value).collect()),
        JsonValue::Object(o) => {
            let mut m = serde_json::Map::new();
            for (k, v) in o {
                m.insert(k.clone(), from_value(v));
            }
            serde_json::Value::Object(m)
        }
    }
}

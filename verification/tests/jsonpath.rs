use std::str::FromStr;

use sql_json_path::json::JsonValue;
use sql_json_path::number::Number;
use sql_json_path::text::{number_from_text, number_to_string};
use sql_json_path::{EvalError, JsonPath};

#[test]
fn jsonpath_query() {
    assert_eq!(jsonb_path_exists(r#"{"a": 1}"#, "$.a"), Ok(true));
    assert_eq!(jsonb_path_exists(r#"{"a": 1}"#, "$.b"), Ok(false));

    assert_eq!(
        jsonb_path_exists(r#"[{"a": 1}, {"a": 2}, 3]"#, "lax $[*].a"),
        Ok(true)
    );
    assert!(jsonb_path_exists(r#"[{"a": 1}, {"a": 2}, 3]"#, "strict $[*].a").is_err());
}

#[test]
fn test_json_path() {
    JsonPath::from_str(r#"lax $.name ? (@ starts with "O''")"#).unwrap();
    JsonPath::from_str(r#"lax $.name ? (@ starts with "\"hello")"#).unwrap();
}

#[test]
fn jsonpath_parse() {
    fn test(s: &str) {
        JsonPath::from_str(s).unwrap();
    }
    fn test1(s: &str, display: &str) {
        let path = JsonPath::from_str(s).unwrap();
        assert_eq!(path.to_string(), display);
    }
    fn test_err(s: &str) {
        JsonPath::from_str(s).unwrap_err();
    }

    test_err("");
    test1("$", "$");
    test1("strict $", "strict $");
    test1("lax $", "$");
    test1("$.a", r#"$."a""#);
    test1("$.a.v", r#"$."a"."v""#);
    test1("$.a.*", r#"$."a".*"#);
    test1("$.*[*]", r#"$.*[*]"#);
    test1("$.a[*]", r#"$."a"[*]"#);
    test1("$.a[*][*]", r#"$."a"[*][*]"#);
    test1("$[*]", "$[*]");
    test1("$[0]", "$[0]");
    test1("$[*][0]", "$[*][0]");
    test1("$[*].a", r#"$[*]."a""#);
    test1("$[*][0].a.b", r#"$[*][0]."a"."b""#);
    test1("$+1", "($ + 1)");
    test1("$-1", "($ - 1)");
    test1("$--+1", "($ - -1)");
    test1("$.a/+-1", r#"($."a" / -1)"#);
    test1("1 * 2 + 4 % -3 != false", "(1 * 2 + 4 % -3 != false)");

    test(r#""\b\f\r\n\t\v\"\''\\""#);
    test(r#""\x50\u0067\u{53}\u{051}\u{00004C}""#);
    test(r#""\z""#);

    test(r#"$.g ? ($.a == 1)"#);
    test(r#"$.g ? (@ == 1)"#);
    test(r#"$.g ? (@.a == 1)"#);
    test(r#"$.g ? (@.a == 1 || @.a == 4)"#);
    test(r#"$.g ? (@.a == 1 && @.a == 4)"#);
    test(r#"$.g ? (@.a == 1 || @.a == 4 && @.b == 7)"#);
    test(r#"$.g ? (@.a == 1 || !(@.a == 4) && @.b == 7)"#);
    test(r#"$.g ? (@.a == 1 || !(@.x >= 123 || @.a == 4) && @.b == 7)"#);
    test(r#"$.g ? (@.x >= @[*]?(@.a > "abc"))"#);
    test(r#"$.g ? ((@.x >= 123 || @.a == 4) is unknown)"#);
    test(r#"$.g ? (exists (@.x))"#);
    test(r#"$.g ? (exists (@.x ? (@ == 14)))"#);
    test(r#"$.g ? ((@.x >= 123 || @.a == 4) && exists (@.x ? (@ == 14)))"#);
    test(r#"$.g ? (+@.x >= +-(+@.a + 2))"#);

    test(r#"$a"#);
    test(r#"$a.b"#);
    test(r#"$a[*]"#);
    test(r#"$.g ? (@.zip == $zip)"#);
    test(r#"$.a[1,2, 3 to 16]"#);
    test(r#"$.a[$a + 1, ($b[*]) to -($[0] * 2)]"#);
    test(r#"$.a[$.a.size() - 3]"#);
    test(r#""last""#);
    test(r#"$.last"#);
    test(r#"$[last]"#);
    test(r#"$[$[0] ? (last > 0)]"#);

    test(r#"null.type()"#);
    test(r#"(1).type()"#);
    test(r#"1.2.type()"#);
    test(r#""aaa".type()"#);
    test(r#"true.type()"#);
    test(r#"$.double().floor().ceiling().abs()"#);
    test(r#"$.keyvalue().key"#);

    test(r#"$ ? (@ starts with "abc")"#);
    test(r#"$ ? (@ starts with $var)"#);

    test(r#"$ ? (@ like_regex "pattern")"#);
    test(r#"$ ? (@ like_regex "pattern" flag "")"#);
    test(r#"$ ? (@ like_regex "pattern" flag "i")"#);
    test(r#"$ ? (@ like_regex "pattern" flag "is")"#);
    test(r#"$ ? (@ like_regex "pattern" flag "isim")"#);
    test(r#"$ ? (@ like_regex "pattern" flag "q")"#);
    test(r#"$ ? (@ like_regex "pattern" flag "iq")"#);

    test(r#"$ < 1"#);
    test(r#"($ < 1) || $.a.b <= $x"#);

    test(r#"($).a.b"#);
    test(r#"($.a.b).c.d"#);
    test(r#"($.a.b + -$.x.y).c.d"#);
    test(r#"(-+$.a.b).c.d"#);
    test(r#"1 + ($.a.b + 2).c.d"#);
    test(r#"1 + ($.a.b > 2).c.d"#);
    test(r#"($)"#);
    test(r#"(($))"#);
    test(r#"((($ + 1)).a + ((2)).b ? ((((@ > 1)) || (exists(@.c)))))"#);

    for n in [
        "1", "-1", "+1", ".1", "-.1", "+.1", "0.1", "-0.1", "+0.1", "10.1", "-10.1", "+10.1", "1e1", "-1e1",
        "+1e1", ".1e1", "-.1e1", "+.1e1", "0.1e1", "-0.1e1", "+0.1e1", "10.1e1", "-10.1e1", "+10.1e1", "1e-1",
        "-1e-1", "+1e-1", ".1e-1", "-.1e-1", "+.1e-1", "0.1e-1", "-0.1e-1", "+0.1e-1", "10.1e-1", "-10.1e-1",
        "+10.1e-1", "1e+1", "-1e+1", "+1e+1", ".1e+1", "-.1e+1", "+.1e+1", "0.1e+1", "-0.1e+1", "+0.1e+1",
        "10.1e+1", "-10.1e+1", "+10.1e+1",
    ] {
        test(&format!("$ ? (@.a < {})", n));
    }

    test(r#"0"#);
    test(r#"0.0"#);
    test(r#"0.000"#);
    test(r#"0.000e1"#);
    test(r#"0.000e2"#);
    test(r#"0.000e3"#);
    test(r#"0.0010"#);
    test(r#"0.0010e-1"#);
    test(r#"0.0010e+1"#);
    test(r#"0.0010e+2"#);
    test(r#".001"#);
    test(r#".001e1"#);
    test(r#"1."#);
    test(r#"1.e1"#);
    test(r#"1.2.e"#);
    test(r#"(1.2).e"#);
    test(r#"1e3"#);
    test(r#"1.e3"#);
    test(r#"1.e3.e"#);
    test(r#"1.e3.e4"#);
    test(r#"1.2e3"#);
    test(r#"1.2.e3"#);
    test(r#"(1.2).e3"#);
    test(r#"1..e"#);
    test(r#"1..e3"#);
    test(r#"(1.).e"#);
    test(r#"(1.).e3"#);
    test(r#"1?(2>3)"#);
}

fn jsonb_path_exists(json: &str, path: &str) -> Result<bool, EvalError> {
    let json = to_value(&serde_json::Value::from_str(json).unwrap());
    let path = JsonPath::from_str(path).unwrap();
    let list = path.query(&json)?;
    Ok(!list.is_empty())
}

fn to_value(v: &serde_json::Value) -> JsonValue {
    match v {
        serde_json::Value::Null => JsonValue::Null,
        serde_json::Value::Bool(b) => JsonValue::Bool(*b),
        serde_json::Value::Number(n) => JsonValue::Number(match n.as_i64() {
            Some(i) => Number::Int(i),
            None => number_from_text(&n.to_string()).expect("number in range"),
        }),
        serde_json::Value::String(s) => JsonValue::String(s.clone()),
        serde_json::Value::Array(a) => JsonValue::Array(a.iter().map(to_value).collect()),
        serde_json::Value::Object(o) => {
            JsonValue::Object(o.iter().map(|(k, v)| (k.clone(), to_value(v))).collect())
        }
    }
}

fn from_value(v: &JsonValue) -> serde_json::Value {
    match v {
        JsonValue::Null => serde_json::Value::Null,
        JsonValue::Bool(b) => serde_json::Value::Bool(*b),
        JsonValue::Number(n) => match n {
            Number::Int(i) => serde_json::Value::from(*i),
            Number::Float(_) => {
                serde_json::Value::from(number_to_string(n).parse::<f64>().expect("decimal text"))
            }
        },
        JsonValue::String(s) => serde_json::Value::String(s.clone()),
        JsonValue::Array(a) => serde_json::Value::Array(a.iter().map(from_value).collect()),
        JsonValue::Object(o) => {
            let mut m = serde_json::Map::new();
            for (k, v) in o {
                m.insert(k.clone(), from_value(v));
            }
            serde_json::Value::Object(m)
        }
    }
}

use std::str::FromStr;

use sql_json_path::json::JsonValue;
use sql_json_path::number::Number;
use sql_json_path::text::{number_from_text, number_to_string};
use sql_json_path::{EvalError, JsonPath};

#[test]
fn postgres_parse() {
    parse_err(r#""#, r#""#);
    parse_match(r#"$"#, r#"$"#);
    parse_match(r#"strict $"#, r#"strict $"#);
    parse_match(r#"lax $"#, r#"$"#);
    parse_match(r#"$.a"#, r#"$."a""#);
    parse_match(r#"$.a.v"#, r#"$."a"."v""#);
    parse_match(r#"$.a.*"#, r#"$."a".*"#);
    parse_match(r#"$.*[*]"#, r#"$.*[*]"#);
    parse_match(r#"$.a[*]"#, r#"$."a"[*]"#);
    parse_match(r#"$.a[*][*]"#, r#"$."a"[*][*]"#);
    parse_match(r#"$[*]"#, r#"$[*]"#);
    parse_match(r#"$[0]"#, r#"$[0]"#);
    parse_match(r#"$[*][0]"#, r#"$[*][0]"#);
    parse_match(r#"$[*].a"#, r#"$[*]."a""#);
    parse_match(r#"$[*][0].a.b"#, r#"$[*][0]."a"."b""#);
    parse_match(r#"$+1"#, r#"($ + 1)"#);
    parse_match(r#"$-1"#, r#"($ - 1)"#);
    parse_match(r#"$--+1"#, r#"($ - -1)"#);
    parse_ok(r#"$.a/+-1"#, r#"($."a" / -1)"#);
    parse_match(r#"1 * 2 + 4 % -3 != false"#, r#"(1 * 2 + 4 % -3 != false)"#);
    parse_match(r#"$.g ? ($.a == 1)"#, r#"$."g"?($."a" == 1)"#);
    parse_match(r#"$.g ? (@ == 1)"#, r#"$."g"?(@ == 1)"#);
    parse_match(r#"$.g ? (@.a == 1)"#, r#"$."g"?(@."a" == 1)"#);
    parse_match(
        r#"$.g ? (@.a == 1 || @.a == 4)"#,
        r#"$."g"?(@."a" == 1 || @."a" == 4)"#,
    );
    parse_match(
        r#"$.g ? (@.a == 1 && @.a == 4)"#,
        r#"$."g"?(@."a" == 1 && @."a" == 4)"#,
    );
    parse_match(
        r#"$.g ? (@.a == 1 || @.a == 4 && @.b == 7)"#,
        r#"$."g"?(@."a" == 1 || @."a" == 4 && @."b" == 7)"#,
    );
    parse_match(
        r#"$.g ? (@.a == 1 || !(@.a == 4) && @.b == 7)"#,
        r#"$."g"?(@."a" == 1 || !(@."a" == 4) && @."b" == 7)"#,
    );
    parse_match(
        r#"$.g ? (@.a == 1 || !(@.x >= 123 || @.a == 4) && @.b == 7)"#,
        r#"$."g"?(@."a" == 1 || !(@."x" >= 123 || @."a" == 4) && @."b" == 7)"#,
    );
    parse_match(
        r#"$.g ? (@.x >= @[*]?(@.a > "abc"))"#,
        r#"$."g"?(@."x" >= @[*]?(@."a" > "abc"))"#,
    );
    parse_match(
        r#"$.g ? ((@.x >= 123 || @.a == 4) is unknown)"#,
        r#"$."g"?((@."x" >= 123 || @."a" == 4) is unknown)"#,
    );
    parse_match(r#"$.g ? (exists (@.x))"#, r#"$."g"?(exists (@."x"))"#);
    parse_match(
        r#"$.g ? (exists (@.x ? (@ == 14)))"#,
        r#"$."g"?(exists (@."x"?(@ == 14)))"#,
    );
    parse_match(
        r#"$.g ? ((@.x >= 123 || @.a == 4) && exists (@.x ? (@ == 14)))"#,
        r#"$."g"?((@."x" >= 123 || @."a" == 4) && exists (@."x"?(@ == 14)))"#,
    );
    parse_match(
        r#"$.g ? (+@.x >= +-(+@.a + 2))"#,
        r#"$."g"?(+@."x" >= +(-(+@."a" + 2)))"#,
    );
    parse_match(r#"$a"#, r#"$"a""#);
    parse_match(r#"$a.b"#, r#"$"a"."b""#);
    parse_match(r#"$a[*]"#, r#"$"a"[*]"#);
    parse_match(r#"$.g ? (@.zip == $zip)"#, r#"$."g"?(@."zip" == $"zip")"#);
    parse_match(r#"$.a[1,2, 3 to 16]"#, r#"$."a"[1,2,3 to 16]"#);
    parse_match(
        r#"$.a[$a + 1, ($b[*]) to -($[0] * 2)]"#,
        r#"$."a"[$"a" + 1,$"b"[*] to -($[0] * 2)]"#,
    );
    parse_match(r#"$.a[$.a.size() - 3]"#, r#"$."a"[$."a".size() - 3]"#);
    parse_err_match(r#"last"#, r#"LAST is allowed only in array subscripts"#);
    parse_match(r#""last""#, r#""last""#);
    parse_match(r#"$.last"#, r#"$."last""#);
    parse_err_match(
        r#"$ ? (last > 0)"#,
        r#"LAST is allowed only in array subscripts"#,
    );
    parse_match(r#"$[last]"#, r#"$[last]"#);
    parse_match(r#"$[$[0] ? (last > 0)]"#, r#"$[$[0]?(last > 0)]"#);
    parse_match(r#"null.type()"#, r#"null.type()"#);
    parse_match(r#"(1).type()"#, r#"(1).type()"#);
    parse_match(r#"1.2.type()"#, r#"(1.2).type()"#);
    parse_match(r#""aaa".type()"#, r#""aaa".type()"#);
    parse_match(r#"true.type()"#, r#"true.type()"#);
    parse_match(
        r#"$.double().floor().ceiling().abs()"#,
        r#"$.double().floor().ceiling().abs()"#,
    );
    parse_match(r#"$.keyvalue().key"#, r#"$.keyvalue()."key""#);
    parse_match(r#"$ ? (@ starts with "abc")"#, r#"$?(@ starts with "abc")"#);
    parse_match(r#"$ ? (@ starts with $var)"#, r#"$?(@ starts with $"var")"#);
    parse_err(
        r#"$ ? (@ like_regex "(invalid pattern")"#,
        r#"invalid regular expression: parentheses () not balanced"#,
    );
    parse_match(
        r#"$ ? (@ like_regex "pattern")"#,
        r#"$?(@ like_regex "pattern")"#,
    );
    parse_match(
        r#"$ ? (@ like_regex "pattern" flag "")"#,
        r#"$?(@ like_regex "pattern")"#,
    );
    parse_match(
        r#"$ ? (@ like_regex "pattern" flag "i")"#,
        r#"$?(@ like_regex "pattern" flag "i")"#,
    );
    parse_match(
        r#"$ ? (@ like_regex "pattern" flag "is")"#,
        r#"$?(@ like_regex "pattern" flag "is")"#,
    );
    parse_match(
        r#"$ ? (@ like_regex "pattern" flag "isim")"#,
        r#"$?(@ like_regex "pattern" flag "ism")"#,
    );
    parse_err(
        r#"$ ? (@ like_regex "pattern" flag "xsms")"#,
        r#"XQuery "x" flag (expanded regular expressions) is not implemented"#,
    );
    parse_match(
        r#"$ ? (@ like_regex "pattern" flag "q")"#,
        r#"$?(@ like_regex "pattern" flag "q")"#,
    );
    parse_match(
        r#"$ ? (@ like_regex "pattern" flag "iq")"#,
        r#"$?(@ like_regex "pattern" flag "iq")"#,
    );
    parse_err(
        r#"$ ? (@ like_regex "pattern" flag "a")"#,
        r#"Unrecognized flag character "a" in LIKE_REGEX predicate."#,
    );
    parse_match(r#"$ < 1"#, r#"($ < 1)"#);
    parse_match(
        r#"($ < 1) || $.a.b <= $x"#,
        r#"($ < 1 || $."a"."b" <= $"x")"#,
    );
    parse_err(r#"@ + 1"#, r#"@ is not allowed in root expressions"#);
    parse_match(r#"($).a.b"#, r#"$."a"."b""#);
    parse_match(r#"($.a.b).c.d"#, r#"$."a"."b"."c"."d""#);
    parse_match(
        r#"($.a.b + -$.x.y).c.d"#,
        r#"($."a"."b" + -$."x"."y")."c"."d""#,
    );
    parse_match(r#"(-+$.a.b).c.d"#, r#"(-(+$."a"."b"))."c"."d""#);
    parse_match(r#"1 + ($.a.b + 2).c.d"#, r#"(1 + ($."a"."b" + 2)."c"."d")"#);
    parse_match(r#"1 + ($.a.b > 2).c.d"#, r#"(1 + ($."a"."b" > 2)."c"."d")"#);
    parse_match(r#"($)"#, r#"$"#);
    parse_match(r#"(($))"#, r#"$"#);
    parse_match(
        r#"((($ + 1)).a + ((2)).b ? ((((@ > 1)) || (exists(@.c)))))"#,
        r#"(($ + 1)."a" + (2)."b"?(@ > 1 || exists (@."c")))"#,
    );
    parse_match(r#"$ ? (@.a < 1)"#, r#"$?(@."a" < 1)"#);
    parse_match(r#"$ ? (@.a < -1)"#, r#"$?(@."a" < -1)"#);
    parse_match(r#"$ ? (@.a < +1)"#, r#"$?(@."a" < 1)"#);
    parse_match(r#"$ ? (@.a < .1)"#, r#"$?(@."a" < 0.1)"#);
    parse_match(r#"$ ? (@.a < -.1)"#, r#"$?(@."a" < -0.1)"#);
    parse_match(r#"$ ? (@.a < +.1)"#, r#"$?(@."a" < 0.1)"#);
    parse_match(r#"$ ? (@.a < 0.1)"#, r#"$?(@."a" < 0.1)"#);
    parse_match(r#"$ ? (@.a < -0.1)"#, r#"$?(@."a" < -0.1)"#);
    parse_match(r#"$ ? (@.a < +0.1)"#, r#"$?(@."a" < 0.1)"#);
    parse_match(r#"$ ? (@.a < 10.1)"#, r#"$?(@."a" < 10.1)"#);
    parse_match(r#"$ ? (@.a < -10.1)"#, r#"$?(@."a" < -10.1)"#);
    parse_match(r#"$ ? (@.a < +10.1)"#, r#"$?(@."a" < 10.1)"#);
    parse_match(r#"$ ? (@.a < 1e1)"#, r#"$?(@."a" < 10)"#);
    parse_match(r#"$ ? (@.a < -1e1)"#, r#"$?(@."a" < -10)"#);
    parse_match(r#"$ ? (@.a < +1e1)"#, r#"$?(@."a" < 10)"#);
    parse_match(r#"$ ? (@.a < .1e1)"#, r#"$?(@."a" < 1)"#);
    parse_match(r#"$ ? (@.a < -.1e1)"#, r#"$?(@."a" < -1)"#);
    parse_match(r#"$ ? (@.a < +.1e1)"#, r#"$?(@."a" < 1)"#);
    parse_match(r#"$ ? (@.a < 0.1e1)"#, r#"$?(@."a" < 1)"#);
    parse_match(r#"$ ? (@.a < -0.1e1)"#, r#"$?(@."a" < -1)"#);
    parse_match(r#"$ ? (@.a < +0.1e1)"#, r#"$?(@."a" < 1)"#);
    parse_match(r#"$ ? (@.a < 10.1e1)"#, r#"$?(@."a" < 101)"#);
    parse_match(r#"$ ? (@.a < -10.1e1)"#, r#"$?(@."a" < -101)"#);
    parse_match(r#"$ ? (@.a < +10.1e1)"#, r#"$?(@."a" < 101)"#);
    parse_match(r#"$ ? (@.a < 1e-1)"#, r#"$?(@."a" < 0.1)"#);
    parse_match(r#"$ ? (@.a < -1e-1)"#, r#"$?(@."a" < -0.1)"#);
    parse_match(r#"$ ? (@.a < +1e-1)"#, r#"$?(@."a" < 0.1)"#);
    parse_match(r#"$ ? (@.a < .1e-1)"#, r#"$?(@."a" < 0.01)"#);
    parse_match(r#"$ ? (@.a < -.1e-1)"#, r#"$?(@."a" < -0.01)"#);
    parse_match(r#"$ ? (@.a < +.1e-1)"#, r#"$?(@."a" < 0.01)"#);
    parse_match(r#"$ ? (@.a < 0.1e-1)"#, r#"$?(@."a" < 0.01)"#);
    parse_match(r#"$ ? (@.a < -0.1e-1)"#, r#"$?(@."a" < -0.01)"#);
    parse_match(r#"$ ? (@.a < +0.1e-1)"#, r#"$?(@."a" < 0.01)"#);
    parse_match(r#"$ ? (@.a < 10.1e-1)"#, r#"$?(@."a" < 1.01)"#);
    parse_match(r#"$ ? (@.a < -10.1e-1)"#, r#"$?(@."a" < -1.01)"#);
    parse_match(r#"$ ? (@.a < +10.1e-1)"#, r#"$?(@."a" < 1.01)"#);
    parse_match(r#"$ ? (@.a < 1e+1)"#, r#"$?(@."a" < 10)"#);
    parse_match(r#"$ ? (@.a < -1e+1)"#, r#"$?(@."a" < -10)"#);
    parse_match(r#"$ ? (@.a < +1e+1)"#, r#"$?(@."a" < 10)"#);
    parse_match(r#"$ ? (@.a < .1e+1)"#, r#"$?(@."a" < 1)"#);
    parse_match(r#"$ ? (@.a < -.1e+1)"#, r#"$?(@."a" < -1)"#);
    parse_match(r#"$ ? (@.a < +.1e+1)"#, r#"$?(@."a" < 1)"#);
    parse_match(r#"$ ? (@.a < 0.1e+1)"#, r#"$?(@."a" < 1)"#);
    parse_match(r#"$ ? (@.a < -0.1e+1)"#, r#"$?(@."a" < -1)"#);
    parse_match(r#"$ ? (@.a < +0.1e+1)"#, r#"$?(@."a" < 1)"#);
    parse_match(r#"$ ? (@.a < 10.1e+1)"#, r#"$?(@."a" < 101)"#);
    parse_match(r#"$ ? (@.a < -10.1e+1)"#, r#"$?(@."a" < -101)"#);
    parse_match(r#"$ ? (@.a < +10.1e+1)"#, r#"$?(@."a" < 101)"#);

    parse_match(r#"0"#, r#"0"#);
    parse_ok(r#"0.0"#, r#"0.0"#);
    parse_ok(r#"0.000"#, r#"0.000"#);
    parse_ok(r#"0.000e1"#, r#"0.00"#);
    parse_ok(r#"0.000e2"#, r#"0.0"#);
    parse_ok(r#"0.000e3"#, r#"0"#);
    parse_ok(r#"0.0010"#, r#"0.0010"#);
    parse_ok(r#"0.0010e-1"#, r#"0.00010"#);
    parse_ok(r#"0.0010e+1"#, r#"0.010"#);
    parse_ok(r#"0.0010e+2"#, r#"0.10"#);
    parse_match(r#".001"#, r#"0.001"#);
    parse_match(r#".001e1"#, r#"0.01"#);
    parse_match(r#"1."#, r#"1"#);
    parse_match(r#"1.e1"#, r#"10"#);
    parse_err(
        r#"1a"#,
        r#"trailing junk after numeric literal at or near "1a" of jsonpath input"#,
    );
    parse_err(
        r#"1e"#,
        r#"trailing junk after numeric literal at or near "1e" of jsonpath input"#,
    );
    parse_err(
        r#"1.e"#,
        r#"trailing junk after numeric literal at or near "1.e" of jsonpath input"#,
    );
    parse_err(
        r#"1.2a"#,
        r#"trailing junk after numeric literal at or near "1.2a" of jsonpath input"#,
    );
    parse_err(
        r#"1.2e"#,
        r#"trailing junk after numeric literal at or near "1.2e" of jsonpath input"#,
    );
    parse_match(r#"1.2.e"#, r#"(1.2)."e""#);
    parse_match(r#"(1.2).e"#, r#"(1.2)."e""#);
    parse_match(r#"1e3"#, r#"1000"#);
    parse_match(r#"1.e3"#, r#"1000"#);
    parse_match(r#"1.e3.e"#, r#"(1000)."e""#);
    parse_match(r#"1.e3.e4"#, r#"(1000)."e4""#);
    parse_match(r#"1.2e3"#, r#"1200"#);
    parse_err(
        r#"1.2e3a"#,
        r#"trailing junk after numeric literal at or near "1.2e3a" of jsonpath input"#,
    );
    parse_match(r#"1.2.e3"#, r#"(1.2)."e3""#);
    parse_match(r#"(1.2).e3"#, r#"(1.2)."e3""#);
    parse_match(r#"1..e"#, r#"(1)."e""#);
    parse_match(r#"1..e3"#, r#"(1)."e3""#);
    parse_match(r#"(1.).e"#, r#"(1)."e""#);
    parse_match(r#"(1.).e3"#, r#"(1)."e3""#);
    parse_match(r#"1?(2>3)"#, r#"(1)?(2 > 3)"#);

    parse_err(
        r#"0b"#,
        r#"trailing junk after numeric literal at or near "0b" of jsonpath input"#,
    );
    parse_err(
        r#"1b"#,
        r#"trailing junk after numeric literal at or near "1b" of jsonpath input"#,
    );
    parse_err(r#"0b0x"#, r#"syntax error at end of jsonpath input"#);
    parse_err(
        r#"0o"#,
        r#"trailing junk after numeric literal at or near "0o" of jsonpath input"#,
    );
    parse_err(
        r#"1o"#,
        r#"trailing junk after numeric literal at or near "1o" of jsonpath input"#,
    );
    parse_err(r#"0o0x"#, r#"syntax error at end of jsonpath input"#);
    parse_err(
        r#"0x"#,
        r#"trailing junk after numeric literal at or near "0x" of jsonpath input"#,
    );
    parse_err(
        r#"1x"#,
        r#"trailing junk after numeric literal at or near "1x" of jsonpath input"#,
    );
    parse_err(r#"0x0y"#, r#"syntax error at end of jsonpath input"#);

    parse_err(r#"_100"#, r#"syntax error at end of jsonpath input"#);
    parse_err(
        r#"100_"#,
        r#"trailing junk after numeric literal at or near "100_" of jsonpath input"#,
    );
    parse_err(r#"100__000"#, r#"syntax error at end of jsonpath input"#);
    parse_err(r#"_1_000.5"#, r#"syntax error at end of jsonpath input"#);
    parse_err(
        r#"1_000_.5"#,
        r#"trailing junk after numeric literal at or near "1_000_" of jsonpath input"#,
    );
    parse_err(
        r#"1_000._5"#,
        r#"trailing junk after numeric literal at or near "1_000._" of jsonpath input"#,
    );
    parse_err(
        r#"1_000.5_"#,
        r#"trailing junk after numeric literal at or near "1_000.5_" of jsonpath input"#,
    );
    parse_err(
        r#"1_000.5e_1"#,
        r#"trailing junk after numeric literal at or near "1_000.5e" of jsonpath input"#,
    );

    parse_err(r#"0b_10_0101"#, r#"syntax error at end of jsonpath input"#);
    parse_err(r#"0o_273"#, r#"syntax error at end of jsonpath input"#);
    parse_err(r#"0x_42F"#, r#"syntax error at end of jsonpath input"#);
}

#[test]
fn postgres_query() {
    assert_eq!(jsonb_path_exists(r#"{"a": 1}"#, "$.a"), Ok(true));
    assert_eq!(jsonb_path_exists(r#"{"a": 1}"#, "$.b"), Ok(false));

    assert_eq!(
        jsonb_path_exists(r#"[{"a": 1}, {"a": 2}, 3]"#, "lax $[*].a"),
        Ok(true)
    );
    assert!(jsonb_path_exists(r#"[{"a": 1}, {"a": 2}, 3]"#, "strict $[*].a").is_err());
}

#[test]
fn query_last() {
    assert_eq!(jsonb_path_query("[]", "$[last]"), Ok(vec![]));
    assert_eq!(
        jsonb_path_query("[]", "$[last ? (exists(last))]"),
        Ok(vec![])
    );
    assert_eq!(
        jsonb_path_query("[]", "strict $[last]"),
        Err(EvalError::ArrayIndexOutOfBounds)
    );
    assert_eq!(jsonb_path_query("[1]", "$[last]"), Ok(vec!["1".into()]));
    assert_eq!(jsonb_path_query("[1,2,3]", "$[last]"), Ok(vec!["3".into()]));
    assert_eq!(
        jsonb_path_query("[1,2,3]", "$[last - 1]"),
        Ok(vec!["2".into()])
    );
    assert_eq!(
        jsonb_path_query("[1,2,3]", r#"$[last ? (@.type() == "number")]"#),
        Ok(vec!["3".into()])
    );
    assert_eq!(
        jsonb_path_query("[1,2,3]", r#"$[last ? (@.type() == "string")]"#),
        Err(EvalError::ArrayIndexNotNumeric)
    );
}

#[test]
fn query_array_index() {
    assert_eq!(
        jsonb_path_query("[1]", "lax $[10000000000000000]"),
        Err(EvalError::ArrayIndexOutOfRange)
    );
    assert_eq!(
        jsonb_path_query("[1]", "strict $[10000000000000000]"),
        Err(EvalError::ArrayIndexOutOfRange)
    );
    assert_eq!(jsonb_path_query("[1]", "$[0]"), Ok(vec!["1".into()]));
    assert_eq!(jsonb_path_query("[1]", "$[0.3]"), Ok(vec!["1".into()]));
    assert_eq!(jsonb_path_query("[1]", "$[0.5]"), Ok(vec!["1".into()]));
    assert_eq!(jsonb_path_query("[1]", "$[0.9]"), Ok(vec!["1".into()]));
    assert_eq!(jsonb_path_query("[1]", "$[1.2]"), Ok(vec![]));
    assert_eq!(
        jsonb_path_query("[1]", "strict $[1.2]"),
        Err(EvalError::ArrayIndexOutOfBounds)
    );
}

#[test]
fn division_by_zero() {
    assert_eq!(
        jsonb_path_query(r#"[12, {"a": 13}, {"b": 14}]"#, r#"lax $[0 to 10 / 0].a"#),
        Err(EvalError::DivisionByZero)
    );
}

#[test]
fn numeric_methods() {
    assert_eq!(
        jsonb_path_query(r#"[0, 1, -2, -3.4, 5.6]"#, r#"lax $[*].abs()"#),
        Ok(vec![
            "0".into(),
            "1".into(),
            "2".into(),
            "3.4".into(),
            "5.6".into()
        ])
    );
    assert_eq!(
        jsonb_path_query(r#"[0, 1, -2, -3.4, 5.6]"#, r#"lax $[*].floor()"#),
        Ok(vec![
            "0".into(),
            "1".into(),
            "-2".into(),
            "-4".into(),
            "5".into()
        ])
    );
    assert_eq!(
        jsonb_path_query(r#"[0, 1, -2, -3.4, 5.6]"#, r#"lax $[*].ceiling()"#),
        Ok(vec![
            "0".into(),
            "1".into(),
            "-2".into(),
            "-3".into(),
            "6".into()
        ])
    );
}

#[test]
fn query_regex() {
    assert_eq!(
        jsonb_path_query(
            r#"[null, 1, "abc", "abd", "aBdC", "abdacb", "babc", "adc\nabc", "ab\nadc"]"#,
            r#"lax $[*] ? (@ like_regex "^ab.*c")"#
        ),
        Ok(vec![r#""abc""#.into(), r#""abdacb""#.into()])
    );

    assert_eq!(
        jsonb_path_query(
            r#"[null, 1, "abc", "abd", "aBdC", "abdacb", "babc", "adc\nabc", "ab\nadc"]"#,
            r#"lax $[*] ? (@ like_regex "^ab.*c" flag "i")"#
        ),
        Ok(vec![
            r#""abc""#.into(),
            r#""aBdC""#.into(),
            r#""abdacb""#.into()
        ])
    );

    assert_eq!(
        jsonb_path_query(
            r#"[null, 1, "abc", "abd", "aBdC", "abdacb", "babc", "adc\nabc", "ab\nadc"]"#,
            r#"lax $[*] ? (@ like_regex "^ab.*c" flag "m")"#
        ),
        Ok(vec![
            r#""abc""#.into(),
            r#""abdacb""#.into(),
            r#""adc\nabc""#.into()
        ])
    );

    assert_eq!(
        jsonb_path_query(
            r#"[null, 1, "abc", "abd", "aBdC", "abdacb", "babc", "adc\nabc", "ab\nadc"]"#,
            r#"lax $[*] ? (@ like_regex "^ab.*c" flag "s")"#
        ),
        Ok(vec![
            r#""abc""#.into(),
            r#""abdacb""#.into(),
            r#""ab\nadc""#.into()
        ])
    );

    assert_eq!(
        jsonb_path_query(
            r#"[null, 1, "a\b", "a\\b", "^a\\b$"]"#,
            r#"lax $[*] ? (@ like_regex "a\\b" flag "q")"#
        ),
        Ok(vec![r#""a\\b""#.into(), r#""^a\\b$""#.into()])
    );

    assert_eq!(
        jsonb_path_query(
            r#"[null, 1, "a\b", "a\\b", "^a\\b$"]"#,
            r#"lax $[*] ? (@ like_regex "^a\\B$" flag "q")"#
        ),
        Ok(vec![])
    );

    assert_eq!(
        jsonb_path_query(
            r#"[null, 1, "a\b", "a\\b", "^a\\b$"]"#,
            r#"lax $[*] ? (@ like_regex "^a\\B$" flag "iq")"#
        ),
        Ok(vec![r#""^a\\b$""#.into()])
    );

}

fn jsonb_path_exists(json: &str, path: &str) -> Result<bool, EvalError> {
    let json = to_value(&serde_json::Value::from_str(json).unwrap());
    let path = JsonPath::from_str(path).unwrap();
    let list = path.query(&json)?;
    Ok(!list.is_empty())
}

fn jsonb_path_query(json: &str, path: &str) -> Result<Vec<String>, EvalError> {
    let json = to_value(&serde_json::Value::from_str(json).unwrap());
    let path = JsonPath::from_str(path).unwrap();
    let list = path.query(&json)?;
    Ok(list.iter().map(|v| from_value(v).to_string()).collect())
}

fn to_value(v: &serde_json::Value) -> JsonValue {
    match v {
        serde_json::Value::Null => JsonValue::Null,
        serde_json::Value::Bool(b) => JsonValue::Bool(*b),
        serde_json::Value::Number(n) => JsonValue::Number(match n.as_i64() {
            Some(i) => Number::Int(i),
            None => number_from_text(&n.to_string()).expect("number in range"),
        }),
        serde_json::Value::String(s) => JsonValue::String(s.clone()),
        serde_json::Value::Array(a) => JsonValue::Array(a.iter().map(to_value).collect()),
        serde_json::Value::Object(o) => {
            JsonValue::Object(o.iter().map(|(k, v)| (k.clone(), to_value(v))).collect())
        }
    }
}

fn from_value(v: &JsonValue) -> serde_json::Value {
    match v {
        JsonValue::Null => serde_json::Value::Null,
        JsonValue::Bool(b) => serde_json::Value::Bool(*b),
        JsonValue::Number(n) => match n {
            Number::Int(i) => serde_json::Value::from(*i),
            Number::Float(_) => {
                serde_json::Value::from(number_to_string(n).parse::<f64>().expect("decimal text"))
            }
        },
        JsonValue::String(s) => serde_json::Value::String(s.clone()),
        JsonValue::Array(a) => serde_json::Value::Array(a.iter().map(from_value).collect()),
        JsonValue::Object(o) => {
            let mut m = serde_json::Map::new();
            for (k, v) in o {
                m.insert(k.clone(), from_value(v));
            }
            serde_json::Value::Object(m)
        }
    }
}

fn parse_ok(s: &str, _display: &str) {
    JsonPath::from_str(s).unwrap();
}

fn parse_match(s: &str, display: &str) {
    let path = JsonPath::from_str(s).unwrap();
    assert_eq!(path.to_string(), display, "input {:?}", s);
}

fn parse_err(s: &str, _msg: &str) {
    JsonPath::from_str(s).unwrap_err();
}

fn parse_err_match(s: &str, msg: &str) {
    let err = JsonPath::from_str(s).unwrap_err().to_string();
    if !err.contains(msg) {
        panic!("expected error message {:?}, got {:?}", msg, err);
    }
}

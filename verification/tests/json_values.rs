use gloss::json::{
    compact, find_field, from_value, json_int, json_str, parse, pretty, put, take_field, to_value, Json,
};
use serde_json::Value;

#[test]
fn values_come_back_unchanged() {
    for t in [
        "null",
        "true",
        "false",
        "0",
        "-7",
        "18446744073709551615",
        "1.5",
        "\"\"",
        "\"a\\nb\\u0007\"",
        "[]",
        "[1,[2,{}],null]",
        "{}",
        "{\"a\":{\"b\":[true]},\"c\":\"d\"}",
    ] {
        assert_eq!(compact(parse(t).unwrap()), t);
        let v: Value = serde_json::from_str(t).unwrap();
        assert_eq!(to_value(from_value(v.clone())), v);
    }
}

#[test]
fn keys_are_written_in_order() {
    assert_eq!(compact(parse("{\"b\":1,\"a\":2,\"b\":3}").unwrap()), "{\"a\":2,\"b\":3}");
    assert_eq!(pretty(parse("{\"b\":[1],\"a\":{}}").unwrap()), Ok("{\n  \"a\": {},\n  \"b\": [\n    1\n  ]\n}".to_string()));
}

#[test]
fn bad_text_is_refused() {
    let e = match parse("{\"a\":}") {
        Err(e) => e,
        Ok(_) => panic!("parsed"),
    };
    assert_eq!(e, "expected value at line 1 column 6");
    assert!(parse("").is_err());
    assert!(parse("1 2").is_err());
}

#[test]
fn reading_fields() {
    let j = parse("{\"s\":\"t\",\"n\":5,\"m\":-5,\"b\":true,\"x\":1.0}").unwrap();
    assert_eq!(j.get_str("s"), Some("t"));
    assert_eq!(j.get_str("n"), None);
    assert_eq!(j.get_str("gone"), None);
    assert_eq!(j.get("n").unwrap().as_u64(), Some(5));
    assert_eq!(j.get("m").unwrap().as_u64(), None);
    assert_eq!(j.get("x").unwrap().as_u64(), None);
    assert_eq!(j.get("b").unwrap().as_bool(), Some(true));
    assert_eq!(j.get("s").unwrap().as_bool(), None);
    assert!(parse("[1]").unwrap().get("0").is_none());
    assert_eq!(json_int(12).as_u64(), Some(12));
    assert_eq!(json_int(-12).as_u64(), None);
    assert_eq!(compact(json_int(-12)), "-12");
    assert_eq!(json_str("t").as_str(), Some("t"));
    assert_eq!(compact(j.take("s").unwrap()), "\"t\"");
}

#[test]
fn changing_fields() {
    let mut f: Vec<(String, Json)> = Vec::new();
    put(&mut f, "a", json_int(1));
    put(&mut f, "b", json_int(2));
    put(&mut f, "a", json_int(3));
    assert_eq!(find_field(&f, "a"), Some(2));
    assert_eq!(find_field(&f, "c"), None);
    assert_eq!(take_field(&mut f, "a").unwrap().as_u64(), Some(3));
    assert!(take_field(&mut f, "a").is_none());
    assert_eq!(compact(Json::Object(f)), "{\"b\":2}");
}

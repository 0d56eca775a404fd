use docker_proxy::json::{
    json_get, json_remove, json_set, json_to_string, parse_json, JsonMember, JsonValue,
};

#[test]
fn values_are_read_and_printed() {
    let v = parse_json(br#" {"b":[1,-2,1.5,true,null,"x\n"],"a":{}} "#).unwrap();
    assert_eq!(json_to_string(&v), r#"{"a":{},"b":[1,-2,1.5,true,null,"x\n"]}"#);
    assert!(parse_json(b"{").is_err());
    assert!(!parse_json(b"{").err().unwrap().is_empty());
    assert!(parse_json(b"1 2").is_err());
}

#[test]
fn numbers_keep_their_kinds() {
    let v = parse_json(b"[-1, 1, 18446744073709551615, 0.5]").unwrap();
    let items = match v {
        JsonValue::Array(a) => a,
        _ => panic!("expected an array"),
    };
    let kinds: Vec<(Option<i64>, Option<u64>)> = items
        .iter()
        .map(|i| match i {
            JsonValue::Number(n) => (n.as_i64(), n.as_u64()),
            _ => panic!("expected a number"),
        })
        .collect();
    assert_eq!(
        kinds,
        vec![(Some(-1), None), (Some(1), Some(1)), (None, Some(u64::MAX)), (None, None)]
    );
    match &items[3] {
        JsonValue::Number(n) => assert_eq!(n.float_bits(), Some(0.5f64.to_bits())),
        _ => panic!("expected a number"),
    }
}

#[test]
fn the_last_of_two_members_counts() {
    let v = parse_json(br#"{"a":1,"a":2}"#).unwrap();
    assert_eq!(json_to_string(&v), r#"{"a":2}"#);
}

#[test]
fn paths_lead_to_values() {
    let v = parse_json(br#"{"a":{"b":[{"c":"x"}]},"":{"d":1}}"#).unwrap();
    assert!(matches!(json_get(&v, "a.b.0.c"), Some(JsonValue::String(s)) if s == "x"));
    assert!(json_get(&v, "a.b.1").is_none());
    assert!(json_get(&v, "a.b.x").is_none());
    assert!(json_get(&v, "a..b").is_none());
    assert!(json_get(&v, "").is_none());
    assert!(json_get(&v, ".d").is_none());
    assert!(json_get(&v, "a.b.0.c.d").is_none());
}

#[test]
fn values_are_replaced_and_removed() {
    let mut v = parse_json(br#"{"a":{"b":[1,2]},"c":3,"":4}"#).unwrap();
    json_set(&mut v, "a.b.1", JsonValue::String("x".into()));
    json_set(&mut v, "a.z", JsonValue::Null);
    assert_eq!(json_to_string(&v), r#"{"":4,"a":{"b":[1,"x"]},"c":3}"#);
    json_remove(&mut v, "a.b.0");
    json_remove(&mut v, "a.b.1");
    json_remove(&mut v, "nothing");
    assert_eq!(json_to_string(&v), r#"{"":4,"a":{"b":["x"]},"c":3}"#);
    json_remove(&mut v, "a.b");
    json_remove(&mut v, "");
    assert_eq!(json_to_string(&v), r#"{"a":{},"c":3}"#);
    json_set(&mut v, "c", JsonValue::Bool(true));
    assert_eq!(json_to_string(&v), r#"{"a":{},"c":true}"#);
}

#[test]
fn texts_are_escaped() {
    let v = JsonValue::Array(vec![
        JsonValue::String("a\"b\\c/\u{8}\u{c}\n\r\t\u{1}\u{1f}\u{7f}é".into()),
        JsonValue::Bool(false),
    ]);
    assert_eq!(
        json_to_string(&v),
        "[\"a\\\"b\\\\c/\\b\\f\\n\\r\\t\\u0001\\u001f\u{7f}é\",false]"
    );
}

#[test]
fn printed_values_are_read_again() {
    let text = r#"{"":[],"a":{"b":[-9223372036854775808,18446744073709551615,"\"\n"]},"z":null}"#;
    let printed = json_to_string(&parse_json(text.as_bytes()).unwrap());
    assert_eq!(printed, text);
    assert_eq!(json_to_string(&parse_json(printed.as_bytes()).unwrap()), text);
}

#[test]
fn nesting_is_bounded() {
    let nested = |n: usize| format!("{}{}", "[".repeat(n), "]".repeat(n));
    let deep = nested(127);
    assert_eq!(json_to_string(&parse_json(deep.as_bytes()).unwrap()), deep);
    assert!(parse_json(nested(128).as_bytes()).is_err());
}

#[test]
fn members_are_printed_by_name() {
    let member = |name: &str, value: bool| JsonMember {
        name: name.into(),
        value: JsonValue::Bool(value),
    };
    let v = JsonValue::Object(vec![
        member("b", false),
        member("é", true),
        member("ab", true),
        member("b", true),
        member("a", false),
    ]);
    assert_eq!(json_to_string(&v), r#"{"a":false,"ab":true,"b":true,"é":true}"#);
}

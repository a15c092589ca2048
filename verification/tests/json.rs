use factory_droid::json::{from_value, parse_json, parse_optional, read_json, Json};

#[test]
fn documents_are_carried_over_whole() {
    let v = parse_json(r#"{"b":1,"a":[true,null,-2,1.5,"x",{"c":{}}]}"#).unwrap();
    let entries = v.as_object().unwrap();
    assert_eq!(entries.len(), 2);
    assert_eq!(entries[0].0, "a");
    assert_eq!(entries[1].0, "b");
    assert_eq!(v.u64_at("b"), 1);
    let items = v.array_at("a").unwrap();
    assert_eq!(items.len(), 6);
    assert_eq!(items[0].as_bool(), Some(true));
    assert!(items[1].is_null());
    assert_eq!(items[2].as_u64(), None);
    assert_eq!(items[2].as_i64(), Some(-2));
    assert_eq!(items[3].as_u64(), None);
    assert_eq!(items[3].as_i64(), None);
    assert_eq!(items[4].as_str(), Some("x"));
    assert_eq!(items[5].get("c").unwrap().as_object().unwrap().len(), 0);
}

#[test]
fn numbers_have_the_readings_that_they_fit() {
    let v = parse_json("[18446744073709551615, 9223372036854775807, 18446744073709551616]").unwrap();
    let items = v.as_array().unwrap();
    assert_eq!(items[0].as_u64(), Some(u64::MAX));
    assert_eq!(items[0].as_i64(), None);
    assert_eq!(items[1].as_u64(), Some(i64::MAX as u64));
    assert_eq!(items[1].as_i64(), Some(i64::MAX));
    assert_eq!(items[2].as_u64(), None);
}

#[test]
fn of_repeated_keys_the_last_counts() {
    let v = parse_json(r#"{"k":1,"k":2}"#).unwrap();
    assert_eq!(v.u64_at("k"), 2);
    assert_eq!(v.as_object().unwrap().len(), 1);
}

#[test]
fn lookups_tolerate_other_shapes() {
    let v = parse_json(r#"{"n":"x","b":"true","s":3,"a":{}}"#).unwrap();
    assert_eq!(v.u64_at("n"), 0);
    assert_eq!(v.i64_at("n"), None);
    assert!(!v.bool_at("b"));
    assert_eq!(v.str_at("s"), None);
    assert_eq!(v.text_at("s"), "");
    assert!(v.array_at("a").is_none());
    assert!(v.get("absent").is_none());
    assert!(Json::Null.get("n").is_none());
    assert!(parse_json("[1]").unwrap().get("n").is_none());
    assert_eq!(v.as_str(), None);
    assert_eq!(v.as_bool(), None);
}

#[test]
fn errors_are_those_of_the_parser() {
    for text in ["", "{", "[1,]", "nul", r#"{"a":1} x"#] {
        let expected = serde_json::from_str::<serde_json::Value>(text).unwrap_err().to_string();
        assert_eq!(parse_json(text).unwrap_err(), expected);
    }
    assert_eq!(parse_json("{").unwrap_err(), "EOF while parsing an object at line 1 column 1");
}

#[test]
fn absent_and_broken_texts_read_as_null() {
    assert!(read_json(None).is_null());
    assert!(read_json(Some("{")).is_null());
    assert!(read_json(Some("null")).is_null());
    assert_eq!(read_json(Some("7")).as_u64(), Some(7));
    assert!(parse_optional(None).is_none());
    assert!(parse_optional(Some("{")).is_none());
    assert!(parse_optional(Some("null")).unwrap().is_null());
}

#[test]
fn values_of_the_parser_are_carried_over() {
    let v = from_value(serde_json::Value::Array(vec![
        serde_json::Value::Bool(true),
        serde_json::Value::String("x".to_string()),
        serde_json::Value::Null,
    ]));
    let items = v.as_array().unwrap();
    assert_eq!(items.len(), 3);
    assert_eq!(items[0].as_bool(), Some(true));
    assert_eq!(items[1].as_str(), Some("x"));
    assert!(items[2].is_null());
}

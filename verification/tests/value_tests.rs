use tornado::model::{Event, ExtractedVars};
use tornado::accessor::AccessorBuilder;
use tornado::render::{value_to_json, value_to_text};
use tornado::text::{i64_to_string, u64_to_string};
use tornado::value::{value_eq, Payload, Value};

#[test]
fn decimal_writing_is_exact() {
    assert_eq!("0", u64_to_string(0));
    assert_eq!("42", u64_to_string(42));
    assert_eq!("18446744073709551615", u64_to_string(u64::MAX));
    assert_eq!("-5", i64_to_string(-5));
    assert_eq!("-9223372036854775808", i64_to_string(i64::MIN));
}

#[test]
fn json_writing_of_nested_values() {
    let mut obj = Payload::new();
    obj.insert("a".to_owned(), Value::Int(1));
    obj.insert(
        "b".to_owned(),
        Value::Arr(vec![Value::Null, Value::Bool(true), Value::Str("x\"y".to_owned())]),
    );
    let v = Value::Obj(obj);
    assert_eq!("{\"a\":1,\"b\":[null,true,\"x\\\"y\"]}", value_to_json(&v));
    assert_eq!("plain", value_to_text(&Value::Str("plain".to_owned())));
    assert_eq!("7", value_to_text(&Value::Int(7)));
}

#[test]
fn deep_equality_follows_structure() {
    let mut a = Payload::new();
    a.insert("k".to_owned(), Value::Arr(vec![Value::Int(1), Value::Int(2)]));
    let mut b = Payload::new();
    b.insert("k".to_owned(), Value::Arr(vec![Value::Int(1), Value::Int(2)]));
    assert!(value_eq(&Value::Obj(a), &Value::Obj(b)));
    assert!(!value_eq(&Value::Int(1), &Value::Str("1".to_owned())));
}

#[test]
fn payload_insert_replaces_in_place() {
    let mut p = Payload::new();
    p.insert("k".to_owned(), Value::Int(1));
    p.insert("other".to_owned(), Value::Int(2));
    p.insert("k".to_owned(), Value::Int(3));
    assert_eq!(2, p.len());
    assert_eq!(Some(&Value::Int(3)), p.get("k"));
}

#[test]
fn interpolation_concatenates_rendered_values() {
    let builder = AccessorBuilder::new();
    let accessor = builder.build("", "type=${event.type} ms=${event.created_ms}").unwrap();
    let event = Event::new("trap");
    let vars = ExtractedVars::new();
    assert_eq!(
        Some(Value::Str("type=trap ms=0".to_owned())),
        accessor.get(&event, &vars)
    );
}

#[test]
fn unbalanced_template_is_a_build_error() {
    let builder = AccessorBuilder::new();
    assert!(builder.build("", "${event.type").is_err());
    assert!(builder.build("", "${unknown.root}").is_err());
    assert!(builder.build("", "plain text").is_ok());
}

#[test]
fn quoted_keys_and_indices_walk_nested_values() {
    let mut inner = Payload::new();
    inner.insert("dotted.key".to_owned(), Value::Str("found".to_owned()));
    let mut payload = Payload::new();
    payload.insert(
        "list".to_owned(),
        Value::Arr(vec![Value::Obj(inner)]),
    );
    let event = Event::new_with_payload("t", payload);
    let vars = ExtractedVars::new();
    let accessor = AccessorBuilder::new()
        .build("", "${event.payload.list[0][\"dotted.key\"]}")
        .unwrap();
    assert_eq!(Some(Value::Str("found".to_owned())), accessor.get(&event, &vars));
}

#[test]
fn control_characters_are_escaped_in_json() {
    let v = Value::Str("a\u{1}b\u{1f}c".to_owned());
    assert_eq!("\"a\\u0001b\\u001fc\"", value_to_json(&v));
    let tabbed = Value::Str("a\tb\nc".to_owned());
    assert_eq!("\"a\\tb\\nc\"", value_to_json(&tabbed));
}

use tornado::accessor::AccessorBuilder;
use tornado::model::{Event, ExtractedVars};
use tornado::operator::Operator;
use tornado::value::{Payload, Value};

fn contain_op(text: &str, substring: &str) -> Operator {
    Operator::Contains {
        first: Value::Str(text.to_owned()),
        second: Value::Str(substring.to_owned()),
    }
}

#[test]
fn should_return_the_operator_name() {
    let operator = contain_op("", "").build().unwrap();
    assert_eq!("contain", operator.name());
}

#[test]
fn should_build_the_operator_with_expected_arguments() {
    let builder = AccessorBuilder::new();
    let event = Event::new("test_type");
    let vars = ExtractedVars::new();
    let first = builder.build("", "one").unwrap();
    let second = builder.build("", "two").unwrap();
    assert_eq!(Some(Value::Str("one".to_owned())), first.get(&event, &vars));
    assert_eq!(Some(Value::Str("two".to_owned())), second.get(&event, &vars));
}

#[test]
fn should_evaluate_to_true_if_text_equals_substring() {
    let operator = contain_op("one", "one").build().unwrap();
    let event = Event::new("test_type");
    assert!(operator.evaluate(&event, &ExtractedVars::new()));
}

#[test]
fn should_evaluate_to_true_if_text_contains_substring() {
    let operator = contain_op("two or one", "one").build().unwrap();
    let event = Event::new("test_type");
    assert!(operator.evaluate(&event, &ExtractedVars::new()));
}

#[test]
fn should_evaluate_using_accessors() {
    let operator = contain_op("${event.type}", "test_type").build().unwrap();
    let event = Event::new("test_type");
    assert!(operator.evaluate(&event, &ExtractedVars::new()));
}

#[test]
fn should_evaluate_to_false_if_text_does_not_contain_substring() {
    let operator = contain_op("${event.type}", "wrong_test_type").build().unwrap();
    let event = Event::new("test_type");
    assert!(!operator.evaluate(&event, &ExtractedVars::new()));
}

#[test]
fn should_compare_event_fields() {
    let operator = contain_op("${event.type}", "${event.payload.type}").build().unwrap();
    let mut payload = Payload::new();
    payload.insert("type".to_owned(), Value::Str("type".to_owned()));
    let event = Event::new_with_payload("test_type", payload);
    assert!(operator.evaluate(&event, &ExtractedVars::new()));
}

#[test]
fn should_return_false_if_fields_do_not_exist() {
    let operator = contain_op("${event.payload.1}", "${event.payload.2}").build().unwrap();
    let event = Event::new("test_type");
    assert!(!operator.evaluate(&event, &ExtractedVars::new()));
}

#[test]
fn missing_key_yields_none_and_equal_is_false() {
    let builder = AccessorBuilder::new();
    let accessor = builder.build("", "${event.payload.missing}").unwrap();
    let event = Event::new("test_type");
    let vars = ExtractedVars::new();
    assert_eq!(None, accessor.get(&event, &vars));

    let operator = Operator::Equal {
        first: Value::Str("${event.payload.missing}".to_owned()),
        second: Value::Str("${event.payload.missing}".to_owned()),
    }
    .build()
    .unwrap();
    assert!(!operator.evaluate(&event, &vars));
}

#[test]
fn regex_operator_matches_prefix() {
    let operator = Operator::Regex {
        regex: "^foo.*".to_owned(),
        target: "${event.payload.x}".to_owned(),
    }
    .build()
    .unwrap();

    let mut payload = Payload::new();
    payload.insert("x".to_owned(), Value::Str("foobar".to_owned()));
    let event = Event::new_with_payload("t", payload);
    assert!(operator.evaluate(&event, &ExtractedVars::new()));

    let mut payload_2 = Payload::new();
    payload_2.insert("x".to_owned(), Value::Str("barfoo".to_owned()));
    let event_2 = Event::new_with_payload("t", payload_2);
    assert!(!operator.evaluate(&event_2, &ExtractedVars::new()));
}

#[test]
fn regex_operator_with_malformed_pattern_fails_to_build() {
    let result = Operator::Regex {
        regex: "(".to_owned(),
        target: "${event.type}".to_owned(),
    }
    .build();
    assert!(result.is_err());
}

#[test]
fn ordering_operators_compare_numbers_and_strings() {
    let event = Event::new("t");
    let vars = ExtractedVars::new();
    let gt = Operator::Greater { first: Value::Int(3), second: Value::Int(2) }.build().unwrap();
    assert!(gt.evaluate(&event, &vars));
    let le = Operator::LessEqual {
        first: Value::Str("abc".to_owned()),
        second: Value::Str("abd".to_owned()),
    }
    .build()
    .unwrap();
    assert!(le.evaluate(&event, &vars));
    let mixed = Operator::Greater {
        first: Value::Int(3),
        second: Value::Str("2".to_owned()),
    }
    .build()
    .unwrap();
    assert!(!mixed.evaluate(&event, &vars));
}

#[test]
fn contain_ignore_case_folds_both_sides() {
    let event = Event::new("t");
    let vars = ExtractedVars::new();
    let operator = Operator::ContainsIgnoreCase {
        first: Value::Str("HeLLo World".to_owned()),
        second: Value::Str("hello".to_owned()),
    }
    .build()
    .unwrap();
    assert!(operator.evaluate(&event, &vars));

    let negative = Operator::ContainsIgnoreCase {
        first: Value::Str("HeLLo World".to_owned()),
        second: Value::Str("bye".to_owned()),
    }
    .build()
    .unwrap();
    assert!(!negative.evaluate(&event, &vars));
}

use tornado::foreach::{resolve_action, to_action};
use tornado::model::Action;
use tornado::value::{Payload, Value};

#[test]
fn should_convert_value_to_action() {
    let mut action_map = Payload::new();
    action_map.insert("id".to_owned(), Value::Str("my_action".to_owned()));

    let mut payload_map = Payload::new();
    payload_map.insert("key_one".to_owned(), Value::Arr(vec![]));
    let mut payload_copy = Payload::new();
    payload_copy.insert("key_one".to_owned(), Value::Arr(vec![]));
    action_map.insert("payload".to_owned(), Value::Obj(payload_map));

    let action_value = Value::Obj(action_map);

    let action = to_action(&action_value).unwrap();

    assert_eq!("my_action", action.id);
    assert_eq!(payload_copy, action.payload);
}

#[test]
fn to_action_should_fail_if_value_not_a_map() {
    let result = to_action(&Value::Arr(vec![]));
    assert!(result.is_err());
}

#[test]
fn to_action_should_fail_if_missing_id() {
    let mut action_map = Payload::new();
    let mut payload_map = Payload::new();
    payload_map.insert("key_one".to_owned(), Value::Arr(vec![]));
    action_map.insert("payload".to_owned(), Value::Obj(payload_map));
    let action_value = Value::Obj(action_map);
    let result = to_action(&action_value);
    assert!(result.is_err());
}

#[test]
fn to_action_should_fail_if_id_is_not_text() {
    let mut action_map = Payload::new();
    action_map.insert("id".to_owned(), Value::Int(1));
    let mut payload_map = Payload::new();
    payload_map.insert("key_one".to_owned(), Value::Arr(vec![]));
    action_map.insert("payload".to_owned(), Value::Obj(payload_map));
    let action_value = Value::Obj(action_map);
    let result = to_action(&action_value);
    assert!(result.is_err());
}

#[test]
fn to_action_should_fail_if_payload_is_missing() {
    let mut action_map = Payload::new();
    action_map.insert("id".to_owned(), Value::Str("my_action".to_owned()));
    let action_value = Value::Obj(action_map);
    let result = to_action(&action_value);
    assert!(result.is_err());
}

#[test]
fn to_action_should_fail_if_payload_is_not_map() {
    let mut action_map = Payload::new();
    action_map.insert("id".to_owned(), Value::Str("my_action".to_owned()));
    action_map.insert("payload".to_owned(), Value::Arr(vec![]));
    let action_value = Value::Obj(action_map);
    let result = to_action(&action_value);
    assert!(result.is_err());
}

#[test]
fn should_execute_each_action_with_each_target_item() {
    // The per-item resolution behind the fan-out: each target item is
    // substituted into the action payload in turn.
    let mut action = Action::new("id_one");
    action.payload.insert("key_one".to_owned(), Value::Arr(vec![]));
    action.payload.insert("item".to_owned(), Value::Str("${item}".to_owned()));

    let first = resolve_action(&Value::Str("first_item".to_owned()), &action).unwrap();
    assert_eq!(
        Some(&Value::Str("first_item".to_owned())),
        first.payload.get("item")
    );

    let second = resolve_action(&Value::Str("second_item".to_owned()), &action).unwrap();
    assert_eq!(
        Some(&Value::Str("second_item".to_owned())),
        second.payload.get("item")
    );

    let mut with_interpolation = Action::new("id_two");
    with_interpolation.payload.insert(
        "item_with_interpolation".to_owned(),
        Value::Str("a ${item} bb <${item}>".to_owned()),
    );
    let resolved =
        resolve_action(&Value::Str("first_item".to_owned()), &with_interpolation)
            .unwrap();
    assert_eq!(
        Some(&Value::Str("a first_item bb <first_item>".to_owned())),
        resolved.payload.get("item_with_interpolation")
    );
}

#[test]
fn should_resolve_complex_placeholders() {
    let mut action = Action::new("id_one");
    action
        .payload
        .insert("value".to_owned(), Value::Str("${item[0]} + ${item[1]}".to_owned()));

    let pair = Value::Arr(vec![
        Value::Str("first".to_owned()),
        Value::Str("second".to_owned()),
    ]);
    let resolved = resolve_action(&pair, &action).unwrap();
    assert_eq!(
        Some(&Value::Str("first + second".to_owned())),
        resolved.payload.get("value")
    );

    let pair_2 = Value::Arr(vec![
        Value::Str("third".to_owned()),
        Value::Str("fourth".to_owned()),
    ]);
    let resolved_2 = resolve_action(&pair_2, &action).unwrap();
    assert_eq!(
        Some(&Value::Str("third + fourth".to_owned())),
        resolved_2.payload.get("value")
    );
}

#[test]
fn should_resolve_recursive_placeholders_in_maps() {
    let mut inner_map = Payload::new();
    inner_map.insert("value".to_owned(), Value::Str("${item[0]}".to_owned()));
    let mut action = Action::new("id_one");
    action.payload.insert("inner".to_owned(), Value::Obj(inner_map));

    let pair = Value::Arr(vec![
        Value::Str("first".to_owned()),
        Value::Str("second".to_owned()),
    ]);
    let resolved = resolve_action(&pair, &action).unwrap();

    let mut expected = Payload::new();
    expected.insert("value".to_owned(), Value::Str("first".to_owned()));
    assert_eq!(Some(&Value::Obj(expected)), resolved.payload.get("inner"));
}

#[test]
fn should_resolve_recursive_placeholders_in_arrays() {
    let inner = Value::Arr(vec![
        Value::Str("${item[0]}".to_owned()),
        Value::Str("${item[1]}".to_owned()),
    ]);
    let mut action = Action::new("id_one");
    action.payload.insert("inner".to_owned(), Value::Arr(vec![inner]));

    let pair = Value::Arr(vec![
        Value::Str("first".to_owned()),
        Value::Str("second".to_owned()),
    ]);
    let resolved = resolve_action(&pair, &action).unwrap();

    let expected = Value::Arr(vec![Value::Arr(vec![
        Value::Str("first".to_owned()),
        Value::Str("second".to_owned()),
    ])]);
    assert_eq!(Some(&expected), resolved.payload.get("inner"));
}

#[test]
fn foreach_actions_resolves_every_action_for_every_item() {
    let mut payload = Payload::new();
    payload.insert(
        "target".to_owned(),
        Value::Arr(vec![
            Value::Str("first_item".to_owned()),
            Value::Str("second_item".to_owned()),
        ]),
    );

    let mut first_action = Payload::new();
    first_action.insert("id".to_owned(), Value::Str("id_one".to_owned()));
    let mut first_payload = Payload::new();
    first_payload.insert("item".to_owned(), Value::Str("${item}".to_owned()));
    first_action.insert("payload".to_owned(), Value::Obj(first_payload));

    let mut second_action = Payload::new();
    second_action.insert("id".to_owned(), Value::Str("id_two".to_owned()));
    let mut second_payload = Payload::new();
    second_payload.insert(
        "item_with_interpolation".to_owned(),
        Value::Str("a ${item} bb <${item}>".to_owned()),
    );
    second_action.insert("payload".to_owned(), Value::Obj(second_payload));

    payload.insert(
        "actions".to_owned(),
        Value::Arr(vec![Value::Obj(first_action), Value::Obj(second_action)]),
    );

    let out = tornado::foreach::foreach_actions(&payload).unwrap();
    assert_eq!(4, out.len());
    assert_eq!("id_one", out[0].id);
    assert_eq!(Some(&Value::Str("first_item".to_owned())), out[0].payload.get("item"));
    assert_eq!("id_one", out[1].id);
    assert_eq!(Some(&Value::Str("second_item".to_owned())), out[1].payload.get("item"));
    assert_eq!("id_two", out[2].id);
    assert_eq!(
        Some(&Value::Str("a first_item bb <first_item>".to_owned())),
        out[2].payload.get("item_with_interpolation")
    );
    assert_eq!("id_two", out[3].id);
    assert_eq!(
        Some(&Value::Str("a second_item bb <second_item>".to_owned())),
        out[3].payload.get("item_with_interpolation")
    );
}

#[test]
fn foreach_actions_skips_malformed_actions_and_rejects_missing_keys() {
    let mut payload = Payload::new();
    payload.insert(
        "target".to_owned(),
        Value::Arr(vec![Value::Str("item_value".to_owned())]),
    );
    let mut broken = Payload::new();
    broken.insert("id".to_owned(), Value::Str("id_one".to_owned()));
    let mut good = Payload::new();
    good.insert("id".to_owned(), Value::Str("id_two".to_owned()));
    good.insert("payload".to_owned(), Value::Obj(Payload::new()));
    payload.insert(
        "actions".to_owned(),
        Value::Arr(vec![Value::Obj(broken), Value::Obj(good)]),
    );

    let out = tornado::foreach::foreach_actions(&payload).unwrap();
    assert_eq!(1, out.len());
    assert_eq!("id_two", out[0].id);

    let empty = Payload::new();
    let rejected = tornado::foreach::foreach_actions(&empty);
    assert!(matches!(
        rejected,
        Err(tornado::error::ExecutorError::MissingArgumentError { .. })
    ));
}

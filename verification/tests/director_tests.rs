use tornado::director::{parse_action, DirectorAction, DirectorActionName};
use tornado::error::ExecutorError;
use tornado::model::Action;
use tornado::value::{Payload, Value};

#[test]
fn should_fail_if_action_missing() {
    let action = Action::new("");
    let result = parse_action(&action);
    assert_eq!(
        Err(ExecutorError::MissingArgumentError {
            message: "Director Action not specified".to_owned()
        }),
        result
    );
}

#[test]
fn should_throw_error_if_action_payload_is_not_set() {
    let mut action = Action::new("");
    action
        .payload
        .insert("action_name".to_owned(), Value::Str("create_service".to_owned()));
    action
        .payload
        .insert("icinga2_live_creation".to_owned(), Value::Bool(true));
    let result = parse_action(&action);
    assert!(result.is_err());
}

#[test]
fn should_parse_valid_action() {
    let mut action = Action::new("");
    action
        .payload
        .insert("action_name".to_owned(), Value::Str("create_host".to_owned()));
    let mut body = Payload::new();
    body.insert("filter".to_owned(), Value::Str("filter_value".to_owned()));
    body.insert("type".to_owned(), Value::Str("Host".to_owned()));
    action.payload.insert("action_payload".to_owned(), Value::Obj(body));

    let mut expected_body = Payload::new();
    expected_body.insert("filter".to_owned(), Value::Str("filter_value".to_owned()));
    expected_body.insert("type".to_owned(), Value::Str("Host".to_owned()));

    let result = parse_action(&action);
    assert_eq!(
        Ok(DirectorAction {
            name: DirectorActionName::CreateHost,
            payload: Value::Obj(expected_body),
            live_creation: false
        }),
        result
    );
}

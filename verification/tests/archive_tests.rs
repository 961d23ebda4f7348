use tornado::archive::{ArchiveConfig, ArchiveExecutor};
use tornado::value::{Payload, Value};

#[test]
fn should_write_to_expected_path() {
    let config = ArchiveConfig {
        base_path: "base".to_owned(),
        default_path: "/default/file.out".to_owned(),
        paths: vec![("one".to_owned(), "/one/${key_one}/${key_two}.log".to_owned())],
    };
    let archiver = ArchiveExecutor::new(&config);

    let mut payload = Payload::new();
    payload.insert("key_one".to_owned(), Value::Str("first".to_owned()));
    payload.insert("key_two".to_owned(), Value::Str("second".to_owned()));

    assert_eq!(1, archiver.paths.len());
    assert_eq!("one", archiver.paths[0].0);
    let path = archiver.paths[0].1.build_path(&payload).unwrap();
    assert_eq!("/one/first/second.log", path);
}

#[test]
fn should_not_allow_writing_outside_the_base_path() {
    let config = ArchiveConfig {
        base_path: "base".to_owned(),
        default_path: "/default/file.out".to_owned(),
        paths: vec![("one".to_owned(), "/one/${key_one}/${key_two}.log".to_owned())],
    };
    let archiver = ArchiveExecutor::new(&config);
    let matcher = &archiver.paths[0].1;

    let mut climbing = Payload::new();
    climbing.insert("key_one".to_owned(), Value::Str("..".to_owned()));
    climbing.insert("key_two".to_owned(), Value::Str("second".to_owned()));
    assert!(matcher.build_path(&climbing).is_err());

    let mut with_separator = Payload::new();
    with_separator.insert("key_one".to_owned(), Value::Str("a/b".to_owned()));
    with_separator.insert("key_two".to_owned(), Value::Str("second".to_owned()));
    assert!(matcher.build_path(&with_separator).is_err());

    let mut with_backslash = Payload::new();
    with_backslash.insert("key_one".to_owned(), Value::Str("a\\b".to_owned()));
    with_backslash.insert("key_two".to_owned(), Value::Str("second".to_owned()));
    assert!(matcher.build_path(&with_backslash).is_err());

    let mut empty = Payload::new();
    empty.insert("key_one".to_owned(), Value::Str(String::new()));
    empty.insert("key_two".to_owned(), Value::Str("second".to_owned()));
    assert!(matcher.build_path(&empty).is_err());
}

#[test]
fn plan_write_selects_the_type_path_and_falls_back_to_the_default() {
    let config = ArchiveConfig {
        base_path: "base".to_owned(),
        default_path: "default.log".to_owned(),
        paths: vec![("one".to_owned(), "/one/${key_one}.log".to_owned())],
    };
    let archiver = ArchiveExecutor::new(&config);

    let mut payload = Payload::new();
    payload.insert("archive_type".to_owned(), Value::Str("one".to_owned()));
    payload.insert("event".to_owned(), Value::Str("the-event".to_owned()));
    payload.insert("key_one".to_owned(), Value::Str("first".to_owned()));
    let (path, event) = archiver.plan_write(&payload).unwrap();
    assert_eq!("/one/first.log", path);
    assert_eq!(Value::Str("the-event".to_owned()), event);

    let mut unknown_type = Payload::new();
    unknown_type.insert("archive_type".to_owned(), Value::Str("other".to_owned()));
    unknown_type.insert("event".to_owned(), Value::Null);
    let (fallback, _) = archiver.plan_write(&unknown_type).unwrap();
    assert_eq!("default.log", fallback);

    let mut climbing = Payload::new();
    climbing.insert("archive_type".to_owned(), Value::Str("one".to_owned()));
    climbing.insert("event".to_owned(), Value::Null);
    climbing.insert("key_one".to_owned(), Value::Str("..".to_owned()));
    let (guarded, _) = archiver.plan_write(&climbing).unwrap();
    assert_eq!("default.log", guarded);

    let mut no_type = Payload::new();
    no_type.insert("event".to_owned(), Value::Null);
    assert!(archiver.plan_write(&no_type).is_err());

    let mut no_event = Payload::new();
    no_event.insert("archive_type".to_owned(), Value::Str("one".to_owned()));
    assert!(archiver.plan_write(&no_event).is_err());
}

use logstash::{Level, LogStashRecord};
use serde_json::Value;

fn field<'a>(r: &'a LogStashRecord, key: &str) -> Option<&'a Value> {
    r.fields.iter().find(|(k, _)| k == key).map(|(_, v)| v)
}

#[test]
fn new_record_defaults() {
    let r = LogStashRecord::new();
    assert_eq!(r.timestamp, None);
    assert_eq!(r.module, None);
    assert_eq!(r.file, None);
    assert_eq!(r.line, None);
    assert_eq!(r.level, Level::Warn);
    assert_eq!(r.target, "");
    assert!(r.fields.is_empty());
}

#[test]
fn new_with_time_now_is_stamped() {
    let r = LogStashRecord::new_with_time_now();
    let t = r.timestamp.expect("timestamp");
    assert!(t > 1_500_000_000_000);
    assert_eq!(r.level, Level::Warn);
}

#[test]
fn from_record_keeps_metadata_and_message() {
    let r = LogStashRecord::from_record(
        Some("app::net".to_string()),
        Some("src/net.rs".to_string()),
        Some(42),
        Level::Info,
        "app".to_string(),
        "hello".to_string(),
    );
    assert!(r.timestamp.is_some());
    assert_eq!(r.module.as_deref(), Some("app::net"));
    assert_eq!(r.file.as_deref(), Some("src/net.rs"));
    assert_eq!(r.line, Some(42));
    assert_eq!(r.level, Level::Info);
    assert_eq!(r.target, "app");
    assert_eq!(r.fields.len(), 1);
    assert_eq!(field(&r, "message"), Some(&Value::String("hello".to_string())));
}

#[test]
fn add_data_replaces_existing_key() {
    let mut r = LogStashRecord::new();
    r.add_data("a", Value::Bool(true));
    r.add_data("b", Value::Null);
    r.add_data("a", Value::String("x".to_string()));
    assert_eq!(r.fields.len(), 2);
    assert_eq!(field(&r, "a"), Some(&Value::String("x".to_string())));
    assert_eq!(field(&r, "b"), Some(&Value::Null));
}

#[test]
fn add_metadata_prefixes_key() {
    let mut r = LogStashRecord::new();
    r.add_metadata("index", Value::String("logs".to_string()));
    r.add_data("index", Value::Bool(false));
    assert_eq!(r.fields.len(), 2);
    assert_eq!(
        field(&r, "@metadata.index"),
        Some(&Value::String("logs".to_string()))
    );
    assert_eq!(field(&r, "index"), Some(&Value::Bool(false)));
}

#[test]
fn set_timestamp_replaces_time() {
    let mut r = LogStashRecord::new_with_time_now();
    r.set_timestamp(Some(1_000));
    assert_eq!(r.timestamp, Some(1_000));
    r.set_timestamp(None);
    assert_eq!(r.timestamp, None);
}

#[test]
fn default_matches_new() {
    let r = LogStashRecord::default();
    assert_eq!(r.timestamp, None);
    assert_eq!(r.level, Level::Warn);
    assert_eq!(r.target, "");
    assert!(r.fields.is_empty());
}

use mini_redis::command::Command;
use mini_redis::command::Response;
use mini_redis::command::ResponseValue;

#[test]
fn test_response_ok() {
    let resp = Response::ok();
    assert_eq!(resp.status, "ok");
    assert_eq!(resp.message, None);
}

#[test]
fn test_response_error() {
    let resp = Response::error("test error");
    assert_eq!(resp.status, "error");
    assert_eq!(resp.message, Some("test error".to_string()));
}

#[test]
fn test_response_with_value() {
    let resp = Response::ok().with_value(ResponseValue::Str("hello".to_string()));
    assert_eq!(resp.status, "ok");
    assert_eq!(resp.value, Some(ResponseValue::Str("hello".to_string())));
}

#[test]
fn test_command_parsing() {
    assert_eq!(Command::from_str("PING"), Some(Command::Ping));
    assert_eq!(Command::from_str("ping"), Some(Command::Ping));
    assert_eq!(Command::from_str("UNKNOWN"), None);
}

#[test]
fn command_names_ignore_case() {
    assert_eq!(Command::from_str("Set"), Some(Command::SetKey));
    assert_eq!(Command::from_str("expire"), Some(Command::Expire));
    assert_eq!(Command::from_str("dEcR"), Some(Command::Decr));
    assert_eq!(Command::from_str("save"), Some(Command::Save));
    assert_eq!(Command::from_str(""), None);
    assert_eq!(Command::from_str("PING "), None);
}

#[test]
fn command_names_are_exact_before_case_folding() {
    assert_eq!(Command::from_name("KEYS"), Some(Command::Keys));
    assert_eq!(Command::from_name("keys"), None);
    assert_eq!(Command::from_name("TTL"), Some(Command::Ttl));
}

#[test]
fn response_builders_fill_one_field_each() {
    let r = Response::ok().with_count(1);
    assert_eq!(r.count, Some(1));
    assert_eq!(r.value, None);
    let r = Response::ok().with_ttl(-2);
    assert_eq!(r.ttl, Some(-2));
    let r = Response::ok().with_keys(vec!["a".to_string(), "b".to_string()]);
    assert_eq!(r.keys, Some(vec!["a".to_string(), "b".to_string()]));
    assert_eq!(r.message, None);
    let r = Response::ok().with_value(ResponseValue::Int(42));
    assert_eq!(r.value, Some(ResponseValue::Int(42)));
}

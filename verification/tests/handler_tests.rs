use mini_redis::command::Request;
use mini_redis::command::Response;
use mini_redis::command::ResponseValue;
use mini_redis::handler::process_request;
use mini_redis::handler::process_request_at;
use mini_redis::handler::save_reply;
use mini_redis::handler::Outcome;
use mini_redis::store::Entry;
use mini_redis::store::Store;

const SEC: u128 = 1_000_000_000;

fn req(cmd: &str, key: Option<&str>, value: Option<&str>, seconds: Option<i64>) -> Request {
    Request {
        cmd: cmd.to_string(),
        key: key.map(|k| k.to_string()),
        value: value.map(|v| v.to_string()),
        seconds,
    }
}

fn run(store: &mut Store, r: Request, now: u128) -> Response {
    match process_request_at(store, Ok(r), now) {
        Outcome::Reply(resp) => resp,
        other => panic!("unexpected outcome {:?}", other),
    }
}

fn assert_error(resp: &Response, message: &str) {
    assert_eq!(resp.status, "error");
    assert_eq!(resp.message, Some(message.to_string()));
}

#[test]
fn ping_answers_ok() {
    let mut s = Store::new();
    let r = run(&mut s, req("PING", None, None, None), 0);
    assert_eq!(r.status, "ok");
    assert_eq!(r.value, None);
    assert_eq!(r.message, None);
}

#[test]
fn get_after_set() {
    let mut s = Store::new();
    let r = run(&mut s, req("SET", Some("hello"), Some("world"), None), 0);
    assert_eq!(r.status, "ok");
    let r = run(&mut s, req("GET", Some("hello"), None, None), 1);
    assert_eq!(r.value, Some(ResponseValue::Str("world".to_string())));
    run(&mut s, req("set", Some("hello"), Some("again"), None), 2);
    let r = run(&mut s, req("get", Some("hello"), None, None), 3);
    assert_eq!(r.value, Some(ResponseValue::Str("again".to_string())));
}

#[test]
fn get_missing_key_is_null() {
    let mut s = Store::new();
    let r = run(&mut s, req("GET", Some("nope"), None, None), 0);
    assert_eq!(r.status, "ok");
    assert_eq!(r.value, Some(ResponseValue::Null));
}

#[test]
fn del_counts_and_is_idempotent() {
    let mut s = Store::new();
    run(&mut s, req("SET", Some("k"), Some("v"), None), 0);
    let r = run(&mut s, req("DEL", Some("k"), None, None), 0);
    assert_eq!(r.count, Some(1));
    let r = run(&mut s, req("DEL", Some("k"), None, None), 0);
    assert_eq!(r.count, Some(0));
    let r = run(&mut s, req("GET", Some("k"), None, None), 0);
    assert_eq!(r.value, Some(ResponseValue::Null));
}

#[test]
fn keys_are_sorted_and_live() {
    let mut s = Store::new();
    run(&mut s, req("SET", Some("b"), Some("1"), None), 0);
    run(&mut s, req("SET", Some("a"), Some("2"), None), 0);
    run(&mut s, req("SET", Some("c"), Some("3"), None), 0);
    run(&mut s, req("EXPIRE", Some("c"), None, Some(1)), 0);
    let r = run(&mut s, req("KEYS", None, None, None), 0);
    assert_eq!(r.keys, Some(vec!["a".to_string(), "b".to_string(), "c".to_string()]));
    let r = run(&mut s, req("KEYS", None, None, None), SEC);
    assert_eq!(r.keys, Some(vec!["a".to_string(), "b".to_string()]));
    let empty = run(&mut Store::new(), req("KEYS", None, None, None), 0);
    assert_eq!(empty.keys, Some(Vec::new()));
}

#[test]
fn ttl_after_expire() {
    let mut s = Store::new();
    let t = 1000 * SEC;
    run(&mut s, req("SET", Some("k"), Some("v"), None), t);
    let r = run(&mut s, req("TTL", Some("k"), None, None), t);
    assert_eq!(r.ttl, Some(-1));
    let r = run(&mut s, req("EXPIRE", Some("k"), None, Some(30)), t);
    assert_eq!(r.status, "ok");
    let r = run(&mut s, req("TTL", Some("k"), None, None), t);
    assert_eq!(r.ttl, Some(30));
    let r = run(&mut s, req("TTL", Some("k"), None, None), t + 5 * SEC + 1);
    assert_eq!(r.ttl, Some(25));
    let r = run(&mut s, req("TTL", Some("k"), None, None), t + 30 * SEC);
    assert_eq!(r.ttl, Some(-2));
    let r = run(&mut s, req("GET", Some("k"), None, None), t + 30 * SEC);
    assert_eq!(r.value, Some(ResponseValue::Null));
    let r = run(&mut s, req("TTL", Some("missing"), None, None), t);
    assert_eq!(r.ttl, Some(-2));
}

#[test]
fn expire_zero_expires_at_once_and_missing_key_is_ok() {
    let mut s = Store::new();
    run(&mut s, req("SET", Some("k"), Some("v"), None), 10);
    run(&mut s, req("EXPIRE", Some("k"), None, Some(0)), 10);
    let r = run(&mut s, req("GET", Some("k"), None, None), 10);
    assert_eq!(r.value, Some(ResponseValue::Null));
    let r = run(&mut s, req("EXPIRE", Some("nobody"), None, Some(5)), 10);
    assert_eq!(r.status, "ok");
    let r = run(&mut s, req("KEYS", None, None, None), 10);
    assert_eq!(r.keys, Some(Vec::new()));
}

#[test]
fn set_clears_expiry() {
    let mut s = Store::new();
    run(&mut s, req("SET", Some("k"), Some("v"), None), 0);
    run(&mut s, req("EXPIRE", Some("k"), None, Some(5)), 0);
    run(&mut s, req("SET", Some("k"), Some("w"), None), 0);
    let r = run(&mut s, req("TTL", Some("k"), None, None), 0);
    assert_eq!(r.ttl, Some(-1));
}

#[test]
fn incr_and_decr() {
    let mut s = Store::new();
    let r = run(&mut s, req("INCR", Some("n"), None, None), 0);
    assert_eq!(r.value, Some(ResponseValue::Int(1)));
    let r = run(&mut s, req("INCR", Some("n"), None, None), 0);
    assert_eq!(r.value, Some(ResponseValue::Int(2)));
    let r = run(&mut s, req("DECR", Some("m"), None, None), 0);
    assert_eq!(r.value, Some(ResponseValue::Int(-1)));
    run(&mut s, req("SET", Some("x"), Some("007"), None), 0);
    let r = run(&mut s, req("INCR", Some("x"), None, None), 0);
    assert_eq!(r.value, Some(ResponseValue::Int(8)));
    let r = run(&mut s, req("DECR", Some("x"), None, None), 0);
    assert_eq!(r.value, Some(ResponseValue::Int(7)));
    let r = run(&mut s, req("GET", Some("x"), None, None), 0);
    assert_eq!(r.value, Some(ResponseValue::Str("7".to_string())));
}

#[test]
fn incr_on_text_is_refused_and_keeps_value() {
    let mut s = Store::new();
    run(&mut s, req("SET", Some("t"), Some("abc"), None), 0);
    let r = run(&mut s, req("INCR", Some("t"), None, None), 0);
    assert_error(&r, "not an integer");
    let r = run(&mut s, req("GET", Some("t"), None, None), 0);
    assert_eq!(r.value, Some(ResponseValue::Str("abc".to_string())));
}

#[test]
fn incr_resets_expiry() {
    let mut s = Store::new();
    run(&mut s, req("SET", Some("n"), Some("5"), None), 0);
    run(&mut s, req("EXPIRE", Some("n"), None, Some(5)), 0);
    run(&mut s, req("INCR", Some("n"), None, None), 0);
    let r = run(&mut s, req("TTL", Some("n"), None, None), 0);
    assert_eq!(r.ttl, Some(-1));
}

#[test]
fn counter_overflow_is_refused_and_keeps_value() {
    let mut s = Store::new();
    run(&mut s, req("SET", Some("n"), Some("9223372036854775807"), None), 0);
    let r = run(&mut s, req("INCR", Some("n"), None, None), 0);
    assert_error(&r, "increment or decrement would overflow");
    let r = run(&mut s, req("GET", Some("n"), None, None), 0);
    assert_eq!(r.value, Some(ResponseValue::Str("9223372036854775807".to_string())));
    let r = run(&mut s, req("DECR", Some("n"), None, None), 0);
    assert_eq!(r.value, Some(ResponseValue::Int(9223372036854775806)));
    run(&mut s, req("SET", Some("m"), Some("-9223372036854775808"), None), 0);
    let r = run(&mut s, req("DECR", Some("m"), None, None), 0);
    assert_error(&r, "increment or decrement would overflow");
    let r = run(&mut s, req("GET", Some("m"), None, None), 0);
    assert_eq!(r.value, Some(ResponseValue::Str("-9223372036854775808".to_string())));
}

#[test]
fn expire_with_the_largest_seconds_does_not_fail() {
    let mut s = Store::new();
    run(&mut s, req("SET", Some("k"), Some("v"), None), 5);
    let r = run(&mut s, req("EXPIRE", Some("k"), None, Some(i64::MAX)), 5);
    assert_eq!(r.status, "ok");
    let r = run(&mut s, req("TTL", Some("k"), None, None), 5);
    assert_eq!(r.ttl, Some(i64::MAX));
}

#[test]
fn missing_fields_are_errors() {
    let mut s = Store::new();
    for cmd in ["SET", "GET", "DEL", "EXPIRE", "TTL", "INCR", "DECR"] {
        let r = run(&mut s, req(cmd, None, Some("v"), Some(1)), 0);
        assert_error(&r, "missing key");
    }
    let r = run(&mut s, req("SET", Some("k"), None, None), 0);
    assert_error(&r, "missing value");
    let r = run(&mut s, req("EXPIRE", Some("k"), None, None), 0);
    assert_error(&r, "missing seconds");
    let r = run(&mut s, req("EXPIRE", Some("k"), None, Some(-1)), 0);
    assert_error(&r, "seconds must be positive");
    let r = run(&mut s, req("KEYS", None, None, None), 0);
    assert_eq!(r.keys, Some(Vec::new()));
}

#[test]
fn unknown_command_and_bad_json() {
    let mut s = Store::new();
    let r = run(&mut s, req("FLY", None, None, None), 0);
    assert_error(&r, "unknown command");
    match process_request_at(&mut s, Err("invalid json".to_string()), 0) {
        Outcome::Reply(r) => assert_error(&r, "invalid json"),
        other => panic!("unexpected outcome {:?}", other),
    }
}

#[test]
fn save_dumps_live_pairs_in_key_order() {
    let mut s = Store::new();
    run(&mut s, req("SET", Some("b"), Some("2"), None), 0);
    run(&mut s, req("SET", Some("a"), Some("say \"hi\"\n"), None), 0);
    run(&mut s, req("SET", Some("gone"), Some("x"), None), 0);
    run(&mut s, req("EXPIRE", Some("gone"), None, Some(0)), 0);
    run(&mut s, req("SET", Some("tab\tkey"), Some("\u{1}é\\"), None), 0);
    match process_request_at(&mut s, Ok(req("SAVE", None, None, None)), 0) {
        Outcome::Save(dump) => {
            assert_eq!(dump, "{\"a\":\"say \\\"hi\\\"\\n\",\"b\":\"2\",\"tab\\tkey\":\"\\u0001é\\\\\"}");
        },
        other => panic!("unexpected outcome {:?}", other),
    }
    match process_request_at(&mut Store::new(), Ok(req("SAVE", None, None, None)), 0) {
        Outcome::Save(dump) => assert_eq!(dump, "{}"),
        other => panic!("unexpected outcome {:?}", other),
    }
}

#[test]
fn save_reply_reports_failures() {
    let ok = save_reply(None);
    assert_eq!(ok.status, "ok");
    let err = save_reply(Some("disk full".to_string()));
    assert_error(&err, "save failed: disk full");
}

#[test]
fn process_request_reads_the_clock() {
    let mut s = Store::new();
    s.insert("k".to_string(), Entry::with_expiry("v".to_string(), 1));
    match process_request(&mut s, Ok(req("GET", Some("k"), None, None))) {
        Outcome::Reply(r) => assert_eq!(r.value, Some(ResponseValue::Null)),
        other => panic!("unexpected outcome {:?}", other),
    }
}

#[test]
fn purge_then_read_answers_the_same() {
    let mut a = Store::new();
    run(&mut a, req("SET", Some("x"), Some("1"), None), 0);
    run(&mut a, req("SET", Some("y"), Some("2"), None), 0);
    run(&mut a, req("EXPIRE", Some("x"), None, Some(1)), 0);
    let before = run(&mut a, req("KEYS", None, None, None), 2 * SEC);
    a.remove_expired(SEC);
    let after = run(&mut a, req("KEYS", None, None, None), 2 * SEC);
    assert_eq!(before.keys, after.keys);
    assert_eq!(after.keys, Some(vec!["y".to_string()]));
}

#[test]
fn expired_key_counts_as_gone_before_purge() {
    let mut s = Store::new();
    s.insert("k".to_string(), Entry::with_expiry("5".to_string(), 5));
    let r = run(&mut s, req("DEL", Some("k"), None, None), 10);
    assert_eq!(r.count, Some(0));
    assert!(s.get("k").is_none());

    s.insert("k".to_string(), Entry::with_expiry("5".to_string(), 5));
    let r = run(&mut s, req("EXPIRE", Some("k"), None, Some(100)), 10);
    assert_eq!(r.status, "ok");
    let r = run(&mut s, req("GET", Some("k"), None, None), 10);
    assert_eq!(r.value, Some(ResponseValue::Null));
    let r = run(&mut s, req("TTL", Some("k"), None, None), 10);
    assert_eq!(r.ttl, Some(-2));

    let r = run(&mut s, req("INCR", Some("k"), None, None), 10);
    assert_eq!(r.value, Some(ResponseValue::Int(1)));
    s.insert("d".to_string(), Entry::with_expiry("5".to_string(), 5));
    let r = run(&mut s, req("DECR", Some("d"), None, None), 10);
    assert_eq!(r.value, Some(ResponseValue::Int(-1)));
    let r = run(&mut s, req("TTL", Some("d"), None, None), 10);
    assert_eq!(r.ttl, Some(-1));
}

#[test]
fn expired_counter_at_the_limit_does_not_overflow() {
    let mut s = Store::new();
    s.insert("n".to_string(), Entry::with_expiry("9223372036854775807".to_string(), 5));
    let r = run(&mut s, req("INCR", Some("n"), None, None), 10);
    assert_eq!(r.value, Some(ResponseValue::Int(1)));
}

#[test]
fn live_key_still_counts_before_its_deadline() {
    let mut s = Store::new();
    s.insert("k".to_string(), Entry::with_expiry("5".to_string(), 50));
    let r = run(&mut s, req("INCR", Some("k"), None, None), 10);
    assert_eq!(r.value, Some(ResponseValue::Int(6)));
    s.insert("j".to_string(), Entry::with_expiry("v".to_string(), 50));
    let r = run(&mut s, req("DEL", Some("j"), None, None), 10);
    assert_eq!(r.count, Some(1));
}

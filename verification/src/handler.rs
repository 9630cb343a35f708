//! What each request does to the store and what it is answered.

use vstd::prelude::*;
use vstd::string::*;
use vstd::utf8::encode_utf8;
use crate::command::command_named;
use crate::command::error_view;
use crate::command::ok_view;
use crate::command::uppercase_of;
use crate::command::Command;
use crate::command::Request;
use crate::command::RequestView;
use crate::command::Response;
use crate::command::ResponseValue;
use crate::command::ResponseView;
use crate::command::ValueView;
use crate::json::dump_json;
use crate::json::json_object;
use crate::listing::key_listing;
use crate::number::decimal_text;
use crate::number::format_i64;
use crate::number::parse_i64;
use crate::number::parse_i64_spec;
use crate::store::system_time_or_epoch;
use crate::store::expired_at;
use crate::store::live_part;
use crate::store::ttl_at;
use crate::store::Entry;
use crate::store::EntryView;
use crate::store::Store;
use crate::store::NANOS_PER_SEC;

verus! {

/// What the handling of a request asks for: a reply to send, or a dump to save
/// (the reply then depends on whether saving succeeded).
#[derive(Debug)]
pub enum Outcome {
    Reply(Response),
    Save(String),
}

/// An outcome, as plain values.
pub enum OutcomeView {
    Reply(ResponseView),
    Save(Seq<char>),
}

impl View for Outcome {
    type V = OutcomeView;

    open spec fn view(&self) -> OutcomeView {
        match self {
            Outcome::Reply(r) => OutcomeView::Reply(r@),
            Outcome::Save(d) => OutcomeView::Save(d@),
        }
    }
}

/// The abstract store: each key to its entry.
pub type StoreMap = Map<Seq<char>, EntryView>;

/// A success response carrying a value.
pub open spec fn ok_with_value(v: ValueView) -> ResponseView {
    ResponseView { value: Some(v), ..ok_view() }
}

/// The expiry deadline `secs` seconds after `now` (at most `u128::MAX`).
pub open spec fn deadline_after(now: u128, secs: i64) -> u128 {
    if now + secs * (NANOS_PER_SEC as int) > u128::MAX {
        u128::MAX
    } else {
        (now + secs * (NANOS_PER_SEC as int)) as u128
    }
}

/// What `INCR` adds (1) and `DECR` subtracts (-1).
pub open spec fn counter_step(cmd: Command) -> int {
    if cmd == Command::Decr {
        -1
    } else {
        1
    }
}

/// The key has an entry that is not expired at `now`: an expired entry counts
/// as gone, whether or not it has been purged yet.
pub open spec fn is_live(m: StoreMap, k: Seq<char>, now: u128) -> bool {
    m.contains_key(k) && !expired_at(m[k], now)
}

/// The number the entry under `k` holds at `now`, as `INCR` / `DECR` read it:
/// `Some(0)` when there is no live entry (so the counter starts from zero),
/// `None` when the entry does not hold an integer.
pub open spec fn counter_base(m: StoreMap, k: Seq<char>, now: u128) -> Option<int> {
    if is_live(m, k, now) {
        match parse_i64_spec(encode_utf8(m[k].value)) {
            Some(n) => Some(n as int),
            None => None,
        }
    } else {
        Some(0)
    }
}

/// The request is an `INCR` / `DECR` whose result does not fit in an `i64`.
pub open spec fn counter_overflows(cmd: Command, req: RequestView, m: StoreMap, now: u128) -> bool {
    &&& (cmd == Command::Incr || cmd == Command::Decr)
    &&& req.key is Some
    &&& counter_base(m, req.key->0, now) matches Some(n)
    &&& !(i64::MIN <= n + counter_step(cmd) <= i64::MAX)
}

/// The effect of a command on the store, and what it asks to answer, at the
/// point in time `now`.
pub open spec fn execute_spec(cmd: Command, req: RequestView, m: StoreMap, now: u128) -> (StoreMap, OutcomeView) {
    let missing_key = (m, OutcomeView::Reply(error_view("missing key"@)));
    match cmd {
        Command::Ping => (m, OutcomeView::Reply(ok_view())),
        Command::SetKey => match req.key {
            None => missing_key,
            Some(k) => match req.value {
                None => (m, OutcomeView::Reply(error_view("missing value"@))),
                Some(v) => (
                    m.insert(k, EntryView { value: v, expires_at: None }),
                    OutcomeView::Reply(ok_view()),
                ),
            },
        },
        Command::Get => match req.key {
            None => missing_key,
            Some(k) => (
                m,
                OutcomeView::Reply(
                    ok_with_value(
                        if is_live(m, k, now) {
                            ValueView::Str(m[k].value)
                        } else {
                            ValueView::Null
                        },
                    ),
                ),
            ),
        },
        Command::Del => match req.key {
            None => missing_key,
            Some(k) => (
                m.remove(k),
                OutcomeView::Reply(
                    ResponseView { count: Some(if is_live(m, k, now) { 1u32 } else { 0u32 }), ..ok_view() },
                ),
            ),
        },
        Command::Keys => (
            m,
            OutcomeView::Reply(
                ResponseView {
                    keys: Some(
                        key_listing(live_part(m, now)).map_values(|p: (Seq<char>, EntryView)| p.0),
                    ),
                    ..ok_view()
                },
            ),
        ),
        Command::Expire => match req.key {
            None => missing_key,
            Some(k) => match req.seconds {
                None => (m, OutcomeView::Reply(error_view("missing seconds"@))),
                Some(s) => if s < 0 {
                    (m, OutcomeView::Reply(error_view("seconds must be positive"@)))
                } else if is_live(m, k, now) {
                    (
                        m.insert(
                            k,
                            EntryView { value: m[k].value, expires_at: Some(deadline_after(now, s)) },
                        ),
                        OutcomeView::Reply(ok_view()),
                    )
                } else {
                    (m, OutcomeView::Reply(ok_view()))
                },
            },
        },
        Command::Ttl => match req.key {
            None => missing_key,
            Some(k) => (
                m,
                OutcomeView::Reply(
                    ResponseView {
                        ttl: Some(if m.contains_key(k) { ttl_at(m[k], now) } else { -2i64 }),
                        ..ok_view()
                    },
                ),
            ),
        },
        Command::Incr | Command::Decr => match req.key {
            None => missing_key,
            Some(k) => match counter_base(m, k, now) {
                None => (m, OutcomeView::Reply(error_view("not an integer"@))),
                Some(n) => {
                    let next = n + counter_step(cmd);
                    if i64::MIN <= next <= i64::MAX {
                        (
                            m.insert(k, EntryView { value: decimal_text(next), expires_at: None }),
                            OutcomeView::Reply(ok_with_value(ValueView::Int(next as i64))),
                        )
                    } else {
                        (m, OutcomeView::Reply(error_view("increment or decrement would overflow"@)))
                    }
                },
            },
        },
        Command::Save => (m, OutcomeView::Save(json_object(key_listing(live_part(m, now))))),
    }
}

/// The reply to a request that is missing its key.
fn missing_key() -> (r: Outcome)
    ensures
        r@ == OutcomeView::Reply(error_view("missing key"@)),
{
    Outcome::Reply(Response::error("missing key"))
}

/// Runs one command against the store at the point in time `now`.
pub fn execute_command(store: &mut Store, cmd: Command, req: Request, now: u128) -> (r: Outcome)
    requires
        old(store).wf(),
    ensures
        final(store).wf(),
        (final(store)@, r@) == execute_spec(cmd, req@, old(store)@, now),
{
    let ghost rv = req@;
    match cmd {
        Command::Ping => Outcome::Reply(Response::ok()),
        Command::SetKey => {
            let key = match req.key {
                Some(k) => k,
                None => return missing_key(),
            };
            let value = match req.value {
                Some(v) => v,
                None => return Outcome::Reply(Response::error("missing value")),
            };
            store.insert(key, Entry::new(value));
            Outcome::Reply(Response::ok())
        },
        Command::Get => {
            let key = match req.key {
                Some(k) => k,
                None => return missing_key(),
            };
            let value = match store.get(key.as_str()) {
                Some(entry) => {
                    if entry.is_expired_at(now) {
                        ResponseValue::Null
                    } else {
                        ResponseValue::Str(entry.value.clone())
                    }
                },
                None => ResponseValue::Null,
            };
            Outcome::Reply(Response::ok().with_value(value))
        },
        Command::Del => {
            let key = match req.key {
                Some(k) => k,
                None => return missing_key(),
            };
            let count: u32 = match store.remove(key.as_str()) {
                Some(entry) => if entry.is_expired_at(now) {
                    0
                } else {
                    1
                },
                None => 0,
            };
            Outcome::Reply(Response::ok().with_count(count))
        },
        Command::Keys => {
            let keys = store.live_keys(now);
            let r = Response::ok().with_keys(keys);
            Outcome::Reply(r)
        },
        Command::Expire => {
            let key = match req.key {
                Some(k) => k,
                None => return missing_key(),
            };
            let seconds = match req.seconds {
                Some(s) => {
                    if s < 0 {
                        return Outcome::Reply(Response::error("seconds must be positive"));
                    }
                    s
                },
                None => return Outcome::Reply(Response::error("missing seconds")),
            };
            let span = (seconds as u128) * NANOS_PER_SEC;
            let deadline = now.saturating_add(span);
            let live = match store.get(key.as_str()) {
                Some(entry) => !entry.is_expired_at(now),
                None => false,
            };
            if live {
                store.set_expiry(key.as_str(), deadline);
            }
            Outcome::Reply(Response::ok())
        },
        Command::Ttl => {
            let key = match req.key {
                Some(k) => k,
                None => return missing_key(),
            };
            let ttl = match store.get(key.as_str()) {
                Some(entry) => entry.ttl_at(now),
                None => -2,
            };
            Outcome::Reply(Response::ok().with_ttl(ttl))
        },
        Command::Incr | Command::Decr => {
            let key = match req.key {
                Some(k) => k,
                None => return missing_key(),
            };
            let current = match store.get(key.as_str()) {
                Some(entry) => if entry.is_expired_at(now) {
                    None
                } else {
                    Some(entry)
                },
                None => None,
            };
            let next: i64 = match current {
                Some(entry) => match parse_i64(entry.value.as_str()) {
                    Some(n) => {
                        if cmd == Command::Incr {
                            if n == i64::MAX {
                                return Outcome::Reply(Response::error("increment or decrement would overflow"));
                            }
                            n + 1
                        } else {
                            if n == i64::MIN {
                                return Outcome::Reply(Response::error("increment or decrement would overflow"));
                            }
                            n - 1
                        }
                    },
                    None => return Outcome::Reply(Response::error("not an integer")),
                },
                None => if cmd == Command::Incr {
                    1
                } else {
                    -1
                },
            };
            let text = format_i64(next);
            store.insert(key, Entry::new(text));
            Outcome::Reply(Response::ok().with_value(ResponseValue::Int(next)))
        },
        Command::Save => Outcome::Save(dump_json(store, now)),
    }
}

/// A request as it came off the wire: parsed, or the parse error's message.
pub open spec fn parsed_view(parsed: Result<Request, String>) -> Result<RequestView, Seq<char>> {
    match parsed {
        Ok(req) => Ok(req@),
        Err(e) => Err(e@),
    }
}

/// The handling of a request line at `now`: a line that is not a request is
/// answered with the parse error, an unknown command with `unknown command`,
/// and a known command runs.
pub open spec fn request_spec(
    parsed: Result<RequestView, Seq<char>>,
    m: StoreMap,
    now: u128,
) -> (StoreMap, OutcomeView) {
    match parsed {
        Err(e) => (m, OutcomeView::Reply(error_view(e))),
        Ok(req) => match command_named(uppercase_of(req.cmd)) {
            None => (m, OutcomeView::Reply(error_view("unknown command"@))),
            Some(cmd) => execute_spec(cmd, req, m, now),
        },
    }
}

/// Handles a request line at the point in time `now`.
pub fn process_request_at(store: &mut Store, parsed: Result<Request, String>, now: u128) -> (r: Outcome)
    requires
        old(store).wf(),
    ensures
        final(store).wf(),
        (final(store)@, r@) == request_spec(parsed_view(parsed), old(store)@, now),
{
    let req = match parsed {
        Ok(req) => req,
        Err(e) => return Outcome::Reply(Response::error(e.as_str())),
    };
    let cmd = match Command::from_str(req.cmd.as_str()) {
        Some(c) => c,
        None => return Outcome::Reply(Response::error("unknown command")),
    };
    execute_command(store, cmd, req, now)
}

/// Handles a request line now, by the system clock.
pub fn process_request(store: &mut Store, parsed: Result<Request, String>) -> (r: Outcome)
    requires
        old(store).wf(),
    ensures
        final(store).wf(),
        exists|now: u128| (final(store)@, r@) == request_spec(parsed_view(parsed), old(store)@, now),
{
    let now = system_time_or_epoch();
    process_request_at(store, parsed, now)
}

/// The reply to a `SAVE` once the dump was written (`None`) or failed with the
/// given message.
pub fn save_reply(failure: Option<String>) -> (r: Response)
    ensures
        match failure {
            None => r@ == ok_view(),
            Some(e) => r@ == error_view("save failed: "@ + e@),
        },
{
    match failure {
        None => Response::ok(),
        Some(e) => {
            let mut message = String::new();
            message.append("save failed: ");
            message.append(e.as_str());
            Response::error(message.as_str())
        },
    }
}

} // verus!

//! Properties of the store that span several requests.

use vstd::prelude::*;
use crate::command::command_named;
use crate::keyorder::key_lt;
use crate::listing::has_key;
use crate::listing::key_listing;
use crate::listing::map_of;
use crate::listing::sorted_by_key;
use crate::number::parse_i64_spec;
use vstd::utf8::encode_utf8;
use crate::listing::lemma_key_listing_exists;
use crate::listing::lemma_map_of_all;
use crate::command::error_view;
use crate::command::ok_view;
use crate::command::uppercase_of;
use crate::command::Command;
use crate::command::RequestView;
use crate::command::ValueView;
use crate::handler::counter_base;
use crate::handler::counter_overflows;
use crate::handler::deadline_after;
use crate::handler::execute_spec;
use crate::handler::is_live;
use crate::handler::ok_with_value;
use crate::handler::request_spec;
use crate::handler::OutcomeView;
use crate::handler::StoreMap;
use crate::number::decimal_text;
use crate::number::lemma_parse_format_roundtrip;
use crate::store::ceil_secs;
use crate::store::expired_at;
use crate::store::live_part;
use crate::store::ttl_at;
use crate::store::EntryView;
use crate::store::NANOS_PER_SEC;

verus! {

/// A request naming key `k` and nothing else.
pub open spec fn key_request(k: Seq<char>) -> RequestView {
    RequestView { cmd: Seq::empty(), key: Some(k), value: None, seconds: None }
}

/// A `SET`-shaped request: key `k`, value `v`.
pub open spec fn set_request(k: Seq<char>, v: Seq<char>) -> RequestView {
    RequestView { cmd: Seq::empty(), key: Some(k), value: Some(v), seconds: None }
}

/// An `EXPIRE`-shaped request: key `k`, `s` seconds.
pub open spec fn expire_request(k: Seq<char>, s: i64) -> RequestView {
    RequestView { cmd: Seq::empty(), key: Some(k), value: None, seconds: Some(s) }
}

/// A read after a write: after `SET k v`, `GET k` answers `v`, at any later
/// time, whatever the store held before.
pub proof fn law_get_after_set(m: StoreMap, k: Seq<char>, v: Seq<char>, t1: u128, t2: u128)
    ensures
        execute_spec(Command::Get, key_request(k), execute_spec(Command::SetKey, set_request(k, v), m, t1).0, t2).1
            == OutcomeView::Reply(ok_with_value(ValueView::Str(v))),
{
}

/// `SET` clears any expiry: right after it `TTL` answers `-1`.
pub proof fn law_set_clears_expiry(m: StoreMap, k: Seq<char>, v: Seq<char>, t1: u128, t2: u128)
    ensures
        execute_spec(Command::Ttl, key_request(k), execute_spec(Command::SetKey, set_request(k, v), m, t1).0, t2).1
            == OutcomeView::Reply(crate::command::ResponseView { ttl: Some(-1i64), ..ok_view() }),
{
}

/// After `DEL k`, `GET k` answers `null`, and a second `DEL k` counts 0 and
/// changes nothing.
pub proof fn law_delete(m: StoreMap, k: Seq<char>, t1: u128, t2: u128)
    ensures
        ({
            let m1 = execute_spec(Command::Del, key_request(k), m, t1).0;
            &&& execute_spec(Command::Get, key_request(k), m1, t2).1 == OutcomeView::Reply(ok_with_value(ValueView::Null))
            &&& execute_spec(Command::Del, key_request(k), m1, t2).0 == m1
            &&& execute_spec(Command::Del, key_request(k), m1, t2).1 == OutcomeView::Reply(
                crate::command::ResponseView { count: Some(0u32), ..ok_view() },
            )
        }),
{
    assert(m.remove(k).remove(k) =~= m.remove(k));
}

/// Right after `EXPIRE k s` with `s > 0` on a live key, `TTL k` answers `s`.
pub proof fn law_ttl_after_expire(m: StoreMap, k: Seq<char>, s: i64, now: u128)
    requires
        is_live(m, k, now),
        s > 0,
        now + s * (NANOS_PER_SEC as int) <= u128::MAX,
    ensures
        execute_spec(Command::Ttl, key_request(k), execute_spec(Command::Expire, expire_request(k, s), m, now).0, now).1
            == OutcomeView::Reply(crate::command::ResponseView { ttl: Some(s), ..ok_view() }),
{
    let d = deadline_after(now, s);
    assert(d == now + s * 1_000_000_000);
    let r = (d - now) as nat;
    assert(r == s * 1_000_000_000);
    assert(r / 1_000_000_000 == s) by (nonlinear_arith)
        requires
            r == s * 1_000_000_000,
            s > 0,
    ;
    assert(r % 1_000_000_000 == 0) by (nonlinear_arith)
        requires
            r == s * 1_000_000_000,
            s > 0,
    ;
    assert(ceil_secs(r) == s);
}

/// Once the deadline set by `EXPIRE k s` is reached, the key is gone for reads:
/// `GET k` answers `null`, `TTL k` answers `-2`, and `KEYS` leaves it out
/// (whether the key was live, expired or absent when `EXPIRE` came).
pub proof fn law_expired_key_disappears(m: StoreMap, k: Seq<char>, s: i64, t1: u128, t2: u128)
    requires
        s >= 0,
        t2 >= deadline_after(t1, s),
    ensures
        ({
            let m1 = execute_spec(Command::Expire, expire_request(k, s), m, t1).0;
            &&& execute_spec(Command::Get, key_request(k), m1, t2).1 == OutcomeView::Reply(ok_with_value(ValueView::Null))
            &&& execute_spec(Command::Ttl, key_request(k), m1, t2).1 == OutcomeView::Reply(
                crate::command::ResponseView { ttl: Some(-2i64), ..ok_view() },
            )
            &&& !live_part(m1, t2).contains_key(k)
        }),
{
}

/// An expired entry stays expired: expiry is monotone in time.
pub proof fn law_expiry_is_permanent(e: EntryView, t1: u128, t2: u128)
    requires
        expired_at(e, t1),
        t1 <= t2,
    ensures
        expired_at(e, t2),
{
}

/// The time to live of an entry with a pending deadline is the remaining time
/// rounded up to whole seconds: at least 1, and the remaining time lies within
/// the last second it counts.
pub proof fn law_ttl_rounds_up(e: EntryView, now: u128)
    requires
        e.expires_at matches Some(d) && now < d && (d - now) / (NANOS_PER_SEC as int) < i64::MAX,
    ensures
        ttl_at(e, now) >= 1,
        (ttl_at(e, now) - 1) * (NANOS_PER_SEC as int) < e.expires_at->0 - now <= ttl_at(e, now) * (NANOS_PER_SEC as int),
{
    let d = e.expires_at->0;
    let r = (d - now) as nat;
    let q = r / 1_000_000_000;
    let rem = r % 1_000_000_000;
    assert(r == q * 1_000_000_000 + rem && 0 <= rem < 1_000_000_000) by (nonlinear_arith)
        requires
            q == r / 1_000_000_000,
            rem == r % 1_000_000_000,
    ;
}

/// `INCR` then `DECR` on the same key gives back the number the key held: the
/// `DECR` answers it and the key then holds its decimal text.
pub proof fn law_incr_then_decr(m: StoreMap, k: Seq<char>, n: i64, t1: u128, t2: u128)
    requires
        counter_base(m, k, t1) == Some(n as int),
        n < i64::MAX,
    ensures
        ({
            let m1 = execute_spec(Command::Incr, key_request(k), m, t1).0;
            let (m2, out) = execute_spec(Command::Decr, key_request(k), m1, t2);
            &&& !counter_overflows(Command::Incr, key_request(k), m, t1)
            &&& !counter_overflows(Command::Decr, key_request(k), m1, t2)
            &&& out == OutcomeView::Reply(ok_with_value(ValueView::Int(n)))
            &&& m2 == m.insert(k, EntryView { value: decimal_text(n as int), expires_at: None })
        }),
{
    let n1 = (n + 1) as i64;
    lemma_parse_format_roundtrip(n1);
    let m1 = execute_spec(Command::Incr, key_request(k), m, t1).0;
    assert(m1 == m.insert(k, EntryView { value: decimal_text(n1 as int), expires_at: None }));
    assert(counter_base(m1, k, t2) == Some(n1 as int));
    assert(m1.insert(k, EntryView { value: decimal_text(n as int), expires_at: None }) =~= m.insert(
        k,
        EntryView { value: decimal_text(n as int), expires_at: None },
    ));
}

/// The entries of a finite store that are not expired form a finite map.
pub proof fn lemma_live_part_finite(m: StoreMap, now: u128)
    requires
        m.dom().finite(),
    ensures
        live_part(m, now).dom().finite(),
{
    let live = m.dom().filter(|k: Seq<char>| !expired_at(m[k], now));
    assert(live_part(m, now).dom() =~= live);
    m.dom().lemma_len_filter(|k: Seq<char>| !expired_at(m[k], now));
}

/// `KEYS` answers every key that is not expired, exactly once, in increasing
/// key order.
pub proof fn law_keys_lists_live_keys(req: RequestView, m: StoreMap, now: u128)
    requires
        m.dom().finite(),
    ensures
        execute_spec(Command::Keys, req, m, now).1 matches OutcomeView::Reply(r) && r.keys matches Some(ks) && {
            &&& forall|i: int, j: int| 0 <= i < j < ks.len() ==> key_lt(#[trigger] ks[i], #[trigger] ks[j])
            &&& forall|k: Seq<char>|
                (m.contains_key(k) && (m[k].expires_at is None || now < m[k].expires_at->0)) <==> exists|i: int|
                    0 <= i < ks.len() && #[trigger] ks[i] == k
        },
{
    lemma_live_part_finite(m, now);
    let live = live_part(m, now);
    lemma_key_listing_exists(live);
    let ls = key_listing(live);
    let ks = ls.map_values(|p: (Seq<char>, EntryView)| p.0);
    lemma_map_of_all(ls);
    assert forall|i: int, j: int| 0 <= i < j < ks.len() implies key_lt(#[trigger] ks[i], #[trigger] ks[j]) by {
        assert(ks[i] == ls[i].0);
        assert(ks[j] == ls[j].0);
    }
    assert forall|k: Seq<char>| live.contains_key(k) implies exists|i: int| 0 <= i < ks.len() && #[trigger] ks[i] == k by {
        let i = choose|i: int| 0 <= i < ls.len() && #[trigger] ls[i].0 == k;
        assert(ks[i] == k);
    }
    assert forall|k: Seq<char>| (exists|i: int| 0 <= i < ks.len() && #[trigger] ks[i] == k) implies live.contains_key(k) by {
        let i = choose|i: int| 0 <= i < ks.len() && #[trigger] ks[i] == k;
        assert(ls[i].0 == k);
    }
    assert forall|k: Seq<char>|
        live.contains_key(k) == (m.contains_key(k) && (m[k].expires_at is None || now < m[k].expires_at->0)) by {
        if m.contains_key(k) {
            assert(!expired_at(m[k], now) == (m[k].expires_at is None || now < m[k].expires_at->0));
        }
    }
}

/// `DEL k` counts 1 exactly when `k` has a live entry (an expired entry counts
/// as gone), and afterwards there is no entry under `k`.
pub proof fn law_delete_counts_live_keys(m: StoreMap, k: Seq<char>, now: u128)
    ensures
        execute_spec(Command::Del, key_request(k), m, now).1 == OutcomeView::Reply(
            crate::command::ResponseView { count: Some(if is_live(m, k, now) { 1u32 } else { 0u32 }), ..ok_view() },
        ),
        !execute_spec(Command::Del, key_request(k), m, now).0.contains_key(k),
{
}

/// `EXPIRE` does not bring back a key that is absent or already expired: the
/// store is left as it was, so the key stays invisible.
pub proof fn law_expire_does_not_revive(m: StoreMap, k: Seq<char>, s: i64, now: u128)
    requires
        !is_live(m, k, now),
    ensures
        execute_spec(Command::Expire, expire_request(k, s), m, now).0 == m,
{
}

/// A counter without a live entry (absent or expired) starts again from zero:
/// `INCR` answers 1 and `DECR` answers -1, and the key then holds that number
/// with no expiry.
pub proof fn law_counter_restarts(m: StoreMap, k: Seq<char>, now: u128)
    requires
        !is_live(m, k, now),
    ensures
        execute_spec(Command::Incr, key_request(k), m, now) == (
            m.insert(k, EntryView { value: decimal_text(1), expires_at: None }),
            OutcomeView::Reply(ok_with_value(ValueView::Int(1i64))),
        ),
        execute_spec(Command::Decr, key_request(k), m, now) == (
            m.insert(k, EntryView { value: decimal_text(-1), expires_at: None }),
            OutcomeView::Reply(ok_with_value(ValueView::Int(-1i64))),
        ),
{
}

/// A request naming a known command (in any case) does exactly what that
/// command does.
pub proof fn law_request_runs_its_command(req: RequestView, m: StoreMap, now: u128)
    requires
        command_named(uppercase_of(req.cmd)) is Some,
    ensures
        request_spec(Ok(req), m, now) == execute_spec(command_named(uppercase_of(req.cmd))->0, req, m, now),
{
}

/// Reads do not change the store: `PING`, `GET`, `KEYS`, `TTL` and `SAVE`
/// leave it as it was.
pub proof fn law_reads_keep_store(cmd: Command, req: RequestView, m: StoreMap, now: u128)
    requires
        cmd == Command::Ping || cmd == Command::Get || cmd == Command::Keys || cmd == Command::Ttl
            || cmd == Command::Save,
    ensures
        execute_spec(cmd, req, m, now).0 == m,
{
}

/// A refused request changes nothing: whenever the answer is an error, the store
/// is left as it was.
pub proof fn law_refusal_keeps_store(parsed: Result<RequestView, Seq<char>>, m: StoreMap, now: u128)
    ensures
        ({
            let (m2, out) = request_spec(parsed, m, now);
            (out matches OutcomeView::Reply(r) && r.status == "error"@) ==> m2 == m
        }),
{
    reveal_strlit("ok");
    reveal_strlit("error");
    assert("ok"@.len() != "error"@.len());
}

/// An `INCR` / `DECR` whose result would leave the range of `i64` is refused
/// with an error and changes nothing.
pub proof fn law_counter_overflow_refused(cmd: Command, req: RequestView, m: StoreMap, now: u128)
    requires
        counter_overflows(cmd, req, m, now),
    ensures
        execute_spec(cmd, req, m, now) == (
            m,
            OutcomeView::Reply(error_view("increment or decrement would overflow"@)),
        ),
{
}

/// A line that is not a request is answered with its parse error; a request
/// naming no known command is answered `unknown command`.
pub proof fn law_unknown_requests(parsed: Result<RequestView, Seq<char>>, m: StoreMap, now: u128)
    ensures
        parsed matches Err(e) ==> request_spec(parsed, m, now) == (m, OutcomeView::Reply(error_view(e))),
        parsed matches Ok(req) && command_named(uppercase_of(req.cmd)) is None ==> request_spec(parsed, m, now)
            == (m, OutcomeView::Reply(error_view("unknown command"@))),
{
}

/// Purging expired entries cannot be observed by reads: at the purge time or
/// later, `GET`, `TTL`, `KEYS` and `SAVE` answer the same with or without it.
pub proof fn law_purge_is_invisible(cmd: Command, req: RequestView, m: StoreMap, t1: u128, t2: u128)
    requires
        cmd == Command::Get || cmd == Command::Ttl || cmd == Command::Keys || cmd == Command::Save,
        t1 <= t2,
    ensures
        execute_spec(cmd, req, live_part(m, t1), t2).1 == execute_spec(cmd, req, m, t2).1,
{
    assert(live_part(live_part(m, t1), t2) =~= live_part(m, t2));
}

/// `GET k` answers the stored value exactly when `k` has an entry whose
/// deadline, if it has one, is still ahead; otherwise it answers `null`. It
/// never changes the store.
pub proof fn law_get_answers_value_before_deadline(m: StoreMap, k: Seq<char>, now: u128)
    ensures
        (m.contains_key(k) && (m[k].expires_at is None || now < m[k].expires_at->0)) ==> execute_spec(
            Command::Get,
            key_request(k),
            m,
            now,
        ).1 == OutcomeView::Reply(ok_with_value(ValueView::Str(m[k].value))),
        !(m.contains_key(k) && (m[k].expires_at is None || now < m[k].expires_at->0)) ==> execute_spec(
            Command::Get,
            key_request(k),
            m,
            now,
        ).1 == OutcomeView::Reply(ok_with_value(ValueView::Null)),
        execute_spec(Command::Get, key_request(k), m, now).0 == m,
{
}

/// `EXPIRE k s` on a live key keeps its value and gives it the deadline `s`
/// seconds after now, and touches no other key; until that deadline, `GET k`
/// still answers the value stored before.
pub proof fn law_expire_keeps_value_until_deadline(m: StoreMap, k: Seq<char>, s: i64, now: u128, t: u128)
    requires
        m.contains_key(k),
        m[k].expires_at is None || now < m[k].expires_at->0,
        s >= 0,
        now + s * 1_000_000_000 <= u128::MAX,
        now <= t < now + s * 1_000_000_000,
    ensures
        execute_spec(Command::Expire, expire_request(k, s), m, now).0 == m.insert(
            k,
            EntryView { value: m[k].value, expires_at: Some((now + s * 1_000_000_000) as u128) },
        ),
        execute_spec(Command::Get, key_request(k), execute_spec(Command::Expire, expire_request(k, s), m, now).0, t).1
            == OutcomeView::Reply(ok_with_value(ValueView::Str(m[k].value))),
{
}

/// A command that names a key changes nothing under any other key: every other
/// key has an entry afterwards exactly when it had one before, and the same one.
pub proof fn law_commands_touch_only_their_key(
    cmd: Command,
    req: RequestView,
    m: StoreMap,
    now: u128,
    k: Seq<char>,
    j: Seq<char>,
)
    requires
        req.key == Some(k),
        j != k,
    ensures
        execute_spec(cmd, req, m, now).0.contains_key(j) == m.contains_key(j),
        m.contains_key(j) ==> execute_spec(cmd, req, m, now).0[j] == m[j],
{
}

/// `SET k v` stores `v` under `k` with no deadline, answers ok, and leaves the
/// other keys as they were.
pub proof fn law_set_stores_value(m: StoreMap, k: Seq<char>, v: Seq<char>, now: u128)
    ensures
        execute_spec(Command::SetKey, set_request(k, v), m, now) == (
            m.insert(k, EntryView { value: v, expires_at: None }),
            OutcomeView::Reply(ok_view()),
        ),
{
}

/// `TTL k` answers `-2` when `k` has no entry or its deadline has been reached,
/// `-1` when its entry has no deadline, and otherwise the whole seconds left,
/// rounded up: at least 1, with the time left within the last second counted.
/// It never changes the store.
pub proof fn law_ttl_answers(m: StoreMap, k: Seq<char>, now: u128)
    ensures
        execute_spec(Command::Ttl, key_request(k), m, now).0 == m,
        execute_spec(Command::Ttl, key_request(k), m, now).1 matches OutcomeView::Reply(r) && r.ttl matches Some(
            t,
        ) && r.status == ok_view().status && {
            &&& !m.contains_key(k) ==> t == -2
            &&& m.contains_key(k) && m[k].expires_at is None ==> t == -1
            &&& (m.contains_key(k) && m[k].expires_at is Some && now >= m[k].expires_at->0) ==> t == -2
            &&& (m.contains_key(k) && m[k].expires_at is Some && now < m[k].expires_at->0 && (
            m[k].expires_at->0 - now) / 1_000_000_000 < i64::MAX) ==> t >= 1 && (t - 1) * 1_000_000_000
                < m[k].expires_at->0 - now <= t * 1_000_000_000
        },
{
    if m.contains_key(k) && m[k].expires_at is Some {
        let e = m[k];
        let d = e.expires_at->0;
        if now < d && (d - now) / 1_000_000_000 < i64::MAX {
            law_ttl_rounds_up(e, now);
        }
    }
}

/// `EXPIRE` with a negative number of seconds is refused and changes nothing.
pub proof fn law_expire_rejects_negative_seconds(m: StoreMap, k: Seq<char>, s: i64, now: u128)
    requires
        s < 0,
    ensures
        execute_spec(Command::Expire, expire_request(k, s), m, now) == (
            m,
            OutcomeView::Reply(error_view("seconds must be positive"@)),
        ),
{
}

/// `DEL k` removes the entry under `k` and nothing else.
pub proof fn law_delete_removes_only_its_key(m: StoreMap, k: Seq<char>, now: u128)
    ensures
        execute_spec(Command::Del, key_request(k), m, now).0 == m.remove(k),
{
}

/// `INCR k` on a live entry holding the integer `n` answers `n + 1` and stores
/// it (with no expiry); `DECR k` answers and stores `n - 1`. The text stored
/// reads back as the number answered, for negative and positive `n` alike.
pub proof fn law_counter_answers_new_value(m: StoreMap, k: Seq<char>, n: i64, now: u128)
    requires
        m.contains_key(k),
        m[k].expires_at is None || now < m[k].expires_at->0,
        parse_i64_spec(encode_utf8(m[k].value)) == Some(n),
    ensures
        n < i64::MAX ==> execute_spec(Command::Incr, key_request(k), m, now) == (
            m.insert(k, EntryView { value: decimal_text(n + 1), expires_at: None }),
            OutcomeView::Reply(ok_with_value(ValueView::Int((n + 1) as i64))),
        ),
        n < i64::MAX ==> parse_i64_spec(
            encode_utf8(execute_spec(Command::Incr, key_request(k), m, now).0[k].value),
        ) == Some((n + 1) as i64),
        n > i64::MIN ==> execute_spec(Command::Decr, key_request(k), m, now) == (
            m.insert(k, EntryView { value: decimal_text(n - 1), expires_at: None }),
            OutcomeView::Reply(ok_with_value(ValueView::Int((n - 1) as i64))),
        ),
        n > i64::MIN ==> parse_i64_spec(
            encode_utf8(execute_spec(Command::Decr, key_request(k), m, now).0[k].value),
        ) == Some((n - 1) as i64),
{
    if n < i64::MAX {
        lemma_parse_format_roundtrip((n + 1) as i64);
    }
    if n > i64::MIN {
        lemma_parse_format_roundtrip((n - 1) as i64);
    }
}

/// `SAVE` at `now` dumps exactly the entries whose deadline, if any, is still
/// ahead of `now`: the dump is the JSON object of a key-ordered listing that
/// holds each such key with its value, and no other key.
pub proof fn law_save_dumps_live_entries(req: RequestView, m: StoreMap, now: u128)
    requires
        m.dom().finite(),
    ensures
        exists|ls: Seq<(Seq<char>, EntryView)>|
            {
                &&& sorted_by_key(ls)
                &&& forall|k: Seq<char>|
                    has_key(ls, k) <==> (m.contains_key(k) && (m[k].expires_at is None || now
                        < m[k].expires_at->0))
                &&& forall|i: int| 0 <= i < ls.len() ==> #[trigger] ls[i].1 == m[ls[i].0]
                &&& execute_spec(Command::Save, req, m, now) == (m, OutcomeView::Save(
                    crate::json::json_object(ls),
                ))
            },
{
    lemma_live_part_finite(m, now);
    let live = live_part(m, now);
    lemma_key_listing_exists(live);
    let ls = key_listing(live);
    lemma_map_of_all(ls);
    assert forall|k: Seq<char>|
        has_key(ls, k) <==> (m.contains_key(k) && (m[k].expires_at is None || now < m[k].expires_at->0)) by {
        assert(map_of(ls) == live);
        assert(has_key(ls, k) == map_of(ls).contains_key(k));
        assert(live.contains_key(k) == (m.contains_key(k) && !expired_at(m[k], now)));
        if m.contains_key(k) {
            assert(!expired_at(m[k], now) == (m[k].expires_at is None || now < m[k].expires_at->0));
        }
    }
    assert forall|i: int| 0 <= i < ls.len() implies #[trigger] ls[i].1 == m[ls[i].0] by {
        assert(live[ls[i].0] == ls[i].1);
    }
}

} // verus!

//! Entries with optional expiry deadlines, and the store that maps keys to them.
//!
//! Points in time are counts of nanoseconds on one clock. The functions that
//! take the time as an argument work with any clock; those that read the clock
//! themselves (`Entry::is_expired`, `Entry::ttl`, and the request and purge
//! functions without a time argument) use the system clock, counted from the
//! Unix epoch. An entry whose deadline has been reached is expired.

use vstd::prelude::*;
use crate::keyorder::compare_keys;
use crate::keyorder::key_lt;
use crate::keyorder::lemma_key_lt_irreflexive;
use crate::keyorder::lemma_key_lt_transitive;
use crate::keyorder::KeyOrder;
use crate::listing::key_listing;
use crate::listing::lemma_key_listing;
use crate::listing::lemma_map_of_all;
use crate::listing::lemma_map_of_index;
use crate::listing::lemma_map_of_insert;
use crate::listing::lemma_map_of_remove;
use crate::listing::lemma_map_of_update;
use crate::listing::map_of;
use crate::listing::sorted_by_key;

verus! {

/// Nanoseconds in one second.
pub const NANOS_PER_SEC: u128 = 1_000_000_000;

/// What an entry holds, as plain values.
pub struct EntryView {
    pub value: Seq<char>,
    pub expires_at: Option<u128>,
}

/// A stored value, with the point in time (in nanoseconds) at which it
/// expires, if any.
#[derive(Debug, Clone)]
pub struct Entry {
    /// The stored text (read as an integer by `INCR` / `DECR`).
    pub value: String,
    /// The expiry deadline, `None` when the entry never expires.
    pub expires_at: Option<u128>,
}

impl View for Entry {
    type V = EntryView;

    open spec fn view(&self) -> EntryView {
        EntryView { value: self.value@, expires_at: self.expires_at }
    }
}

/// An entry is expired at `now` once its deadline has been reached.
pub open spec fn expired_at(e: EntryView, now: u128) -> bool {
    match e.expires_at {
        Some(deadline) => now >= deadline,
        None => false,
    }
}

/// Whole seconds needed to cover `nanos` nanoseconds (rounded up).
pub open spec fn ceil_secs(nanos: nat) -> nat {
    nanos / (NANOS_PER_SEC as nat) + if nanos % (NANOS_PER_SEC as nat) > 0 { 1nat } else { 0nat }
}

/// The time to live of an entry at `now`: `-1` when it never expires, `-2` once
/// it has expired, otherwise the remaining time in seconds rounded up (at most
/// `i64::MAX`).
pub open spec fn ttl_at(e: EntryView, now: u128) -> i64 {
    if expired_at(e, now) {
        -2i64
    } else {
        match e.expires_at {
            None => -1i64,
            Some(deadline) => {
                let secs = ceil_secs((deadline - now) as nat);
                if secs > i64::MAX { i64::MAX } else { secs as i64 }
            },
        }
    }
}

/// Reads the system clock through `SystemTime::elapsed` on `UNIX_EPOCH`:
/// nanoseconds since the Unix epoch, `None` when the clock is set before it.
/// Nothing is promised of the value: it is whatever the clock shows.
#[verifier::external_body]
fn clock_now() -> (t: Option<u128>) {
    match std::time::UNIX_EPOCH.elapsed() {
        Ok(d) => Some(d.as_nanos()),
        Err(_) => None,
    }
}

/// The current point in time by the system clock, in nanoseconds since the
/// Unix epoch; a clock set before the epoch reads as the epoch itself.
pub(crate) fn system_time_or_epoch() -> (t: u128) {
    match clock_now() {
        Some(t) => t,
        None => 0,
    }
}

impl Entry {
    /// An entry that never expires.
    pub fn new(value: String) -> (r: Entry)
        ensures
            r@ == (EntryView { value: value@, expires_at: None }),
    {
        Entry { value, expires_at: None }
    }

    /// An entry that expires at the point in time `expires_at` (in nanoseconds).
    pub fn with_expiry(value: String, expires_at: u128) -> (r: Entry)
        ensures
            r@ == (EntryView { value: value@, expires_at: Some(expires_at) }),
    {
        Entry { value, expires_at: Some(expires_at) }
    }

    /// Whether the entry is expired at the point in time `now`.
    pub fn is_expired_at(&self, now: u128) -> (r: bool)
        ensures
            r == expired_at(self@, now),
    {
        match self.expires_at {
            Some(deadline) => now >= deadline,
            None => false,
        }
    }

    /// Whether the entry is expired now, by the system clock.
    pub fn is_expired(&self) -> (r: bool)
        ensures
            exists|now: u128| r == expired_at(self@, now),
            self.expires_at is None ==> !r,
    {
        let now = system_time_or_epoch();
        self.is_expired_at(now)
    }

    /// The time to live of the entry at the point in time `now`.
    pub fn ttl_at(&self, now: u128) -> (r: i64)
        ensures
            r == ttl_at(self@, now),
    {
        if self.is_expired_at(now) {
            return -2;
        }
        match self.expires_at {
            None => -1,
            Some(deadline) => {
                let remaining = deadline - now;
                let secs = remaining / NANOS_PER_SEC;
                let ceil = if remaining % NANOS_PER_SEC > 0 { secs + 1 } else { secs };
                if ceil > 9223372036854775807u128 {
                    i64::MAX
                } else {
                    ceil as i64
                }
            },
        }
    }

    /// The time to live of the entry now, by the system clock: `-1` without
    /// expiry, `-2` once expired, else the remaining seconds rounded up.
    pub fn ttl(&self) -> (r: i64)
        ensures
            exists|now: u128| r == ttl_at(self@, now),
            self.expires_at is None ==> r == -1,
    {
        let now = system_time_or_epoch();
        self.ttl_at(now)
    }
}

/// The entries of a store that are not expired at `now`.
pub open spec fn live_part(m: Map<Seq<char>, EntryView>, now: u128) -> Map<Seq<char>, EntryView> {
    Map::new(|k: Seq<char>| m.contains_key(k) && !expired_at(m[k], now), |k: Seq<char>| m[k])
}

/// The (key, entry) pairs of a vector, as plain values.
pub open spec fn listing_of(v: Seq<(String, Entry)>) -> Seq<(Seq<char>, EntryView)> {
    v.map_values(|p: (String, Entry)| (p.0@, p.1@))
}

/// The key/value store: a map from keys to entries, kept as a vector of
/// (key, entry) pairs in increasing key order.
pub struct Store {
    entries: Vec<(String, Entry)>,
}

impl View for Store {
    type V = Map<Seq<char>, EntryView>;

    closed spec fn view(&self) -> Map<Seq<char>, EntryView> {
        map_of(listing_of(self.entries@))
    }
}

impl Store {
    /// The pairs of the store in their order.
    closed spec fn listing(&self) -> Seq<(Seq<char>, EntryView)> {
        listing_of(self.entries@)
    }

    /// Well-formedness: the keys strictly increase, so each key occurs once.
    pub closed spec fn wf(&self) -> bool {
        sorted_by_key(self.listing())
    }

    /// A store holds finitely many keys.
    pub proof fn lemma_finite(&self)
        ensures
            self@.dom().finite(),
    {
        crate::listing::lemma_map_of_finite(self.listing());
    }

    /// An empty store.
    pub fn new() -> (r: Store)
        ensures
            r.wf(),
            r@ == Map::<Seq<char>, EntryView>::empty(),
    {
        let r = Store { entries: Vec::new() };
        assert(r.listing() =~= Seq::empty());
        assert(r@ =~= Map::<Seq<char>, EntryView>::empty());
        r
    }

    /// Where `key` is, or where it would go.
    fn find(&self, key: &str) -> (r: Result<usize, usize>)
        requires
            self.wf(),
        ensures
            match r {
                Ok(i) => i < self.entries@.len() && self.listing()[i as int].0 == key@,
                Err(p) => {
                    &&& p <= self.entries@.len()
                    &&& forall|i: int| 0 <= i < p ==> key_lt(#[trigger] self.listing()[i].0, key@)
                    &&& forall|i: int|
                        p <= i < self.entries@.len() ==> key_lt(key@, #[trigger] self.listing()[i].0)
                },
            },
    {
        let mut lo: usize = 0;
        let mut hi: usize = self.entries.len();
        while lo < hi
            invariant
                self.wf(),
                lo <= hi <= self.entries@.len(),
                forall|i: int| 0 <= i < lo ==> key_lt(#[trigger] self.listing()[i].0, key@),
                forall|i: int| hi <= i < self.entries@.len() ==> key_lt(key@, #[trigger] self.listing()[i].0),
            decreases hi - lo,
        {
            let mid = lo + (hi - lo) / 2;
            let ghost ls = self.listing();
            assert(ls[mid as int].0 == self.entries@[mid as int].0@);
            let c = compare_keys(self.entries[mid].0.as_str(), key);
            match c {
                KeyOrder::Equal => {
                    return Ok(mid);
                },
                KeyOrder::Less => {
                    assert forall|i: int| 0 <= i < mid + 1 implies key_lt(#[trigger] ls[i].0, key@) by {
                        if i < mid {
                            lemma_key_lt_transitive(ls[i].0, ls[mid as int].0, key@);
                        }
                    }
                    lo = mid + 1;
                },
                KeyOrder::Greater => {
                    assert forall|i: int| mid <= i < self.entries@.len() implies key_lt(key@, #[trigger] ls[i].0) by {
                        if i > mid {
                            lemma_key_lt_transitive(key@, ls[mid as int].0, ls[i].0);
                        }
                    }
                    hi = mid;
                },
            }
        }
        Err(lo)
    }

    /// A key that sits at no position is not in the store.
    proof fn lemma_absent(&self, key: Seq<char>, p: int)
        requires
            self.wf(),
            0 <= p <= self.entries@.len(),
            forall|i: int| 0 <= i < p ==> key_lt(#[trigger] self.listing()[i].0, key),
            forall|i: int| p <= i < self.entries@.len() ==> key_lt(key, #[trigger] self.listing()[i].0),
        ensures
            !self@.contains_key(key),
    {
        if self@.contains_key(key) {
            let j = choose|j: int| 0 <= j < self.listing().len() && #[trigger] self.listing()[j].0 == key;
            lemma_key_lt_irreflexive(key);
        }
    }

    /// The entry stored under `key`, if any.
    pub fn get(&self, key: &str) -> (r: Option<&Entry>)
        requires
            self.wf(),
        ensures
            match r {
                Some(e) => self@.contains_key(key@) && self@[key@] == e@,
                None => !self@.contains_key(key@),
            },
    {
        match self.find(key) {
            Ok(i) => {
                proof {
                    lemma_map_of_index(self.listing(), i as int);
                }
                Some(&self.entries[i].1)
            },
            Err(p) => {
                proof {
                    self.lemma_absent(key@, p as int);
                }
                None
            },
        }
    }

    /// Stores `entry` under `key`, replacing what was there.
    pub fn insert(&mut self, key: String, entry: Entry)
        requires
            old(self).wf(),
        ensures
            final(self).wf(),
            final(self)@ == old(self)@.insert(key@, entry@),
    {
        let ghost ls = self.listing();
        let ghost k = key@;
        let ghost e = entry@;
        match self.find(key.as_str()) {
            Ok(i) => {
                self.entries.set(i, (key, entry));
                proof {
                    assert(self.listing() =~= ls.update(i as int, (ls[i as int].0, e)));
                    lemma_map_of_update(ls, i as int, e);
                }
            },
            Err(p) => {
                self.entries.insert(p, (key, entry));
                proof {
                    assert(self.listing() =~= ls.insert(p as int, (k, e)));
                    lemma_map_of_insert(ls, p as int, k, e);
                }
            },
        }
    }

    /// Removes `key`, handing back its entry if it was there.
    pub fn remove(&mut self, key: &str) -> (r: Option<Entry>)
        requires
            old(self).wf(),
        ensures
            final(self).wf(),
            final(self)@ == old(self)@.remove(key@),
            match r {
                Some(e) => old(self)@.contains_key(key@) && old(self)@[key@] == e@,
                None => !old(self)@.contains_key(key@),
            },
    {
        let ghost ls = self.listing();
        match self.find(key) {
            Ok(i) => {
                proof {
                    lemma_map_of_index(ls, i as int);
                }
                let (_, e) = self.entries.remove(i);
                proof {
                    assert(self.listing() =~= ls.remove(i as int));
                    lemma_map_of_remove(ls, i as int);
                }
                Some(e)
            },
            Err(p) => {
                proof {
                    self.lemma_absent(key@, p as int);
                    assert(self@ =~= old(self)@.remove(key@));
                }
                None
            },
        }
    }

    /// Gives the entry under `key` the expiry deadline `deadline`; `false`
    /// (and no change) when there is no such entry.
    pub fn set_expiry(&mut self, key: &str, deadline: u128) -> (r: bool)
        requires
            old(self).wf(),
        ensures
            final(self).wf(),
            r == old(self)@.contains_key(key@),
            r ==> final(self)@ == old(self)@.insert(
                key@,
                EntryView { value: old(self)@[key@].value, expires_at: Some(deadline) },
            ),
            !r ==> final(self)@ == old(self)@,
    {
        let ghost ls = self.listing();
        match self.find(key) {
            Ok(i) => {
                proof {
                    lemma_map_of_index(ls, i as int);
                }
                let (k, e) = self.entries.remove(i);
                let ghost v = EntryView { value: e.value@, expires_at: Some(deadline) };
                self.entries.insert(i, (k, Entry { value: e.value, expires_at: Some(deadline) }));
                proof {
                    assert(self.listing() =~= ls.update(i as int, (ls[i as int].0, v)));
                    lemma_map_of_update(ls, i as int, v);
                }
                true
            },
            Err(p) => {
                proof {
                    self.lemma_absent(key@, p as int);
                }
                false
            },
        }
    }

    /// Copies of the entries that are not expired at `now`, in key order.
    pub fn live_entries(&self, now: u128) -> (r: Vec<(String, Entry)>)
        requires
            self.wf(),
        ensures
            sorted_by_key(listing_of(r@)),
            map_of(listing_of(r@)) == live_part(self@, now),
            listing_of(r@) == key_listing(live_part(self@, now)),
    {
        let ghost ls = self.listing();
        let mut out: Vec<(String, Entry)> = Vec::new();
        let ghost mut src: Seq<int> = Seq::empty();
        let n = self.entries.len();
        let mut i: usize = 0;
        while i < n
            invariant
                self.wf(),
                ls == self.listing(),
                n == self.entries@.len(),
                i <= n,
                src.len() == out@.len(),
                forall|a: int| 0 <= a < src.len() ==> 0 <= #[trigger] src[a] < i,
                forall|a: int, b: int| 0 <= a < b < src.len() ==> #[trigger] src[a] < #[trigger] src[b],
                forall|a: int| 0 <= a < src.len() ==> #[trigger] listing_of(out@)[a] == ls[src[a]],
                forall|j: int|
                    0 <= j < i ==> (!expired_at(#[trigger] ls[j].1, now) <==> exists|a: int|
                        0 <= a < src.len() && src[a] == j),
            decreases n - i,
        {
            let key = &self.entries[i].0;
            let entry = &self.entries[i].1;
            assert(ls[i as int] == (key@, entry@));
            if !entry.is_expired_at(now) {
                let copy = Entry { value: entry.value.clone(), expires_at: entry.expires_at };
                let ghost prev = out@;
                out.push((key.clone(), copy));
                proof {
                    assert(out@ == prev.push(out@.last()));
                    assert forall|a: int| 0 <= a < src.len() implies #[trigger] listing_of(out@)[a] == ls[src[a]] by {
                        assert(out@[a] == prev[a]);
                        assert(listing_of(out@)[a] == listing_of(prev)[a]);
                    }
                    let ghost psrc = src;
                    src = src.push(i as int);
                    assert(listing_of(out@)[src.len() - 1] == ls[i as int]);
                    assert forall|j: int|
                        0 <= j < i + 1 implies (!expired_at(#[trigger] ls[j].1, now) <==> exists|a: int|
                            0 <= a < src.len() && src[a] == j) by {
                        if j == i {
                            assert(src[src.len() - 1] == j);
                        } else if !expired_at(ls[j].1, now) {
                            let a = choose|a: int| 0 <= a < psrc.len() && psrc[a] == j;
                            assert(src[a] == j);
                        } else if exists|a: int| 0 <= a < src.len() && src[a] == j {
                            let a = choose|a: int| 0 <= a < src.len() && src[a] == j;
                            assert(a < src.len() - 1);
                            assert(psrc[a] == j);
                        }
                    }
                }
            } else {
                proof {
                    assert forall|j: int|
                        0 <= j < i + 1 implies (!expired_at(#[trigger] ls[j].1, now) <==> exists|a: int|
                            0 <= a < src.len() && src[a] == j) by {
                        if j == i {
                            if exists|a: int| 0 <= a < src.len() && src[a] == j {
                                let a = choose|a: int| 0 <= a < src.len() && src[a] == j;
                                assert(src[a] < i);
                            }
                        }
                    }
                }
            }
            i = i + 1;
        }
        proof {
            let os = listing_of(out@);
            let live = live_part(self@, now);
            assert forall|a: int, b: int| 0 <= a < b < os.len() implies key_lt(#[trigger] os[a].0, #[trigger] os[b].0) by {
                assert(src[a] < src[b]);
            }
            lemma_map_of_all(ls);
            lemma_map_of_all(os);
            assert forall|k: Seq<char>| #[trigger] map_of(os).contains_key(k) <==> live.contains_key(k) by {
                if map_of(os).contains_key(k) {
                    let a = choose|a: int| 0 <= a < os.len() && #[trigger] os[a].0 == k;
                    let j = src[a];
                    assert(os[a] == ls[j]);
                    assert(exists|b: int| 0 <= b < src.len() && src[b] == j);
                    assert(!expired_at(ls[j].1, now));
                }
                if live.contains_key(k) {
                    let j = choose|j: int| 0 <= j < ls.len() && #[trigger] ls[j].0 == k;
                    assert(self@[k] == ls[j].1);
                    assert(!expired_at(ls[j].1, now));
                    let a = choose|a: int| 0 <= a < src.len() && src[a] == j;
                    assert(os[a] == ls[j]);
                }
            }
            assert forall|k: Seq<char>| #[trigger] map_of(os).contains_key(k) implies map_of(os)[k] == live[k] by {
                let a = choose|a: int| 0 <= a < os.len() && #[trigger] os[a].0 == k;
                let j = src[a];
                assert(os[a] == ls[j]);
            }
            assert(map_of(os) =~= live);
            lemma_key_listing(os);
        }
        out
    }

    /// Drops every entry that is expired at `now`.
    pub fn remove_expired(&mut self, now: u128)
        requires
            old(self).wf(),
        ensures
            final(self).wf(),
            final(self)@ == live_part(old(self)@, now),
    {
        let live = self.live_entries(now);
        self.entries = live;
    }

    /// The keys whose entries are not expired at `now`, in increasing key order.
    pub fn live_keys(&self, now: u128) -> (r: Vec<String>)
        requires
            self.wf(),
        ensures
            r@.map_values(|s: String| s@) == key_listing(live_part(self@, now)).map_values(
                |p: (Seq<char>, EntryView)| p.0,
            ),
            forall|i: int, j: int| 0 <= i < j < r@.len() ==> key_lt(#[trigger] r@[i]@, #[trigger] r@[j]@),
            forall|k: Seq<char>|
                live_part(self@, now).contains_key(k) <==> exists|i: int| 0 <= i < r@.len() && #[trigger] r@[i]@ == k,
    {
        let live = self.live_entries(now);
        let ghost ls = listing_of(live@);
        let mut keys: Vec<String> = Vec::new();
        let mut i: usize = 0;
        while i < live.len()
            invariant
                ls == listing_of(live@),
                i <= live@.len(),
                keys@.len() == i,
                forall|a: int| 0 <= a < i ==> #[trigger] keys@[a]@ == ls[a].0,
            decreases live@.len() - i,
        {
            keys.push(live[i].0.clone());
            i = i + 1;
        }
        proof {
            lemma_map_of_all(ls);
            assert(keys@.map_values(|s: String| s@) =~= ls.map_values(|p: (Seq<char>, EntryView)| p.0));
            assert forall|k: Seq<char>|
                live_part(self@, now).contains_key(k) implies exists|i: int| 0 <= i < keys@.len() && #[trigger] keys@[i]@ == k by {
                let j = choose|j: int| 0 <= j < ls.len() && #[trigger] ls[j].0 == k;
                assert(keys@[j]@ == k);
            }
        }
        keys
    }
}

} // verus!

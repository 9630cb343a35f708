//! Key-ordered listings: sequences of (key, value) pairs whose keys strictly
//! increase in key order, and the maps they describe.

use vstd::prelude::*;
use crate::keyorder::key_lt;
use crate::keyorder::lemma_key_lt_irreflexive;
use crate::keyorder::lemma_key_lt_transitive;
use crate::keyorder::lemma_key_lt_total;

verus! {

/// The keys of the listing strictly increase in key order.
pub open spec fn sorted_by_key<V>(ps: Seq<(Seq<char>, V)>) -> bool {
    forall|i: int, j: int| 0 <= i < j < ps.len() ==> key_lt(#[trigger] ps[i].0, #[trigger] ps[j].0)
}

/// Some pair of the listing has key `k`.
pub open spec fn has_key<V>(ps: Seq<(Seq<char>, V)>, k: Seq<char>) -> bool {
    exists|i: int| 0 <= i < ps.len() && #[trigger] ps[i].0 == k
}

/// A position of the listing that holds key `k` (meaningful when there is one).
pub open spec fn position_of<V>(ps: Seq<(Seq<char>, V)>, k: Seq<char>) -> int {
    choose|i: int| 0 <= i < ps.len() && #[trigger] ps[i].0 == k
}

/// The map a listing describes: each key to the value paired with it.
pub open spec fn map_of<V>(ps: Seq<(Seq<char>, V)>) -> Map<Seq<char>, V> {
    Map::new(|k: Seq<char>| has_key(ps, k), |k: Seq<char>| ps[position_of(ps, k)].1)
}

/// In a sorted listing, the pair at position `i` is what the map holds for its key.
pub proof fn lemma_map_of_index<V>(ps: Seq<(Seq<char>, V)>, i: int)
    requires
        sorted_by_key(ps),
        0 <= i < ps.len(),
    ensures
        map_of(ps).contains_key(ps[i].0),
        map_of(ps)[ps[i].0] == ps[i].1,
{
    let k = ps[i].0;
    assert(has_key(ps, k));
    let j = position_of(ps, k);
    assert(map_of(ps)[k] == ps[j].1);
    if j < i {
        assert(key_lt(ps[j].0, ps[i].0));
        lemma_key_lt_irreflexive(k);
    } else if i < j {
        assert(key_lt(ps[i].0, ps[j].0));
        lemma_key_lt_irreflexive(k);
    }
}

/// Every key of a sorted listing's map sits at some position.
pub proof fn lemma_map_of_all<V>(ps: Seq<(Seq<char>, V)>)
    requires
        sorted_by_key(ps),
    ensures
        forall|i: int|
            #![trigger ps[i]]
            0 <= i < ps.len() ==> map_of(ps).contains_key(ps[i].0) && map_of(ps)[ps[i].0] == ps[i].1,
{
    assert forall|i: int|
        #![trigger ps[i]]
        0 <= i < ps.len() implies map_of(ps).contains_key(ps[i].0) && map_of(ps)[ps[i].0] == ps[i].1 by {
        lemma_map_of_index(ps, i);
    }
}

/// Inserting a new key at the position that keeps the keys increasing keeps the
/// listing sorted and adds the key to its map.
pub proof fn lemma_map_of_insert<V>(ps: Seq<(Seq<char>, V)>, p: int, k: Seq<char>, v: V)
    requires
        sorted_by_key(ps),
        0 <= p <= ps.len(),
        forall|i: int| 0 <= i < p ==> key_lt(#[trigger] ps[i].0, k),
        forall|i: int| p <= i < ps.len() ==> key_lt(k, #[trigger] ps[i].0),
    ensures
        sorted_by_key(ps.insert(p, (k, v))),
        map_of(ps.insert(p, (k, v))) == map_of(ps).insert(k, v),
{
    let qs = ps.insert(p, (k, v));
    assert forall|i: int, j: int| 0 <= i < j < qs.len() implies key_lt(#[trigger] qs[i].0, #[trigger] qs[j].0) by {
        if i < p && j < p {
        } else if i < p && j == p {
        } else if i < p {
            assert(qs[j] == ps[j - 1]);
            lemma_key_lt_transitive(qs[i].0, k, qs[j].0);
        } else if i == p {
            assert(qs[j] == ps[j - 1]);
        } else {
            assert(qs[i] == ps[i - 1]);
            assert(qs[j] == ps[j - 1]);
        }
    }
    lemma_map_of_all(ps);
    lemma_map_of_all(qs);
    assert forall|x: Seq<char>| #[trigger] map_of(qs).contains_key(x) <==> map_of(ps).insert(k, v).contains_key(x) by {
        if map_of(qs).contains_key(x) {
            let i = choose|i: int| 0 <= i < qs.len() && #[trigger] qs[i].0 == x;
            if i < p {
                assert(qs[i] == ps[i]);
            } else if i > p {
                assert(qs[i] == ps[i - 1]);
            }
        }
        if map_of(ps).contains_key(x) {
            let i = choose|i: int| 0 <= i < ps.len() && #[trigger] ps[i].0 == x;
            if i < p {
                assert(qs[i] == ps[i]);
            } else {
                assert(qs[i + 1] == ps[i]);
            }
        }
        assert(qs[p].0 == k);
    }
    assert forall|x: Seq<char>| #[trigger] map_of(qs).contains_key(x) implies map_of(qs)[x] == map_of(ps).insert(k, v)[x] by {
        let i = choose|i: int| 0 <= i < qs.len() && #[trigger] qs[i].0 == x;
        if i < p {
            assert(qs[i] == ps[i]);
            lemma_key_lt_irreflexive(k);
        } else if i > p {
            assert(qs[i] == ps[i - 1]);
            lemma_key_lt_irreflexive(k);
        }
    }
    assert(map_of(qs) =~= map_of(ps).insert(k, v));
}

/// Replacing the value at a position keeps the listing sorted and updates the map.
pub proof fn lemma_map_of_update<V>(ps: Seq<(Seq<char>, V)>, p: int, v: V)
    requires
        sorted_by_key(ps),
        0 <= p < ps.len(),
    ensures
        sorted_by_key(ps.update(p, (ps[p].0, v))),
        map_of(ps.update(p, (ps[p].0, v))) == map_of(ps).insert(ps[p].0, v),
{
    let k = ps[p].0;
    let qs = ps.update(p, (k, v));
    assert forall|i: int, j: int| 0 <= i < j < qs.len() implies key_lt(#[trigger] qs[i].0, #[trigger] qs[j].0) by {
        assert(qs[i].0 == ps[i].0);
        assert(qs[j].0 == ps[j].0);
    }
    lemma_map_of_all(ps);
    lemma_map_of_all(qs);
    assert forall|x: Seq<char>| #[trigger] map_of(qs).contains_key(x) <==> map_of(ps).insert(k, v).contains_key(x) by {
        if map_of(qs).contains_key(x) {
            let i = choose|i: int| 0 <= i < qs.len() && #[trigger] qs[i].0 == x;
            assert(qs[i].0 == ps[i].0);
        }
        if map_of(ps).contains_key(x) {
            let i = choose|i: int| 0 <= i < ps.len() && #[trigger] ps[i].0 == x;
            assert(qs[i].0 == ps[i].0);
        }
        assert(qs[p].0 == k);
    }
    assert forall|x: Seq<char>| #[trigger] map_of(qs).contains_key(x) implies map_of(qs)[x] == map_of(ps).insert(k, v)[x] by {
        let i = choose|i: int| 0 <= i < qs.len() && #[trigger] qs[i].0 == x;
        if i != p {
            assert(qs[i] == ps[i]);
            if x == k {
                if i < p {
                    assert(key_lt(ps[i].0, ps[p].0));
                } else {
                    assert(key_lt(ps[p].0, ps[i].0));
                }
                lemma_key_lt_irreflexive(k);
            }
        }
    }
    assert(map_of(qs) =~= map_of(ps).insert(k, v));
}

/// Removing the pair at a position keeps the listing sorted and removes its key
/// from the map.
pub proof fn lemma_map_of_remove<V>(ps: Seq<(Seq<char>, V)>, p: int)
    requires
        sorted_by_key(ps),
        0 <= p < ps.len(),
    ensures
        sorted_by_key(ps.remove(p)),
        map_of(ps.remove(p)) == map_of(ps).remove(ps[p].0),
{
    let k = ps[p].0;
    let qs = ps.remove(p);
    assert forall|i: int, j: int| 0 <= i < j < qs.len() implies key_lt(#[trigger] qs[i].0, #[trigger] qs[j].0) by {
        let a = if i < p { i } else { i + 1 };
        let b = if j < p { j } else { j + 1 };
        assert(qs[i] == ps[a]);
        assert(qs[j] == ps[b]);
    }
    lemma_map_of_all(ps);
    lemma_map_of_all(qs);
    assert forall|x: Seq<char>| #[trigger] map_of(qs).contains_key(x) <==> map_of(ps).remove(k).contains_key(x) by {
        if map_of(qs).contains_key(x) {
            let i = choose|i: int| 0 <= i < qs.len() && #[trigger] qs[i].0 == x;
            let a = if i < p { i } else { i + 1 };
            assert(qs[i] == ps[a]);
            if x == k {
                if a < p {
                    assert(key_lt(ps[a].0, ps[p].0));
                } else {
                    assert(key_lt(ps[p].0, ps[a].0));
                }
                lemma_key_lt_irreflexive(k);
            }
        }
        if map_of(ps).remove(k).contains_key(x) {
            let i = choose|i: int| 0 <= i < ps.len() && #[trigger] ps[i].0 == x;
            if i < p {
                assert(qs[i] == ps[i]);
            } else {
                assert(i != p);
                assert(qs[i - 1] == ps[i]);
            }
        }
    }
    assert forall|x: Seq<char>| #[trigger] map_of(qs).contains_key(x) implies map_of(qs)[x] == map_of(ps).remove(k)[x] by {
        let i = choose|i: int| 0 <= i < qs.len() && #[trigger] qs[i].0 == x;
        let a = if i < p { i } else { i + 1 };
        assert(qs[i] == ps[a]);
    }
    assert(map_of(qs) =~= map_of(ps).remove(k));
}

/// Two sorted listings of the same map are the same listing.
pub proof fn lemma_listing_unique<V>(ps: Seq<(Seq<char>, V)>, qs: Seq<(Seq<char>, V)>)
    requires
        sorted_by_key(ps),
        sorted_by_key(qs),
        map_of(ps) == map_of(qs),
    ensures
        ps == qs,
    decreases ps.len() + qs.len(),
{
    lemma_map_of_all(ps);
    lemma_map_of_all(qs);
    if ps.len() == 0 && qs.len() == 0 {
        assert(ps =~= qs);
    } else if ps.len() == 0 {
        assert(map_of(qs).contains_key(qs[0].0));
    } else if qs.len() == 0 {
        assert(map_of(ps).contains_key(ps[0].0));
    } else {
        // The first keys agree: each is the least key of the same map.
        let a = ps[0].0;
        let b = qs[0].0;
        assert(map_of(qs).contains_key(a));
        assert(map_of(ps).contains_key(b));
        let i = choose|i: int| 0 <= i < qs.len() && #[trigger] qs[i].0 == a;
        let j = choose|j: int| 0 <= j < ps.len() && #[trigger] ps[j].0 == b;
        if a != b {
            assert(i != 0);
            assert(j != 0);
            assert(key_lt(b, a));
            assert(key_lt(a, b));
            lemma_key_lt_total(a, b);
        }
        assert(ps[0].1 == map_of(ps)[a]);
        assert(qs[0].1 == map_of(qs)[a]);
        let ps1 = ps.drop_first();
        let qs1 = qs.drop_first();
        assert(ps1 =~= ps.remove(0));
        assert(qs1 =~= qs.remove(0));
        lemma_map_of_remove(ps, 0);
        lemma_map_of_remove(qs, 0);
        lemma_listing_unique(ps1, qs1);
        assert(ps =~= seq![ps[0]] + ps1);
        assert(qs =~= seq![qs[0]] + qs1);
    }
}

/// Where a key goes in a sorted listing: after every smaller key.
pub open spec fn insert_position<V>(ls: Seq<(Seq<char>, V)>, k: Seq<char>) -> int
    decreases ls.len(),
{
    if ls.len() == 0 {
        0
    } else if key_lt(ls.last().0, k) {
        ls.len() as int
    } else {
        insert_position(ls.drop_last(), k)
    }
}

/// A key absent from a sorted listing fits between the smaller and the larger keys.
pub proof fn lemma_insert_position<V>(ls: Seq<(Seq<char>, V)>, k: Seq<char>)
    requires
        sorted_by_key(ls),
        !has_key(ls, k),
    ensures
        0 <= insert_position(ls, k) <= ls.len(),
        forall|i: int| 0 <= i < insert_position(ls, k) ==> key_lt(#[trigger] ls[i].0, k),
        forall|i: int| insert_position(ls, k) <= i < ls.len() ==> key_lt(k, #[trigger] ls[i].0),
    decreases ls.len(),
{
    if ls.len() > 0 {
        let n = ls.len() - 1;
        let last = ls[n].0;
        assert(ls.last() == ls[n]);
        if key_lt(last, k) {
            assert forall|i: int| 0 <= i < ls.len() implies key_lt(#[trigger] ls[i].0, k) by {
                if i < n {
                    lemma_key_lt_transitive(ls[i].0, last, k);
                }
            }
        } else {
            let front = ls.drop_last();
            assert(last != k);
            lemma_key_lt_total(last, k);
            assert(!has_key(front, k)) by {
                if has_key(front, k) {
                    let j = choose|j: int| 0 <= j < front.len() && #[trigger] front[j].0 == k;
                    assert(ls[j].0 == k);
                }
            }
            assert forall|i: int, j: int| 0 <= i < j < front.len() implies key_lt(#[trigger] front[i].0, #[trigger] front[j].0) by {
                assert(front[i] == ls[i]);
                assert(front[j] == ls[j]);
            }
            lemma_insert_position(front, k);
            let p = insert_position(front, k);
            assert forall|i: int| 0 <= i < p implies key_lt(#[trigger] ls[i].0, k) by {
                assert(front[i] == ls[i]);
            }
            assert forall|i: int| p <= i < ls.len() implies key_lt(k, #[trigger] ls[i].0) by {
                if i < n {
                    assert(front[i] == ls[i]);
                }
            }
        }
    }
}

/// The map a listing describes is finite.
pub proof fn lemma_map_of_finite<V>(ps: Seq<(Seq<char>, V)>)
    ensures
        map_of(ps).dom().finite(),
{
    let keys = ps.map_values(|p: (Seq<char>, V)| p.0);
    assert forall|k: Seq<char>| map_of(ps).dom().contains(k) implies keys.to_set().contains(k) by {
        let i = choose|i: int| 0 <= i < ps.len() && #[trigger] ps[i].0 == k;
        assert(keys[i] == k);
    }
    assert forall|k: Seq<char>| keys.to_set().contains(k) implies map_of(ps).dom().contains(k) by {
        let i = choose|i: int| 0 <= i < keys.len() && keys[i] == k;
        assert(ps[i].0 == k);
    }
    assert(map_of(ps).dom() =~= keys.to_set());
    vstd::seq_lib::seq_to_set_is_finite(keys);
}

/// Every finite map has a listing in key order.
pub proof fn lemma_key_listing_exists<V>(m: Map<Seq<char>, V>)
    requires
        m.dom().finite(),
    ensures
        sorted_by_key(key_listing(m)),
        map_of(key_listing(m)) == m,
    decreases m.dom().len(),
{
    if m.dom().len() == 0 {
        m.dom().lemma_len0_is_empty();
        let e = Seq::<(Seq<char>, V)>::empty();
        assert(map_of(e) =~= m);
        assert(sorted_by_key(e) && map_of(e) == m);
    } else {
        let k = m.dom().choose();
        let m1 = m.remove(k);
        assert(m1.dom() =~= m.dom().remove(k));
        lemma_key_listing_exists(m1);
        let ls1 = key_listing(m1);
        assert(!has_key(ls1, k)) by {
            if has_key(ls1, k) {
                let j = choose|j: int| 0 <= j < ls1.len() && #[trigger] ls1[j].0 == k;
                lemma_map_of_index(ls1, j);
            }
        }
        lemma_insert_position(ls1, k);
        let p = insert_position(ls1, k);
        lemma_map_of_insert(ls1, p, k, m[k]);
        let ls = ls1.insert(p, (k, m[k]));
        assert(m1.insert(k, m[k]) =~= m);
        assert(sorted_by_key(ls) && map_of(ls) == m);
    }
}

/// The listing of a map in key order (the sorted listing that describes it).
pub open spec fn key_listing<V>(m: Map<Seq<char>, V>) -> Seq<(Seq<char>, V)> {
    choose|ls: Seq<(Seq<char>, V)>| sorted_by_key(ls) && map_of(ls) == m
}

/// A sorted listing is the key-order listing of the map it describes.
pub proof fn lemma_key_listing<V>(ls: Seq<(Seq<char>, V)>)
    requires
        sorted_by_key(ls),
    ensures
        key_listing(map_of(ls)) == ls,
{
    let m = map_of(ls);
    assert(sorted_by_key(ls) && map_of(ls) == m);
    let c = key_listing(m);
    lemma_listing_unique(c, ls);
}

} // verus!

use vstd::prelude::*;

verus! {

/// Whether some entry of the association sequence bears the key `k`.
pub open spec fn has_key<V>(s: Seq<(Seq<char>, V)>, k: Seq<char>) -> bool {
    exists|i: int| 0 <= i < s.len() && s[i].0 == k
}

/// The index of the entry bearing key `k` (meaningful only when `has_key`
/// holds and the keys are unique).
pub open spec fn key_at<V>(s: Seq<(Seq<char>, V)>, k: Seq<char>) -> int {
    choose|i: int| 0 <= i < s.len() && s[i].0 == k
}

/// No two entries share a key.
pub open spec fn keys_unique<V>(s: Seq<(Seq<char>, V)>) -> bool {
    forall|i: int, j: int| 0 <= i < j < s.len() ==> s[i].0 != s[j].0
}

/// The value stored under key `k`.
pub open spec fn value_of<V>(s: Seq<(Seq<char>, V)>, k: Seq<char>) -> V {
    s[key_at(s, k)].1
}

/// The association sequence after storing `v` under `k`: the entry bearing
/// `k` is replaced in place, or a new entry is appended.
pub open spec fn upserted<V>(s: Seq<(Seq<char>, V)>, k: Seq<char>, v: V) -> Seq<(Seq<char>, V)> {
    if has_key(s, k) {
        s.update(key_at(s, k), (k, v))
    } else {
        s.push((k, v))
    }
}

/// The value stored under `k`, if any entry bears that key.
pub open spec fn lookup_of<V>(s: Seq<(Seq<char>, V)>, k: Seq<char>) -> Option<V> {
    if has_key(s, k) {
        Some(value_of(s, k))
    } else {
        None
    }
}

/// With unique keys, an entry observed at index `i` is the one that
/// `key_at` and `value_of` speak of.
pub proof fn lemma_key_at<V>(s: Seq<(Seq<char>, V)>, k: Seq<char>, i: int)
    requires
        keys_unique(s),
        0 <= i < s.len(),
        s[i].0 == k,
    ensures
        has_key(s, k),
        key_at(s, k) == i,
        value_of(s, k) == s[i].1,
{
    assert(has_key(s, k));
    let j = key_at(s, k);
    assert(0 <= j < s.len() && s[j].0 == k);
    if i < j {
        assert(s[i].0 != s[j].0);
    } else if j < i {
        assert(s[j].0 != s[i].0);
    }
}

/// Replacing the value at index `i` changes the association under that
/// entry's key alone.
pub proof fn lemma_update_value<V>(s: Seq<(Seq<char>, V)>, i: int, v: V)
    requires
        keys_unique(s),
        0 <= i < s.len(),
    ensures
        keys_unique(s.update(i, (s[i].0, v))),
        has_key(s.update(i, (s[i].0, v)), s[i].0),
        value_of(s.update(i, (s[i].0, v)), s[i].0) == v,
        forall|d: Seq<char>|
            d != s[i].0 ==> #[trigger] lookup_of(s.update(i, (s[i].0, v)), d) == lookup_of(s, d),
{
    let t = s.update(i, (s[i].0, v));
    assert(forall|j: int| 0 <= j < s.len() ==> t[j].0 == s[j].0);
    assert(keys_unique(t));
    lemma_key_at(t, s[i].0, i);
    assert forall|d: Seq<char>| d != s[i].0 implies #[trigger] lookup_of(t, d) == lookup_of(
        s,
        d,
    ) by {
        if has_key(s, d) {
            let j = key_at(s, d);
            assert(t[j].0 == d && j != i);
            lemma_key_at(t, d, j);
        } else if has_key(t, d) {
            let j = key_at(t, d);
            assert(s[j].0 == d);
        }
    }
}

/// Appending an entry under a fresh key changes the association under
/// that key alone.
pub proof fn lemma_push_key<V>(s: Seq<(Seq<char>, V)>, k: Seq<char>, v: V)
    requires
        keys_unique(s),
        !has_key(s, k),
    ensures
        keys_unique(s.push((k, v))),
        has_key(s.push((k, v)), k),
        value_of(s.push((k, v)), k) == v,
        forall|d: Seq<char>| d != k ==> #[trigger] lookup_of(s.push((k, v)), d) == lookup_of(s, d),
{
    let t = s.push((k, v));
    assert forall|p: int, q: int| 0 <= p < q < t.len() implies t[p].0 != t[q].0 by {
        if q == t.len() - 1 {
            assert(t[p].0 == s[p].0);
        }
    }
    lemma_key_at(t, k, s.len() as int);
    assert forall|d: Seq<char>| d != k implies #[trigger] lookup_of(t, d) == lookup_of(s, d) by {
        if has_key(s, d) {
            let j = key_at(s, d);
            assert(t[j].0 == d);
            lemma_key_at(t, d, j);
        } else if has_key(t, d) {
            let j = key_at(t, d);
            assert(j < s.len() ==> s[j].0 == d);
        }
    }
}

} // verus!

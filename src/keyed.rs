//! Maps kept as lists of (key, value) pairs with one entry per key, keys
//! compared by their text: what such a list says of each key, and how the
//! list operations change it.

use vstd::prelude::*;

verus! {

/// A map from account to value, as a list with one entry per account.
pub open spec fn keys_distinct<K: View<V = Seq<char>>, V>(m: Seq<(K, V)>) -> bool {
    forall|i: int, j: int| 0 <= i < j < m.len() ==> #[trigger] m[i].0@ != #[trigger] m[j].0@
}

pub open spec fn has_key<K: View<V = Seq<char>>, V>(m: Seq<(K, V)>, k: Seq<char>) -> bool {
    exists|i: int| 0 <= i < m.len() && #[trigger] m[i].0@ == k
}

/// The value recorded for `k`, if any.
pub open spec fn lookup<K: View<V = Seq<char>>, V>(m: Seq<(K, V)>, k: Seq<char>) -> Option<V> {
    if has_key(m, k) {
        Some(m[choose|i: int| 0 <= i < m.len() && #[trigger] m[i].0@ == k].1)
    } else {
        None
    }
}

pub proof fn lemma_lookup_at<K: View<V = Seq<char>>, V>(m: Seq<(K, V)>, i: int)
    requires
        keys_distinct(m),
        0 <= i < m.len(),
    ensures
        lookup(m, m[i].0@) == Some(m[i].1),
{
    assert(has_key(m, m[i].0@));
    let j = choose|j: int| 0 <= j < m.len() && #[trigger] m[j].0@ == m[i].0@;
    if j < i {
        assert(m[j].0@ != m[i].0@);
    } else if j > i {
        assert(m[i].0@ != m[j].0@);
    }
}

/// Replacing the value at position `i` changes the map at that key only.
pub proof fn lemma_lookup_update<K: View<V = Seq<char>>, V>(m: Seq<(K, V)>, i: int, v: V)
    requires
        keys_distinct(m),
        0 <= i < m.len(),
    ensures
        keys_distinct(m.update(i, (m[i].0, v))),
        forall|k: Seq<char>|
            #[trigger] lookup(m.update(i, (m[i].0, v)), k) == if k == m[i].0@ {
                Some(v)
            } else {
                lookup(m, k)
            },
{
    let n = m.update(i, (m[i].0, v));
    assert(keys_distinct(n)) by {
        assert forall|a: int, b: int| 0 <= a < b < n.len() implies #[trigger] n[a].0@
            != #[trigger] n[b].0@ by {
            assert(n[a].0 == m[a].0 && n[b].0 == m[b].0);
        }
    }
    assert forall|k: Seq<char>| #[trigger] lookup(n, k) == if k == m[i].0@ {
        Some(v)
    } else {
        lookup(m, k)
    } by {
        if k == m[i].0@ {
            lemma_lookup_at(n, i);
        } else {
            if has_key(m, k) {
                let j = choose|j: int| 0 <= j < m.len() && #[trigger] m[j].0@ == k;
                lemma_lookup_at(m, j);
                lemma_lookup_at(n, j);
            } else {
                assert(!has_key(n, k)) by {
                    if has_key(n, k) {
                        let j = choose|j: int| 0 <= j < n.len() && #[trigger] n[j].0@ == k;
                        assert(m[j].0 == n[j].0);
                    }
                }
            }
        }
    }
}

/// Adding an absent key changes the map at that key only.
pub proof fn lemma_lookup_push<K: View<V = Seq<char>>, V>(m: Seq<(K, V)>, key: K, v: V)
    requires
        keys_distinct(m),
        !has_key(m, key@),
    ensures
        keys_distinct(m.push((key, v))),
        forall|k: Seq<char>|
            #[trigger] lookup(m.push((key, v)), k) == if k == key@ {
                Some(v)
            } else {
                lookup(m, k)
            },
{
    let n = m.push((key, v));
    assert(keys_distinct(n)) by {
        assert forall|a: int, b: int| 0 <= a < b < n.len() implies #[trigger] n[a].0@
            != #[trigger] n[b].0@ by {
            assert(n[a] == m[a]);
            if b < m.len() {
                assert(n[b] == m[b]);
            }
        }
    }
    assert forall|k: Seq<char>| #[trigger] lookup(n, k) == if k == key@ {
        Some(v)
    } else {
        lookup(m, k)
    } by {
        if k == key@ {
            lemma_lookup_at(n, m.len() as int);
        } else if has_key(m, k) {
            let j = choose|j: int| 0 <= j < m.len() && #[trigger] m[j].0@ == k;
            lemma_lookup_at(m, j);
            assert(n[j] == m[j]);
            lemma_lookup_at(n, j);
        } else {
            assert(!has_key(n, k)) by {
                if has_key(n, k) {
                    let j = choose|j: int| 0 <= j < n.len() && #[trigger] n[j].0@ == k;
                    if j < m.len() {
                        assert(n[j] == m[j]);
                    }
                }
            }
        }
    }
}

/// Removing the entry at position `i` takes its key out of the map and
/// changes nothing else.
pub proof fn lemma_lookup_remove<K: View<V = Seq<char>>, V>(m: Seq<(K, V)>, i: int)
    requires
        keys_distinct(m),
        0 <= i < m.len(),
    ensures
        keys_distinct(m.remove(i)),
        forall|k: Seq<char>|
            #[trigger] lookup(m.remove(i), k) == if k == m[i].0@ {
                None
            } else {
                lookup(m, k)
            },
{
    let n = m.remove(i);
    assert(keys_distinct(n)) by {
        assert forall|a: int, b: int| 0 <= a < b < n.len() implies #[trigger] n[a].0@
            != #[trigger] n[b].0@ by {
            let oa = if a < i { a } else { a + 1 };
            let ob = if b < i { b } else { b + 1 };
            assert(n[a] == m[oa] && n[b] == m[ob]);
        }
    }
    assert forall|k: Seq<char>| #[trigger] lookup(n, k) == if k == m[i].0@ {
        None
    } else {
        lookup(m, k)
    } by {
        if has_key(n, k) {
            let j = choose|j: int| 0 <= j < n.len() && #[trigger] n[j].0@ == k;
            let oj = if j < i { j } else { j + 1 };
            assert(n[j] == m[oj]);
            if k == m[i].0@ {
                if oj < i {
                    assert(m[oj].0@ != m[i].0@);
                } else {
                    assert(m[i].0@ != m[oj].0@);
                }
            }
            lemma_lookup_at(n, j);
            lemma_lookup_at(m, oj);
        } else if k != m[i].0@ {
            assert(!has_key(m, k)) by {
                if has_key(m, k) {
                    let j = choose|j: int| 0 <= j < m.len() && #[trigger] m[j].0@ == k;
                    let nj = if j < i { j } else { j - 1 };
                    assert(n[nj] == m[j]);
                }
            }
        }
    }
}

} // verus!

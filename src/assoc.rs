//! Association lists: sequences of key/value pairs read by first match.

use vstd::prelude::*;

verus! {

/// The value of the first pair whose key is `k`.
pub open spec fn lookup<K, V>(s: Seq<(K, V)>, k: K) -> Option<V>
    decreases s.len(),
{
    if s.len() == 0 {
        None
    } else if s[0].0 == k {
        Some(s[0].1)
    } else {
        lookup(s.drop_first(), k)
    }
}

/// No key occurs twice.
pub open spec fn keys_unique<K, V>(s: Seq<(K, V)>) -> bool {
    forall|i: int, j: int| 0 <= i < s.len() && 0 <= j < s.len() && i != j ==> s[i].0 != s[j].0
}

/// A key is absent exactly when no pair holds it; a found value is held by a pair.
pub proof fn lemma_lookup_none<K, V>(s: Seq<(K, V)>, k: K)
    ensures
        lookup(s, k).is_none() <==> forall|i: int| 0 <= i < s.len() ==> s[i].0 != k,
        lookup(s, k) matches Some(v) ==> exists|i: int| 0 <= i < s.len() && s[i] == (k, v),
    decreases s.len(),
{
    if s.len() > 0 {
        lemma_lookup_none(s.drop_first(), k);
        if s[0].0 != k {
            if lookup(s, k).is_none() {
                assert forall|i: int| 0 <= i < s.len() implies s[i].0 != k by {
                    if i > 0 {
                        assert(s[i] == s.drop_first()[i - 1]);
                    }
                }
            }
            if let Some(v) = lookup(s, k) {
                let i = choose|i: int| 0 <= i < s.drop_first().len() && s.drop_first()[i] == (k, v);
                assert(s[i + 1] == (k, v));
            }
        }
    }
}

/// Appending a pair leaves every earlier answer and fills a missing key.
pub proof fn lemma_lookup_push<K, V>(s: Seq<(K, V)>, e: (K, V), k: K)
    ensures
        lookup(s.push(e), k) == if lookup(s, k).is_some() {
            lookup(s, k)
        } else if e.0 == k {
            Some(e.1)
        } else {
            None
        },
    decreases s.len(),
{
    if s.len() > 0 {
        assert(s.push(e).drop_first() =~= s.drop_first().push(e));
        assert(s.push(e)[0] == s[0]);
        lemma_lookup_push(s.drop_first(), e, k);
    } else {
        assert(s.push(e).drop_first() =~= Seq::<(K, V)>::empty());
        assert(s.push(e)[0] == e);
        assert(lookup(Seq::<(K, V)>::empty(), k).is_none());
    }
}

/// Dropping the pairs of one key forgets that key and nothing else.
pub proof fn lemma_lookup_without<K, V>(s: Seq<(K, V)>, c: K, k: K)
    ensures
        lookup(s.filter(|e: (K, V)| e.0 != c), k) == if k == c { None } else { lookup(s, k) },
    decreases s.len(),
{
    let f = |e: (K, V)| e.0 != c;
    if s.len() > 0 {
        let t = s.drop_first();
        lemma_lookup_without(t, c, k);
        assert(s =~= seq![s[0]] + t);
        t.lemma_filter_prepend(s[0], f);
        if f(s[0]) {
            assert((seq![s[0]] + t.filter(f)).drop_first() =~= t.filter(f));
        } else {
            assert(Seq::<(K, V)>::empty() + t.filter(f) =~= t.filter(f));
        }
    } else {
        reveal(Seq::filter);
    }
}

/// Keeping the pairs whose value passes a test, in a list without repeated
/// keys, keeps exactly the answers that pass it.
pub proof fn lemma_lookup_keep<K, V>(s: Seq<(K, V)>, p: spec_fn(V) -> bool, k: K)
    requires
        keys_unique(s),
    ensures
        lookup(s.filter(|e: (K, V)| p(e.1)), k) == match lookup(s, k) {
            Some(v) => if p(v) { Some(v) } else { None },
            None => None,
        },
        keys_unique(s.filter(|e: (K, V)| p(e.1))),
    decreases s.len(),
{
    let f = |e: (K, V)| p(e.1);
    if s.len() > 0 {
        let t = s.drop_first();
        assert(keys_unique(t)) by {
            assert forall|i: int, j: int|
                0 <= i < t.len() && 0 <= j < t.len() && i != j implies t[i].0 != t[j].0 by {
                assert(t[i] == s[i + 1] && t[j] == s[j + 1]);
            }
        }
        lemma_lookup_keep(t, p, k);
        assert(s =~= seq![s[0]] + t);
        t.lemma_filter_prepend(s[0], f);
        assert forall|i: int| 0 <= i < t.len() implies t[i].0 != s[0].0 by {
            assert(t[i] == s[i + 1]);
        }
        let tf = t.filter(f);
        assert forall|i: int| 0 <= i < tf.len() implies tf[i].0 != s[0].0 by {
            assert(tf.contains(tf[i]));
            t.lemma_filter_contains_rev(f, tf[i]);
        }
        lemma_lookup_none(tf, s[0].0);
        lemma_lookup_none(t, s[0].0);
        if f(s[0]) {
            let r = seq![s[0]] + tf;
            assert(r.drop_first() =~= tf);
            assert forall|i: int, j: int|
                0 <= i < r.len() && 0 <= j < r.len() && i != j implies r[i].0 != r[j].0 by {
                if i > 0 && j > 0 {
                    assert(r[i] == tf[i - 1] && r[j] == tf[j - 1]);
                } else if i == 0 {
                    assert(r[j] == tf[j - 1]);
                } else {
                    assert(r[i] == tf[i - 1]);
                }
            }
        } else {
            assert(Seq::<(K, V)>::empty() + tf =~= tf);
        }
    } else {
        reveal(Seq::filter);
        assert(s.filter(f) =~= Seq::<(K, V)>::empty());
    }
}

/// In a list without repeated keys, the pair at `i` is what its key finds.
pub proof fn lemma_lookup_at<K, V>(s: Seq<(K, V)>, i: int)
    requires
        keys_unique(s),
        0 <= i < s.len(),
    ensures
        lookup(s, s[i].0) == Some(s[i].1),
    decreases s.len(),
{
    if i > 0 {
        let t = s.drop_first();
        assert(keys_unique(t)) by {
            assert forall|a: int, b: int| 0 <= a < t.len() && 0 <= b < t.len() && a != b implies t[a].0 != t[b].0 by {
                assert(t[a] == s[a + 1] && t[b] == s[b + 1]);
            }
        }
        assert(t[i - 1] == s[i]);
        lemma_lookup_at(t, i - 1);
    }
}

/// Replacing the value at `i` changes what its key finds and nothing else.
pub proof fn lemma_lookup_update<K, V>(s: Seq<(K, V)>, i: int, v: V, k: K)
    requires
        keys_unique(s),
        0 <= i < s.len(),
    ensures
        lookup(s.update(i, (s[i].0, v)), k) == if k == s[i].0 { Some(v) } else { lookup(s, k) },
        keys_unique(s.update(i, (s[i].0, v))),
    decreases s.len(),
{
    let u = s.update(i, (s[i].0, v));
    assert forall|a: int, b: int| 0 <= a < u.len() && 0 <= b < u.len() && a != b implies u[a].0 != u[b].0 by {
        assert(u[a].0 == s[a].0 && u[b].0 == s[b].0);
    }
    let t = s.drop_first();
    if s.len() > 1 {
        assert(keys_unique(t)) by {
            assert forall|a: int, b: int| 0 <= a < t.len() && 0 <= b < t.len() && a != b implies t[a].0 != t[b].0 by {
                assert(t[a] == s[a + 1] && t[b] == s[b + 1]);
            }
        }
    }
    if i == 0 {
        assert(u.drop_first() =~= t);
        if k != s[0].0 {
        } else {
            assert(u[0] == (s[0].0, v));
        }
    } else {
        assert(u.drop_first() =~= t.update(i - 1, (t[i - 1].0, v)));
        assert(u[0] == s[0]);
        lemma_lookup_update(t, i - 1, v, k);
        if k == s[i].0 {
            assert(s[0].0 != s[i].0);
        }
    }
}

} // verus!

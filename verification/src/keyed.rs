//! Vectors of records viewed as maps from a key to a value.

use vstd::prelude::*;

verus! {

/// The map that a vector of records stands for, later records of a key
/// hiding earlier ones.
pub open spec fn keyed_map<T, K, V>(s: Seq<T>, key: spec_fn(T) -> K, val: spec_fn(T) -> V) -> Map<
    K,
    V,
>
    decreases s.len(),
{
    if s.len() == 0 {
        Map::empty()
    } else {
        keyed_map(s.drop_last(), key, val).insert(key(s.last()), val(s.last()))
    }
}

/// No two records share a key.
pub open spec fn keys_unique<T, K>(s: Seq<T>, key: spec_fn(T) -> K) -> bool {
    forall|i: int, j: int|
        0 <= i < s.len() && 0 <= j < s.len() && i != j ==> key(#[trigger] s[i]) != key(
            #[trigger] s[j],
        )
}

pub proof fn lemma_keys_unique_drop_last<T, K>(s: Seq<T>, key: spec_fn(T) -> K)
    requires
        keys_unique(s, key),
        s.len() > 0,
    ensures
        keys_unique(s.drop_last(), key),
{
    assert forall|a: int, b: int|
        0 <= a < s.drop_last().len() && 0 <= b < s.drop_last().len() && a != b implies key(
        #[trigger] s.drop_last()[a],
    ) != key(#[trigger] s.drop_last()[b]) by {
        assert(s.drop_last()[a] == s[a]);
        assert(s.drop_last()[b] == s[b]);
    }
}

pub proof fn lemma_keyed_dom<T, K, V>(
    s: Seq<T>,
    key: spec_fn(T) -> K,
    val: spec_fn(T) -> V,
    k: K,
)
    ensures
        keyed_map(s, key, val).contains_key(k) <==> exists|i: int|
            0 <= i < s.len() && key(#[trigger] s[i]) == k,
    decreases s.len(),
{
    if s.len() > 0 {
        lemma_keyed_dom(s.drop_last(), key, val, k);
        if keyed_map(s, key, val).contains_key(k) {
            if key(s.last()) != k {
                let i = choose|i: int|
                    0 <= i < s.drop_last().len() && key(#[trigger] s.drop_last()[i]) == k;
                assert(s[i] == s.drop_last()[i]);
            }
        }
        if exists|i: int| 0 <= i < s.len() && key(#[trigger] s[i]) == k {
            let i = choose|i: int| 0 <= i < s.len() && key(#[trigger] s[i]) == k;
            if i < s.len() - 1 {
                assert(s.drop_last()[i] == s[i]);
            }
        }
    }
}

pub proof fn lemma_keyed_at<T, K, V>(s: Seq<T>, key: spec_fn(T) -> K, val: spec_fn(T) -> V, i: int)
    requires
        keys_unique(s, key),
        0 <= i < s.len(),
    ensures
        keyed_map(s, key, val).contains_key(key(s[i])),
        keyed_map(s, key, val)[key(s[i])] == val(s[i]),
    decreases s.len(),
{
    if i < s.len() - 1 {
        assert(s.drop_last()[i] == s[i]);
        lemma_keys_unique_drop_last(s, key);
        lemma_keyed_at(s.drop_last(), key, val, i);
        assert(key(s.last()) != key(s[i]));
    }
}

pub proof fn lemma_keyed_len<T, K, V>(s: Seq<T>, key: spec_fn(T) -> K, val: spec_fn(T) -> V)
    requires
        keys_unique(s, key),
    ensures
        keyed_map(s, key, val).dom().finite(),
        keyed_map(s, key, val).len() == s.len(),
    decreases s.len(),
{
    if s.len() > 0 {
        lemma_keys_unique_drop_last(s, key);
        lemma_keyed_len(s.drop_last(), key, val);
        lemma_keyed_dom(s.drop_last(), key, val, key(s.last()));
        assert(!keyed_map(s.drop_last(), key, val).contains_key(key(s.last()))) by {
            if keyed_map(s.drop_last(), key, val).contains_key(key(s.last())) {
                let j = choose|j: int|
                    0 <= j < s.drop_last().len() && key(#[trigger] s.drop_last()[j]) == key(
                        s.last(),
                    );
                assert(s[j] == s.drop_last()[j]);
            }
        }
    }
}

pub proof fn lemma_keyed_push<T, K, V>(s: Seq<T>, key: spec_fn(T) -> K, val: spec_fn(T) -> V, x: T)
    requires
        keys_unique(s, key),
        !keyed_map(s, key, val).contains_key(key(x)),
    ensures
        keys_unique(s.push(x), key),
        keyed_map(s.push(x), key, val) == keyed_map(s, key, val).insert(key(x), val(x)),
{
    assert(s.push(x).drop_last() =~= s);
    lemma_keyed_dom(s, key, val, key(x));
    assert forall|a: int, b: int|
        0 <= a < s.push(x).len() && 0 <= b < s.push(x).len() && a != b implies key(
        #[trigger] s.push(x)[a],
    ) != key(#[trigger] s.push(x)[b]) by {
        if a < s.len() && b < s.len() {
            assert(s.push(x)[a] == s[a]);
            assert(s.push(x)[b] == s[b]);
        } else if a < s.len() {
            assert(s.push(x)[a] == s[a]);
        } else {
            assert(s.push(x)[b] == s[b]);
        }
    }
}

pub proof fn lemma_keyed_update<T, K, V>(
    s: Seq<T>,
    key: spec_fn(T) -> K,
    val: spec_fn(T) -> V,
    i: int,
    x: T,
)
    requires
        keys_unique(s, key),
        0 <= i < s.len(),
        key(x) == key(s[i]),
    ensures
        keys_unique(s.update(i, x), key),
        keyed_map(s.update(i, x), key, val) == keyed_map(s, key, val).insert(key(x), val(x)),
    decreases s.len(),
{
    let t = s.update(i, x);
    assert forall|a: int, b: int|
        0 <= a < t.len() && 0 <= b < t.len() && a != b implies key(#[trigger] t[a]) != key(
        #[trigger] t[b],
    ) by {
        assert(key(t[a]) == key(s[a]));
        assert(key(t[b]) == key(s[b]));
    }
    if i == s.len() - 1 {
        assert(t.drop_last() =~= s.drop_last());
        lemma_keyed_dom(s.drop_last(), key, val, key(x));
        assert(!keyed_map(s.drop_last(), key, val).contains_key(key(x))) by {
            if keyed_map(s.drop_last(), key, val).contains_key(key(x)) {
                let j = choose|j: int|
                    0 <= j < s.drop_last().len() && key(#[trigger] s.drop_last()[j]) == key(x);
                assert(s[j] == s.drop_last()[j]);
            }
        }
        assert(keyed_map(t, key, val) =~= keyed_map(s, key, val).insert(key(x), val(x)));
    } else {
        assert(t.drop_last() =~= s.drop_last().update(i, x));
        lemma_keys_unique_drop_last(s, key);
        assert(s.drop_last()[i] == s[i]);
        lemma_keyed_update(s.drop_last(), key, val, i, x);
        assert(t.last() == s.last());
        assert(key(s.last()) != key(x));
        assert(keyed_map(t, key, val) =~= keyed_map(s, key, val).insert(key(x), val(x)));
    }
}

pub proof fn lemma_keyed_remove<T, K, V>(
    s: Seq<T>,
    key: spec_fn(T) -> K,
    val: spec_fn(T) -> V,
    i: int,
)
    requires
        keys_unique(s, key),
        0 <= i < s.len(),
    ensures
        keys_unique(s.remove(i), key),
        keyed_map(s.remove(i), key, val) == keyed_map(s, key, val).remove(key(s[i])),
    decreases s.len(),
{
    let t = s.remove(i);
    assert forall|a: int, b: int|
        0 <= a < t.len() && 0 <= b < t.len() && a != b implies key(#[trigger] t[a]) != key(
        #[trigger] t[b],
    ) by {
        let a2 = if a < i {
            a
        } else {
            a + 1
        };
        let b2 = if b < i {
            b
        } else {
            b + 1
        };
        assert(t[a] == s[a2]);
        assert(t[b] == s[b2]);
    }
    if i == s.len() - 1 {
        assert(t =~= s.drop_last());
        lemma_keyed_dom(s.drop_last(), key, val, key(s[i]));
        assert(!keyed_map(s.drop_last(), key, val).contains_key(key(s[i]))) by {
            if keyed_map(s.drop_last(), key, val).contains_key(key(s[i])) {
                let j = choose|j: int|
                    0 <= j < s.drop_last().len() && key(#[trigger] s.drop_last()[j]) == key(s[i]);
                assert(s[j] == s.drop_last()[j]);
            }
        }
        assert(keyed_map(t, key, val) =~= keyed_map(s, key, val).remove(key(s[i])));
    } else {
        assert(t.drop_last() =~= s.drop_last().remove(i));
        assert(t.last() == s.last());
        lemma_keys_unique_drop_last(s, key);
        assert(s.drop_last()[i] == s[i]);
        lemma_keyed_remove(s.drop_last(), key, val, i);
        assert(key(s.last()) != key(s[i]));
        assert(keyed_map(t, key, val) =~= keyed_map(s, key, val).remove(key(s[i])));
    }
}

} // verus!

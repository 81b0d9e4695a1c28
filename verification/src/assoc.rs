//! Association sequences: key/value pairs with first-match lookup.
//!
//! Both the configuration tables and the reader registry are modelled as
//! sequences of `(key, value)` pairs where lookup finds the first entry with
//! a matching key and update replaces that entry in place (or appends).

use vstd::prelude::*;

verus! {

/// Index of the first pair with key `k`, or `-1` if no pair has that key.
pub open spec fn assoc_index_of<V>(t: Seq<(Seq<char>, V)>, k: Seq<char>) -> int
    decreases t.len(),
{
    if t.len() == 0 {
        -1
    } else if t[0].0 == k {
        0
    } else {
        let r = assoc_index_of(t.drop_first(), k);
        if r < 0 {
            -1
        } else {
            r + 1
        }
    }
}

/// Whether some pair has key `k`.
pub open spec fn assoc_contains<V>(t: Seq<(Seq<char>, V)>, k: Seq<char>) -> bool {
    assoc_index_of(t, k) >= 0
}

/// The value of the first pair with key `k`, if any.
pub open spec fn assoc_get<V>(t: Seq<(Seq<char>, V)>, k: Seq<char>) -> Option<V> {
    if assoc_contains(t, k) {
        Some(t[assoc_index_of(t, k)].1)
    } else {
        None
    }
}

/// The sequence with `k` bound to `v`: the first pair with key `k` is
/// replaced in place, or a new pair is appended if `k` is not present.
pub open spec fn assoc_update<V>(t: Seq<(Seq<char>, V)>, k: Seq<char>, v: V) -> Seq<
    (Seq<char>, V),
> {
    if assoc_contains(t, k) {
        t.update(assoc_index_of(t, k), (k, v))
    } else {
        t.push((k, v))
    }
}

/// What `assoc_index_of` returns: a position bounded by the length, holding
/// the key, with no earlier match; or `-1` with no match at all.
pub proof fn lemma_assoc_index_of<V>(t: Seq<(Seq<char>, V)>, k: Seq<char>)
    ensures
        assoc_index_of(t, k) >= 0 ==> assoc_index_of(t, k) < t.len() && t[assoc_index_of(t, k)].0
            == k && (forall|j: int| 0 <= j < assoc_index_of(t, k) ==> t[j].0 != k),
        assoc_index_of(t, k) < 0 ==> forall|j: int| 0 <= j < t.len() ==> t[j].0 != k,
    decreases t.len(),
{
    if t.len() > 0 && t[0].0 != k {
        lemma_assoc_index_of(t.drop_first(), k);
        let r = assoc_index_of(t.drop_first(), k);
        if r >= 0 {
            assert(t.drop_first()[r] == t[r + 1]);
            assert forall|j: int| 0 <= j < assoc_index_of(t, k) implies t[j].0 != k by {
                if j > 0 {
                    assert(t.drop_first()[j - 1] == t[j]);
                }
            }
        } else {
            assert forall|j: int| 0 <= j < t.len() implies t[j].0 != k by {
                if j > 0 {
                    assert(t.drop_first()[j - 1] == t[j]);
                }
            }
        }
    }
}

/// Whether every key occurs at most once.
pub open spec fn assoc_unique<V>(t: Seq<(Seq<char>, V)>) -> bool {
    forall|i: int, j: int| 0 <= i < j < t.len() ==> t[i].0 != t[j].0
}

/// An update never duplicates a key: uniqueness is preserved.
pub proof fn lemma_assoc_update_unique<V>(t: Seq<(Seq<char>, V)>, k: Seq<char>, v: V)
    requires
        assoc_unique(t),
    ensures
        assoc_unique(assoc_update(t, k, v)),
{
    lemma_assoc_index_of(t, k);
    let u = assoc_update(t, k, v);
    if assoc_contains(t, k) {
        assert forall|i: int| 0 <= i < u.len() implies u[i].0 == t[i].0 by {
            if i != assoc_index_of(t, k) {
                assert(u[i] == t[i]);
            }
        }
    } else {
        assert forall|i: int, j: int| 0 <= i < j < u.len() implies u[i].0 != u[j].0 by {
            assert(u[i] == t[i]);
            if j < t.len() {
                assert(u[j] == t[j]);
            }
        }
    }
}

/// After an update, looking the updated key up yields the new value.
pub proof fn lemma_assoc_update_get<V>(t: Seq<(Seq<char>, V)>, k: Seq<char>, v: V)
    ensures
        assoc_get(assoc_update(t, k, v), k) == Some(v),
{
    lemma_assoc_index_of(t, k);
    let u = assoc_update(t, k, v);
    if assoc_contains(t, k) {
        let i = assoc_index_of(t, k);
        assert forall|j: int| 0 <= j < i implies u[j].0 != k by {
            assert(u[j] == t[j]);
        }
        lemma_assoc_index_of_first(u, k, i);
    } else {
        assert forall|j: int| 0 <= j < t.len() implies u[j].0 != k by {
            assert(u[j] == t[j]);
        }
        lemma_assoc_index_of_first(u, k, t.len() as int);
    }
}

/// An update of one key leaves every other key's lookup unchanged.
pub proof fn lemma_assoc_update_get_other<V>(
    t: Seq<(Seq<char>, V)>,
    k: Seq<char>,
    v: V,
    k2: Seq<char>,
)
    requires
        k2 != k,
    ensures
        assoc_get(assoc_update(t, k, v), k2) == assoc_get(t, k2),
{
    lemma_assoc_index_of(t, k);
    lemma_assoc_index_of(t, k2);
    let u = assoc_update(t, k, v);
    if assoc_contains(t, k2) {
        let i = assoc_index_of(t, k2);
        assert(u[i] == t[i]);
        assert forall|j: int| 0 <= j < i implies u[j].0 != k2 by {
            assert(u[j].0 == t[j].0 || u[j].0 == k);
        }
        lemma_assoc_index_of_first(u, k2, i);
    } else {
        lemma_assoc_index_of(u, k2);
        if assoc_contains(u, k2) {
            let i = assoc_index_of(u, k2);
            assert(u[i].0 == t[i].0 || u[i].0 == k);
            assert(false);
        }
    }
}

/// Looking a key up after appending one pair: the appended pair answers only
/// where its key matches and was absent before.
pub proof fn lemma_assoc_snoc<V>(t: Seq<(Seq<char>, V)>, p: (Seq<char>, V), k: Seq<char>)
    ensures
        assoc_get(t.push(p), k) == (if k == p.0 {
            if assoc_contains(t, k) {
                assoc_get(t, k)
            } else {
                Some(p.1)
            }
        } else {
            assoc_get(t, k)
        }),
{
    lemma_assoc_index_of(t, k);
    let u = t.push(p);
    if assoc_contains(t, k) {
        let i = assoc_index_of(t, k);
        assert(u[i] == t[i]);
        assert forall|j: int| 0 <= j < i implies u[j].0 != k by {
            assert(u[j] == t[j]);
        }
        lemma_assoc_index_of_first(u, k, i);
    } else if k == p.0 {
        assert forall|j: int| 0 <= j < t.len() implies u[j].0 != k by {
            assert(u[j] == t[j]);
        }
        assert(u[t.len() as int] == p);
        lemma_assoc_index_of_first(u, k, t.len() as int);
    } else {
        lemma_assoc_index_of(u, k);
        if assoc_contains(u, k) {
            let i = assoc_index_of(u, k);
            if i < t.len() {
                assert(u[i] == t[i]);
            }
            assert(false);
        }
    }
}

/// A first match at `i` pins `assoc_index_of` down to `i`.
pub proof fn lemma_assoc_index_of_first<V>(t: Seq<(Seq<char>, V)>, k: Seq<char>, i: int)
    requires
        0 <= i < t.len(),
        t[i].0 == k,
        forall|j: int| 0 <= j < i ==> t[j].0 != k,
    ensures
        assoc_index_of(t, k) == i,
    decreases t.len(),
{
    if t[0].0 != k {
        assert(t.drop_first()[i - 1] == t[i]);
        assert forall|j: int| 0 <= j < i - 1 implies t.drop_first()[j].0 != k by {
            assert(t.drop_first()[j] == t[j + 1]);
        }
        lemma_assoc_index_of_first(t.drop_first(), k, i - 1);
    }
}

} // verus!

//! Removal of duplicates from a sequence: of the items that share a key, the first stays.

use vstd::prelude::*;

verus! {

/// Whether an item before position `i` has the key of the item at `i`.
pub open spec fn seen_before<T, K>(s: Seq<T>, key: spec_fn(T) -> K, i: int) -> bool {
    exists|j: int| 0 <= j < i && #[trigger] key(s[j]) == key(s[i])
}

/// The items of `s` whose key no earlier item has, in their order.
pub open spec fn keep_first<T, K>(s: Seq<T>, key: spec_fn(T) -> K) -> Seq<T>
    decreases s.len(),
{
    if s.len() == 0 {
        Seq::empty()
    } else if seen_before(s, key, s.len() - 1) {
        keep_first(s.drop_last(), key)
    } else {
        keep_first(s.drop_last(), key).push(s.last())
    }
}

/// Whether no two items of `s` share a key.
pub open spec fn distinct_keys<T, K>(s: Seq<T>, key: spec_fn(T) -> K) -> bool {
    forall|i: int, j: int| 0 <= i < j < s.len() ==> #[trigger] key(s[i]) != #[trigger] key(s[j])
}

/// One more item: it is kept exactly where its key is new.
pub proof fn lemma_keep_first_step<T, K>(s: Seq<T>, key: spec_fn(T) -> K, n: int)
    requires
        0 <= n < s.len(),
    ensures
        keep_first(s.take(n + 1), key) == if seen_before(s, key, n) {
            keep_first(s.take(n), key)
        } else {
            keep_first(s.take(n), key).push(s[n])
        },
{
    let t = s.take(n + 1);
    assert(t.drop_last() =~= s.take(n));
    assert(t.last() == s[n]);
    if seen_before(s, key, n) {
        let j = choose|j: int| 0 <= j < n && #[trigger] key(s[j]) == key(s[n]);
        assert(key(t[j]) == key(t[n]));
    }
    if seen_before(t, key, n) {
        let j = choose|j: int| 0 <= j < n && #[trigger] key(t[j]) == key(t[n]);
        assert(key(s[j]) == key(s[n]));
    }
}

/// Every kept item is an item of the input.
pub proof fn lemma_keep_first_subset<T, K>(s: Seq<T>, key: spec_fn(T) -> K)
    ensures
        keep_first(s, key).len() <= s.len(),
        forall|k: int|
            0 <= k < keep_first(s, key).len() ==> s.contains(#[trigger] keep_first(s, key)[k]),
    decreases s.len(),
{
    if s.len() > 0 {
        let init = s.drop_last();
        lemma_keep_first_subset(init, key);
        assert forall|k: int| 0 <= k < keep_first(s, key).len() implies s.contains(
            #[trigger] keep_first(s, key)[k],
        ) by {
            if k < keep_first(init, key).len() {
                let x = keep_first(init, key)[k];
                assert(init.contains(x));
                let i = choose|i: int| 0 <= i < init.len() && init[i] == x;
                assert(s[i] == x);
            } else {
                assert(s[s.len() - 1] == s.last());
            }
        }
    }
}

/// Every key of the input is the key of a kept item.
pub proof fn lemma_keep_first_covers<T, K>(s: Seq<T>, key: spec_fn(T) -> K, i: int)
    requires
        0 <= i < s.len(),
    ensures
        exists|k: int|
            0 <= k < keep_first(s, key).len() && #[trigger] key(keep_first(s, key)[k]) == key(s[i]),
    decreases s.len(),
{
    let init = s.drop_last();
    let last = s.len() - 1;
    if i < last {
        lemma_keep_first_covers(init, key, i);
        let k = choose|k: int|
            0 <= k < keep_first(init, key).len() && #[trigger] key(keep_first(init, key)[k]) == key(
                init[i],
            );
        assert(key(keep_first(s, key)[k]) == key(s[i]));
    } else if seen_before(s, key, last) {
        let j = choose|j: int| 0 <= j < last && #[trigger] key(s[j]) == key(s[last]);
        lemma_keep_first_covers(init, key, j);
        let k = choose|k: int|
            0 <= k < keep_first(init, key).len() && #[trigger] key(keep_first(init, key)[k]) == key(
                init[j],
            );
        assert(key(keep_first(s, key)[k]) == key(s[i]));
    } else {
        let k = keep_first(init, key).len() as int;
        assert(key(keep_first(s, key)[k]) == key(s[i]));
    }
}

/// No two kept items share a key.
pub proof fn lemma_keep_first_distinct<T, K>(s: Seq<T>, key: spec_fn(T) -> K)
    ensures
        distinct_keys(keep_first(s, key), key),
    decreases s.len(),
{
    if s.len() > 0 {
        let init = s.drop_last();
        let last = s.len() - 1;
        lemma_keep_first_distinct(init, key);
        lemma_keep_first_subset(init, key);
        if !seen_before(s, key, last) {
            let kept = keep_first(s, key);
            assert forall|i: int, j: int| 0 <= i < j < kept.len() implies #[trigger] key(kept[i])
                != #[trigger] key(kept[j]) by {
                if j == kept.len() - 1 {
                    let x = keep_first(init, key)[i];
                    assert(init.contains(x));
                    let m = choose|m: int| 0 <= m < init.len() && init[m] == x;
                    assert(s[m] == x);
                    assert(key(s[m]) != key(s[last]));
                } else {
                    assert(kept[i] == keep_first(init, key)[i]);
                    assert(kept[j] == keep_first(init, key)[j]);
                }
            }
        }
    }
}

/// A sequence without two items of one key is kept whole.
pub proof fn lemma_keep_first_of_distinct<T, K>(s: Seq<T>, key: spec_fn(T) -> K)
    requires
        distinct_keys(s, key),
    ensures
        keep_first(s, key) == s,
    decreases s.len(),
{
    if s.len() > 0 {
        let init = s.drop_last();
        assert(distinct_keys(init, key)) by {
            assert forall|i: int, j: int| 0 <= i < j < init.len() implies #[trigger] key(init[i])
                != #[trigger] key(init[j]) by {
                assert(key(s[i]) != key(s[j]));
            }
        }
        lemma_keep_first_of_distinct(init, key);
        assert(keep_first(s, key) =~= s);
    } else {
        assert(keep_first(s, key) =~= s);
    }
}

/// Removing duplicates a second time changes nothing.
pub proof fn lemma_keep_first_idempotent<T, K>(s: Seq<T>, key: spec_fn(T) -> K)
    ensures
        keep_first(keep_first(s, key), key) == keep_first(s, key),
{
    lemma_keep_first_distinct(s, key);
    lemma_keep_first_of_distinct(keep_first(s, key), key);
}

} // verus!

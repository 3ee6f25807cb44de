//! Sequences that hold at most one entry to a key. The entries stand in
//! the order in which their keys were first entered.

use vstd::prelude::*;

verus! {

/// The index of the first entry with key `k`, or the length where there is
/// none.
pub open spec fn position<T, K>(s: Seq<T>, key: spec_fn(T) -> K, k: K) -> int
    decreases s.len(),
{
    if s.len() == 0 || key(s[0]) == k {
        0
    } else {
        1 + position(s.drop_first(), key, k)
    }
}

/// Whether no two entries have the same key.
pub open spec fn distinct<T, K>(s: Seq<T>, key: spec_fn(T) -> K) -> bool {
    forall|i: int, j: int| 0 <= i < j < s.len() ==> key(#[trigger] s[i]) != key(#[trigger] s[j])
}

/// The entry with key `k`, if there is one.
pub open spec fn entry<T, K>(s: Seq<T>, key: spec_fn(T) -> K, k: K) -> Option<T> {
    if position(s, key, k) < s.len() {
        Some(s[position(s, key, k)])
    } else {
        None
    }
}

/// The entries after `item` has been entered: it takes the place of the
/// entry with its key, or comes last where there is none.
pub open spec fn upserted<T, K>(s: Seq<T>, key: spec_fn(T) -> K, item: T) -> Seq<T> {
    if position(s, key, key(item)) < s.len() {
        s.update(position(s, key, key(item)), item)
    } else {
        s.push(item)
    }
}

/// The entries without the one with key `k`.
pub open spec fn removed<T, K>(s: Seq<T>, key: spec_fn(T) -> K, k: K) -> Seq<T> {
    if position(s, key, k) < s.len() {
        s.remove(position(s, key, k))
    } else {
        s
    }
}

/// `position` is the least index of an entry with the key.
pub proof fn lemma_position<T, K>(s: Seq<T>, key: spec_fn(T) -> K, k: K)
    ensures
        0 <= position(s, key, k) <= s.len(),
        forall|i: int| 0 <= i < position(s, key, k) ==> key(#[trigger] s[i]) != k,
        position(s, key, k) < s.len() ==> key(s[position(s, key, k)]) == k,
    decreases s.len(),
{
    if s.len() != 0 && key(s[0]) != k {
        let t = s.drop_first();
        lemma_position(t, key, k);
        assert forall|i: int| 0 <= i < position(s, key, k) implies key(#[trigger] s[i]) != k by {
            if i > 0 {
                assert(s[i] == t[i - 1]);
            }
        }
    }
}

/// An index with no entry of the key before it, which holds one or is the
/// length, is `position`.
pub proof fn lemma_position_is<T, K>(s: Seq<T>, key: spec_fn(T) -> K, k: K, at: int)
    requires
        0 <= at <= s.len(),
        forall|i: int| 0 <= i < at ==> key(#[trigger] s[i]) != k,
        at < s.len() ==> key(s[at]) == k,
    ensures
        position(s, key, k) == at,
{
    lemma_position(s, key, k);
}

/// Entering an item keeps the keys distinct. The item is then found
/// under its key, every other key finds what it found before, and the
/// number of entries grows by one exactly where the key is new.
pub proof fn lemma_upserted<T, K>(s: Seq<T>, key: spec_fn(T) -> K, item: T)
    requires
        distinct(s, key),
    ensures
        distinct(upserted(s, key, item), key),
        entry(upserted(s, key, item), key, key(item)) == Some(item),
        forall|k: K| k != key(item) ==> #[trigger] entry(upserted(s, key, item), key, k) == entry(s, key, k),
        upserted(s, key, item).len() == if entry(s, key, key(item)).is_some() {
            s.len()
        } else {
            s.len() + 1
        },
{
    let own = key(item);
    lemma_position(s, key, own);
    let p = position(s, key, own);
    let after = upserted(s, key, item);
    assert forall|a: int, b: int| 0 <= a < b < after.len() implies key(#[trigger] after[a]) != key(
        #[trigger] after[b],
    ) by {
        if p < s.len() {
            assert(key(after[a]) == key(s[a]));
            assert(key(after[b]) == key(s[b]));
        } else {
            assert(after[a] == s[a]);
            if b < s.len() {
                assert(after[b] == s[b]);
            }
        }
    }
    assert forall|k: K| entry(after, key, k) == if k == own {
        Some(item)
    } else {
        entry(s, key, k)
    } by {
        lemma_position(s, key, k);
        let q = position(s, key, k);
        if k == own {
            assert forall|i: int| 0 <= i < p implies key(#[trigger] after[i]) != k by {
                assert(after[i] == s[i]);
            }
            lemma_position_is(after, key, k, p);
        } else if q < s.len() {
            assert forall|i: int| 0 <= i < q implies key(#[trigger] after[i]) != k by {
                if i != p {
                    assert(after[i] == s[i]);
                }
            }
            assert(after[q] == s[q]);
            lemma_position_is(after, key, k, q);
        } else {
            assert forall|i: int| 0 <= i < after.len() implies key(#[trigger] after[i]) != k by {
                if i != p {
                    assert(after[i] == s[i]);
                }
            }
            lemma_position_is(after, key, k, after.len() as int);
        }
    }
}

/// Taking an entry out keeps the keys distinct. Its key then finds
/// nothing, and every other key finds what it found before.
pub proof fn lemma_removed<T, K>(s: Seq<T>, key: spec_fn(T) -> K, gone: K)
    requires
        distinct(s, key),
    ensures
        distinct(removed(s, key, gone), key),
        entry(removed(s, key, gone), key, gone).is_none(),
        forall|k: K| k != gone ==> #[trigger] entry(removed(s, key, gone), key, k) == entry(s, key, k),
{
    lemma_position(s, key, gone);
    let p = position(s, key, gone);
    let after = removed(s, key, gone);
    if p < s.len() {
        assert forall|i: int| 0 <= i < after.len() implies #[trigger] after[i] == s[if i < p {
            i
        } else {
            i + 1
        }] by {}
        assert forall|a: int, b: int| 0 <= a < b < after.len() implies key(#[trigger] after[a])
            != key(#[trigger] after[b]) by {
            let a0 = if a < p {
                a
            } else {
                a + 1
            };
            let b0 = if b < p {
                b
            } else {
                b + 1
            };
            assert(after[a] == s[a0]);
            assert(after[b] == s[b0]);
        }
        assert forall|k: K| entry(after, key, k) == if k == gone {
            None
        } else {
            entry(s, key, k)
        } by {
            lemma_position(s, key, k);
            let q = position(s, key, k);
            if k == gone {
                assert forall|i: int| 0 <= i < after.len() implies key(#[trigger] after[i]) != k by {
                    let i0 = if i < p {
                        i
                    } else {
                        i + 1
                    };
                    assert(after[i] == s[i0]);
                    if i0 > p {
                        assert(key(s[p]) != key(s[i0]));
                    }
                }
                lemma_position_is(after, key, k, after.len() as int);
            } else if q < s.len() {
                let q1 = if q < p {
                    q
                } else {
                    q - 1
                };
                assert forall|i: int| 0 <= i < q1 implies key(#[trigger] after[i]) != k by {
                    let i0 = if i < p {
                        i
                    } else {
                        i + 1
                    };
                    assert(after[i] == s[i0]);
                }
                assert(after[q1] == s[q]);
                lemma_position_is(after, key, k, q1);
            } else {
                assert forall|i: int| 0 <= i < after.len() implies key(#[trigger] after[i]) != k by {
                    let i0 = if i < p {
                        i
                    } else {
                        i + 1
                    };
                    assert(after[i] == s[i0]);
                }
                lemma_position_is(after, key, k, after.len() as int);
            }
        }
    } else {
        assert(entry(s, key, gone).is_none());
    }
}

} // verus!

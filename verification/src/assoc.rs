//! Association sequences: the mathematical model of a keyed store whose
//! entries keep their insertion order.

use vstd::prelude::*;

verus! {

/// Every key appears at most once.
pub open spec fn assoc_unique<V>(m: Seq<(Seq<char>, V)>) -> bool {
    forall|i: int, j: int| 0 <= i < j < m.len() ==> (#[trigger] m[i]).0 != (#[trigger] m[j]).0
}

/// The position of the first entry with key `k`, if any.
pub open spec fn assoc_find<V>(m: Seq<(Seq<char>, V)>, k: Seq<char>) -> Option<int>
    decreases m.len(),
{
    if m.len() == 0 {
        None
    } else if m[0].0 == k {
        Some(0)
    } else {
        match assoc_find(m.drop_first(), k) {
            Some(i) => Some(i + 1),
            None => None,
        }
    }
}

/// The value stored under `k`, if any.
pub open spec fn assoc_lookup<V>(m: Seq<(Seq<char>, V)>, k: Seq<char>) -> Option<V> {
    match assoc_find(m, k) {
        Some(i) => Some(m[i].1),
        None => None,
    }
}

/// The store after `k` is bound to `v`: an existing entry is replaced
/// in place, a new key is appended at the end.
pub open spec fn assoc_set<V>(m: Seq<(Seq<char>, V)>, k: Seq<char>, v: V) -> Seq<(Seq<char>, V)> {
    match assoc_find(m, k) {
        Some(i) => m.update(i, (k, v)),
        None => m.push((k, v)),
    }
}

/// `assoc_find` points at an entry holding `k`, earlier entries hold
/// other keys; `None` means no entry holds `k`.
pub proof fn lemma_assoc_find_spec<V>(m: Seq<(Seq<char>, V)>, k: Seq<char>)
    ensures
        match assoc_find(m, k) {
            Some(i) => 0 <= i < m.len() && m[i].0 == k && forall|j: int|
                0 <= j < i ==> (#[trigger] m[j]).0 != k,
            None => forall|j: int| 0 <= j < m.len() ==> (#[trigger] m[j]).0 != k,
        },
    decreases m.len(),
{
    if m.len() > 0 && m[0].0 != k {
        lemma_assoc_find_spec(m.drop_first(), k);
        let t = m.drop_first();
        assert(forall|j: int| 0 <= j < t.len() ==> t[j] == m[j + 1]);
        match assoc_find(t, k) {
            Some(i) => {
                assert forall|j: int| 0 <= j < i + 1 implies (#[trigger] m[j]).0 != k by {
                    if j > 0 {
                        assert(t[j - 1].0 != k);
                    }
                }
            }
            None => {
                assert forall|j: int| 0 <= j < m.len() implies (#[trigger] m[j]).0 != k by {
                    if j > 0 {
                        assert(t[j - 1].0 != k);
                    }
                }
            }
        }
    }
}

/// If entry `i` holds `k` and no earlier entry does, `assoc_find`
/// returns exactly `i`.
pub proof fn lemma_assoc_find_first<V>(m: Seq<(Seq<char>, V)>, k: Seq<char>, i: int)
    requires
        0 <= i < m.len(),
        m[i].0 == k,
        forall|j: int| 0 <= j < i ==> (#[trigger] m[j]).0 != k,
    ensures
        assoc_find(m, k) == Some(i),
    decreases i,
{
    if i > 0 {
        let t = m.drop_first();
        assert(forall|j: int| 0 <= j < t.len() ==> t[j] == m[j + 1]);
        assert forall|j: int| 0 <= j < i - 1 implies (#[trigger] t[j]).0 != k by {
            assert(m[j + 1].0 != k);
        }
        lemma_assoc_find_first(t, k, i - 1);
    }
}

/// Setting `k` binds `k` to `v` and leaves every other key unchanged;
/// it never removes a key, and adds `k` at the end only when absent.
pub proof fn lemma_assoc_set<V>(m: Seq<(Seq<char>, V)>, k: Seq<char>, v: V)
    ensures
        assoc_lookup(assoc_set(m, k, v), k) == Some(v),
        forall|k2: Seq<char>|
            k2 != k ==> #[trigger] assoc_lookup(assoc_set(m, k, v), k2) == assoc_lookup(m, k2),
{
    lemma_assoc_find_spec(m, k);
    let m2 = assoc_set(m, k, v);
    match assoc_find(m, k) {
        Some(i) => {
            lemma_assoc_find_first(m2, k, i);
            assert(assoc_lookup(m2, k) == Some(v));
            assert forall|k2: Seq<char>| k2 != k implies #[trigger] assoc_lookup(m2, k2)
                == assoc_lookup(m, k2) by {
                lemma_assoc_find_spec(m, k2);
                lemma_assoc_find_spec(m2, k2);
                match assoc_find(m, k2) {
                    Some(i2) => {
                        assert(m2[i2] == m[i2]);
                        lemma_assoc_find_first(m2, k2, i2);
                    }
                    None => {
                        assert forall|j: int| 0 <= j < m2.len() implies (#[trigger] m2[j]).0
                            != k2 by {
                            assert(m2[j] == if j == i {
                                (k, v)
                            } else {
                                m[j]
                            });
                        }
                        if assoc_find(m2, k2) is Some {
                            let i3 = assoc_find(m2, k2)->0;
                            assert(m2[i3].0 != k2);
                            assert(false);
                        }
                    }
                }
            }
        }
        None => {
            lemma_assoc_find_first(m2, k, m.len() as int);
            assert(assoc_lookup(m2, k) == Some(v));
            assert forall|k2: Seq<char>| k2 != k implies #[trigger] assoc_lookup(m2, k2)
                == assoc_lookup(m, k2) by {
                lemma_assoc_find_spec(m, k2);
                lemma_assoc_find_spec(m2, k2);
                match assoc_find(m, k2) {
                    Some(i2) => {
                        assert(m2[i2] == m[i2]);
                        lemma_assoc_find_first(m2, k2, i2);
                    }
                    None => {
                        if assoc_find(m2, k2) is Some {
                            let i3 = assoc_find(m2, k2)->0;
                            assert(m2[i3].0 == k2);
                            assert(i3 < m2.len());
                            if i3 < m.len() {
                                assert(m2[i3] == m[i3]);
                                assert(false);
                            } else {
                                assert(m2[i3] == (k, v));
                                assert(false);
                            }
                        }
                    }
                }
            }
        }
    }
}

} // verus!

//! One database's key-space: a keyed store owned by a single engine,
//! modeled as an association sequence in insertion order.

pub mod admin;
pub mod base_logic;
pub mod key_val;
pub mod lists;
pub mod number;

use vstd::prelude::*;

use crate::assoc::{assoc_find, assoc_lookup};
use crate::resp::{RespData, RespVal};

verus! {

/// The key-space of one database: keys are unique, entries keep the
/// order of first insertion.
pub struct CoreState {
    keyval: Vec<(String, RespData)>,
}

impl View for CoreState {
    type V = Seq<(Seq<char>, RespVal)>;

    closed spec fn view(&self) -> Seq<(Seq<char>, RespVal)> {
        Seq::new(
            self.keyval@.len(),
            |i: int| (self.keyval@[i].0@, self.keyval@[i].1@),
        )
    }
}

impl CoreState {
    /// Every key is bound at most once.
    pub open spec fn wf(self) -> bool {
        crate::assoc::assoc_unique(self@)
    }

    /// An empty key-space.
    pub fn new() -> (r: Self)
        ensures
            r@ == Seq::<(Seq<char>, RespVal)>::empty(),
            r.wf(),
    {
        let r = CoreState { keyval: Vec::new() };
        proof {
            assert(r@ =~= Seq::<(Seq<char>, RespVal)>::empty());
        }
        r
    }

    /// How many keys are bound.
    pub fn len(&self) -> (r: usize)
        ensures
            r == self@.len(),
    {
        self.keyval.len()
    }

    /// The value stored under `key`, if any, borrowed in place.
    pub fn stored(&self, key: &String) -> (r: Option<&RespData>)
        ensures
            match r {
                Some(v) => assoc_lookup(self@, key@) == Some(v@),
                None => assoc_lookup(self@, key@) is None,
            },
    {
        match self.find_entry(key) {
            Some(i) => Some(&self.keyval[i].1),
            None => None,
        }
    }

    /// The position of `key`'s entry, if bound.
    pub(crate) fn find_entry(&self, key: &String) -> (r: Option<usize>)
        ensures
            match r {
                Some(i) => 0 <= i < self@.len() && assoc_find(self@, key@) == Some(i as int),
                None => assoc_find(self@, key@) is None,
            },
    {
        let mut i: usize = 0;
        while i < self.keyval.len()
            invariant
                0 <= i <= self@.len(),
                self@.len() == self.keyval@.len(),
                forall|j: int| 0 <= j < i ==> (#[trigger] self@[j]).0 != key@,
            decreases self.keyval@.len() - i,
        {
            if self.keyval[i].0 == *key {
                proof {
                    assert(self@[i as int].0 == key@);
                    crate::assoc::lemma_assoc_find_first(self@, key@, i as int);
                }
                return Some(i);
            }
            proof {
                assert(self@[i as int].0 == self.keyval@[i as int].0@);
            }
            i = i + 1;
        }
        proof {
            crate::assoc::lemma_assoc_find_spec(self@, key@);
            if assoc_find(self@, key@) is Some {
                let fi = assoc_find(self@, key@)->0;
                assert(self@[fi].0 == key@);
                assert(false);
            }
        }
        None
    }

    /// Replace the value at entry `i`, keeping its key.
    pub(crate) fn replace_at(&mut self, i: usize, value: RespData)
        requires
            0 <= i < old(self)@.len(),
        ensures
            final(self)@ == old(self)@.update(i as int, (old(self)@[i as int].0, value@)),
            old(self).wf() ==> final(self).wf(),
    {
        let ghost m = self@;
        let key = self.keyval[i].0.clone();
        let ghost k0 = self.keyval@[i as int].0@;
        self.keyval.set(i, (key, value));
        proof {
            assert(self@ =~= m.update(i as int, (m[i as int].0, value@)));
            if old(self).wf() {
                assert forall|a: int, b: int|
                    0 <= a < b < self@.len() implies (#[trigger] self@[a]).0 != (
                #[trigger] self@[b]).0 by {
                    assert(self@[a].0 == m[a].0);
                    assert(self@[b].0 == m[b].0);
                }
            }
        }
    }

    /// Append a binding for a key not yet present.
    pub(crate) fn append_entry(&mut self, key: String, value: RespData)
        requires
            assoc_find(old(self)@, key@) is None,
        ensures
            final(self)@ == old(self)@.push((key@, value@)),
            old(self).wf() ==> final(self).wf(),
    {
        let ghost m = self@;
        let ghost k = key@;
        self.keyval.push((key, value));
        proof {
            assert(self@ =~= m.push((k, value@)));
            crate::assoc::lemma_assoc_find_spec(m, k);
            if old(self).wf() {
                assert forall|a: int, b: int|
                    0 <= a < b < self@.len() implies (#[trigger] self@[a]).0 != (
                #[trigger] self@[b]).0 by {
                    if b < m.len() {
                        assert(self@[a] == m[a]);
                        assert(self@[b] == m[b]);
                    } else {
                        assert(self@[b].0 == k);
                        assert(self@[a] == m[a]);
                        assert(m[a].0 != k);
                    }
                }
            }
        }
    }

    /// Remove every binding.
    pub(crate) fn clear_all(&mut self)
        ensures
            final(self)@ == Seq::<(Seq<char>, RespVal)>::empty(),
            final(self).wf(),
    {
        self.keyval.clear();
        proof {
            assert(self@ =~= Seq::<(Seq<char>, RespVal)>::empty());
        }
    }

    /// Borrow the key at entry `i`.
    pub(crate) fn key_at(&self, i: usize) -> (r: &String)
        requires
            0 <= i < self@.len(),
        ensures
            r@ == self@[i as int].0,
    {
        &self.keyval[i].0
    }

    /// Borrow the value at entry `i`.
    pub(crate) fn value_at(&self, i: usize) -> (r: &RespData)
        requires
            0 <= i < self@.len(),
        ensures
            r@ == self@[i as int].1,
    {
        &self.keyval[i].1
    }
}

} // verus!

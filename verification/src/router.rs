//! The router: one engine per database identifier, created lazily on
//! first reference, with the default database ready at startup.

use vstd::prelude::*;

use crate::assoc::{assoc_find, assoc_lookup, assoc_set};
use crate::command::Command;
use crate::db::base_logic::{self, apply_spec};
use crate::db::CoreState;
use crate::resp::{RespData, RespVal};

verus! {

/// The well-known identifier of the database every session starts on.
pub open spec fn default_db_id() -> Seq<char> {
    "default"@
}

/// The key-space a routed command meets: the addressed database's, or
/// an empty one the moment the identifier is first referenced.
pub open spec fn db_of(
    dbs: Seq<(Seq<char>, Seq<(Seq<char>, RespVal)>)>,
    id: Seq<char>,
) -> Seq<(Seq<char>, RespVal)> {
    match assoc_lookup(dbs, id) {
        Some(m) => m,
        None => Seq::empty(),
    }
}

/// What routing does: the addressed database alone is replaced by the
/// command's outcome on it; every other database is untouched.
pub open spec fn route_spec(
    dbs: Seq<(Seq<char>, Seq<(Seq<char>, RespVal)>)>,
    id: Seq<char>,
    c: crate::command::CommandVal,
) -> (Seq<(Seq<char>, Seq<(Seq<char>, RespVal)>)>, RespVal) {
    let m = db_of(dbs, id);
    let stepped = apply_spec(m, c);
    (assoc_set(dbs, id, stepped.0), stepped.1)
}

/// The stateful part of the store: every database, addressed by its
/// identifier, each owned here exclusively.
pub struct Core {
    databases: Vec<(String, CoreState)>,
}

impl View for Core {
    type V = Seq<(Seq<char>, Seq<(Seq<char>, RespVal)>)>;

    closed spec fn view(&self) -> Seq<(Seq<char>, Seq<(Seq<char>, RespVal)>)> {
        Seq::new(self.databases@.len(), |i: int| (self.databases@[i].0@, self.databases@[i].1@))
    }
}

impl Core {
    /// Identifiers are unique and every key-space is well formed.
    pub open spec fn wf(self) -> bool {
        &&& crate::assoc::assoc_unique(self@)
        &&& forall|i: int|
            0 <= i < self@.len() ==> crate::assoc::assoc_unique((#[trigger] self@[i]).1)
    }

    /// A router with the default database pre-created and empty.
    pub fn new() -> (r: Self)
        ensures
            r.wf(),
            r@ == Seq::<(Seq<char>, Seq<(Seq<char>, RespVal)>)>::empty().push(
                (default_db_id(), Seq::<(Seq<char>, RespVal)>::empty()),
            ),
    {
        let mut databases: Vec<(String, CoreState)> = Vec::new();
        databases.push(("default".to_owned(), CoreState::new()));
        let r = Core { databases };
        proof {
            assert(r@ =~= Seq::<(Seq<char>, Seq<(Seq<char>, RespVal)>)>::empty().push(
                (default_db_id(), Seq::<(Seq<char>, RespVal)>::empty()),
            ));
        }
        r
    }

    /// The position of `id`'s engine, if one exists.
    fn find_db(&self, id: &String) -> (r: Option<usize>)
        ensures
            match r {
                Some(i) => 0 <= i < self@.len() && assoc_find(self@, id@) == Some(i as int),
                None => assoc_find(self@, id@) is None,
            },
    {
        let mut i: usize = 0;
        while i < self.databases.len()
            invariant
                0 <= i <= self@.len(),
                self@.len() == self.databases@.len(),
                forall|j: int| 0 <= j < i ==> (#[trigger] self@[j]).0 != id@,
            decreases self.databases@.len() - i,
        {
            if self.databases[i].0 == *id {
                proof {
                    assert(self@[i as int].0 == id@);
                    crate::assoc::lemma_assoc_find_first(self@, id@, i as int);
                }
                return Some(i);
            }
            proof {
                assert(self@[i as int].0 == self.databases@[i as int].0@);
            }
            i = i + 1;
        }
        proof {
            crate::assoc::lemma_assoc_find_spec(self@, id@);
            if assoc_find(self@, id@) is Some {
                let fi = assoc_find(self@, id@)->0;
                assert(self@[fi].0 == id@);
                assert(false);
            }
        }
        None
    }

    /// Route one command to the database `id` addresses, creating its
    /// engine on first reference, as `route_spec` describes: no other
    /// database is observed or changed.
    pub fn route(&mut self, id: &String, cmd: Command) -> (r: RespData)
        requires
            old(self).wf(),
        ensures
            final(self).wf(),
            final(self)@ == route_spec(old(self)@, id@, cmd@).0,
            r@ == route_spec(old(self)@, id@, cmd@).1,
    {
        let ghost dbs0 = self@;
        match self.find_db(id) {
            Some(i) => {
                let ghost m0 = self@[i as int].1;
                let reply = base_logic::core_logic(&mut self.databases[i].1, cmd);
                proof {
                    crate::assoc::lemma_assoc_find_spec(dbs0, id@);
                    assert(self@ =~= dbs0.update(i as int, (dbs0[i as int].0, self@[i as int].1)));
                    assert(dbs0[i as int].0 == id@);
                    assert(self@ =~= assoc_set(dbs0, id@, apply_spec(m0, cmd@).0));
                    assert forall|a: int, b: int|
                        0 <= a < b < self@.len() implies (#[trigger] self@[a]).0 != (
                    #[trigger] self@[b]).0 by {
                        assert(self@[a].0 == dbs0[a].0);
                        assert(self@[b].0 == dbs0[b].0);
                    }
                }
                reply
            }
            None => {
                let mut fresh = CoreState::new();
                let reply = base_logic::core_logic(&mut fresh, cmd);
                let ghost mstep = fresh@;
                self.databases.push((id.clone(), fresh));
                proof {
                    assert(self@ =~= dbs0.push((id@, mstep)));
                    crate::assoc::lemma_assoc_find_spec(dbs0, id@);
                    assert(self@ =~= assoc_set(dbs0, id@, apply_spec(Seq::empty(), cmd@).0));
                    assert forall|a: int, b: int|
                        0 <= a < b < self@.len() implies (#[trigger] self@[a]).0 != (
                    #[trigger] self@[b]).0 by {
                        if b < dbs0.len() {
                            assert(self@[a] == dbs0[a]);
                            assert(self@[b] == dbs0[b]);
                        } else {
                            assert(self@[b].0 == id@);
                            assert(self@[a] == dbs0[a]);
                            assert(dbs0[a].0 != id@);
                        }
                    }
                }
                reply
            }
        }
    }
}

/// Isolation: routing a command to one database leaves what every
/// other identifier addresses exactly as it was.
pub proof fn lemma_isolation(
    dbs: Seq<(Seq<char>, Seq<(Seq<char>, RespVal)>)>,
    id: Seq<char>,
    c: crate::command::CommandVal,
    other: Seq<char>,
)
    requires
        other != id,
    ensures
        assoc_lookup(route_spec(dbs, id, c).0, other) == assoc_lookup(dbs, other),
        db_of(route_spec(dbs, id, c).0, other) == db_of(dbs, other),
{
    let stepped = apply_spec(db_of(dbs, id), c);
    crate::assoc::lemma_assoc_set(dbs, id, stepped.0);
}

} // verus!

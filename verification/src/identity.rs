//! Bidirectional, injective mapping between client-local and
//! server-assigned entity identifiers.
//!
//! The table is the trust boundary translator of one connection: every id
//! that crosses the wire is server-space and is translated here on ingress
//! and egress. The view of a table is the map from local id to server id;
//! well-formedness says both directions are injective, so the table is a
//! partial bijection.

use vstd::prelude::*;
use std::collections::HashMap;

verus! {

broadcast use vstd::std_specs::hash::group_hash_axioms;

/// Reason a `bind` is refused: the offered pair would break bijectivity.
#[derive(Clone, Copy, Debug, PartialEq, Eq, Structural)]
pub enum BindError {
    /// The local side is already bound.
    LocalBound,
    /// The server side is already bound.
    ServerBound,
}

/// No two bindings share a value: the map is invertible.
pub open spec fn map_injective(mm: Map<u64, u64>) -> bool {
    forall|l1: u64, l2: u64|
        mm.contains_key(l1) && mm.contains_key(l2) && #[trigger] mm[l1] == #[trigger] mm[l2]
            ==> l1 == l2
}

/// Local-to-server resolution over the model.
pub open spec fn to_server_spec(mm: Map<u64, u64>, local: u64) -> Option<u64> {
    if mm.contains_key(local) {
        Some(mm[local])
    } else {
        None
    }
}

/// Server-to-local resolution over the model: the (unique, when the map
/// is injective) key bound to `server`.
pub open spec fn to_local_spec(mm: Map<u64, u64>, server: u64) -> Option<u64> {
    if exists|l: u64| mm.contains_key(l) && mm[l] == server {
        Some(choose|l: u64| mm.contains_key(l) && mm[l] == server)
    } else {
        None
    }
}

/// Bidirectional identity table of one connection: a pair of hash maps,
/// one per direction, kept mutually inverse, so both lookups are O(1)
/// amortized.
pub struct IdentityMap {
    l2s: HashMap<u64, u64>,
    s2l: HashMap<u64, u64>,
}

impl IdentityMap {
    /// The model: local id to server id.
    pub closed spec fn view(&self) -> Map<u64, u64> {
        self.l2s@
    }

    /// The two directions are mutually inverse.
    pub closed spec fn wf(&self) -> bool {
        &&& forall|l: u64| #[trigger] self.l2s@.contains_key(l) ==> self.s2l@.contains_key(
            self.l2s@[l],
        ) && self.s2l@[self.l2s@[l]] == l
        &&& forall|s: u64| #[trigger] self.s2l@.contains_key(s) ==> self.l2s@.contains_key(
            self.s2l@[s],
        ) && self.l2s@[self.s2l@[s]] == s
    }

    /// A well-formed table is injective in both directions.
    pub proof fn lemma_wf_injective(&self)
        requires
            self.wf(),
        ensures
            map_injective(self@),
    {
        assert forall|l1: u64, l2: u64|
            self@.contains_key(l1) && self@.contains_key(l2) && #[trigger] self@[l1]
                == #[trigger] self@[l2] implies l1 == l2 by {
            assert(self.s2l@[self.l2s@[l1]] == l1);
            assert(self.s2l@[self.l2s@[l2]] == l2);
        }
    }

    /// An empty table.
    pub fn new() -> (r: IdentityMap)
        ensures
            r@ == Map::<u64, u64>::empty(),
            r.wf(),
    {
        IdentityMap { l2s: HashMap::new(), s2l: HashMap::new() }
    }

    /// How many pairs are bound.
    pub fn count(&self) -> (r: usize)
        requires
            self.wf(),
        ensures
            r == self@.dom().len(),
            self@.dom().finite(),
    {
        self.l2s.len()
    }

    /// The server id bound to `local`, if any.
    pub fn resolve_to_server(&self, local: u64) -> (r: Option<u64>)
        requires
            self.wf(),
        ensures
            r == to_server_spec(self@, local),
    {
        match self.l2s.get(&local) {
            Some(server) => Some(*server),
            None => None,
        }
    }

    /// The local id bound to `server`, if any.
    pub fn resolve_to_local(&self, server: u64) -> (r: Option<u64>)
        requires
            self.wf(),
        ensures
            r == to_local_spec(self@, server),
    {
        match self.s2l.get(&server) {
            Some(local) => {
                let l = *local;
                proof {
                    assert(self.l2s@.contains_key(l) && self.l2s@[l] == server);
                    self.lemma_wf_injective();
                    let lw = choose|l2: u64| self@.contains_key(l2) && self@[l2] == server;
                    assert(self@[lw] == self@[l]);
                }
                Some(l)
            },
            None => {
                proof {
                    assert forall|l: u64| !(self@.contains_key(l) && self@[l] == server) by {
                        if self@.contains_key(l) && self@[l] == server {
                            assert(self.s2l@.contains_key(server));
                        }
                    }
                }
                None
            },
        }
    }

    /// Install a bijective pair; refused if either side is already bound.
    pub fn bind(&mut self, local: u64, server: u64) -> (r: Result<(), BindError>)
        requires
            old(self).wf(),
        ensures
            final(self).wf(),
            match r {
                Ok(()) => {
                    &&& to_server_spec(old(self)@, local) is None
                    &&& to_local_spec(old(self)@, server) is None
                    &&& final(self)@ == old(self)@.insert(local, server)
                },
                Err(BindError::LocalBound) => {
                    &&& to_server_spec(old(self)@, local) is Some
                    &&& final(self)@ == old(self)@
                },
                Err(BindError::ServerBound) => {
                    &&& to_server_spec(old(self)@, local) is None
                    &&& to_local_spec(old(self)@, server) is Some
                    &&& final(self)@ == old(self)@
                },
            },
    {
        if self.l2s.contains_key(&local) {
            return Err(BindError::LocalBound);
        }
        if self.s2l.contains_key(&server) {
            proof {
                let lw = self.s2l@[server];
                assert(self.l2s@.contains_key(lw) && self.l2s@[lw] == server);
            }
            return Err(BindError::ServerBound);
        }
        proof {
            assert forall|l: u64| !(self@.contains_key(l) && self@[l] == server) by {
                if self@.contains_key(l) && self@[l] == server {
                    assert(self.s2l@.contains_key(server));
                }
            }
        }
        self.l2s.insert(local, server);
        self.s2l.insert(server, local);
        proof {
            assert forall|l: u64| #[trigger] self.l2s@.contains_key(l) implies self.s2l@
                .contains_key(self.l2s@[l]) && self.s2l@[self.l2s@[l]] == l by {
                if l != local {
                    assert(old(self).l2s@.contains_key(l));
                    assert(old(self).l2s@[l] != server);
                }
            }
            assert forall|s: u64| #[trigger] self.s2l@.contains_key(s) implies self.l2s@
                .contains_key(self.s2l@[s]) && self.l2s@[self.s2l@[s]] == s by {
                if s != server {
                    assert(old(self).s2l@.contains_key(s));
                    assert(old(self).s2l@[s] != local);
                }
            }
        }
        Ok(())
    }

    /// Remove the pair bound to `server`, handing back its local id;
    /// absence is a recoverable condition, not a fault.
    pub fn unbind(&mut self, server: u64) -> (r: Option<u64>)
        requires
            old(self).wf(),
        ensures
            final(self).wf(),
            match r {
                Some(l) => {
                    &&& old(self)@.contains_key(l)
                    &&& old(self)@[l] == server
                    &&& final(self)@ == old(self)@.remove(l)
                },
                None => {
                    &&& to_local_spec(old(self)@, server) is None
                    &&& final(self)@ == old(self)@
                },
            },
    {
        match self.s2l.remove(&server) {
            Some(l) => {
                proof {
                    assert(old(self).l2s@.contains_key(l) && old(self).l2s@[l] == server);
                }
                self.l2s.remove(&l);
                proof {
                    assert forall|l2: u64| #[trigger] self.l2s@.contains_key(l2) implies self.s2l@
                        .contains_key(self.l2s@[l2]) && self.s2l@[self.l2s@[l2]] == l2 by {
                        assert(old(self).l2s@.contains_key(l2));
                        assert(old(self).s2l@[old(self).l2s@[l2]] == l2);
                        assert(self.l2s@[l2] != server);
                    }
                    assert forall|s2: u64| #[trigger] self.s2l@.contains_key(s2) implies self.l2s@
                        .contains_key(self.s2l@[s2]) && self.l2s@[self.s2l@[s2]] == s2 by {
                        assert(old(self).s2l@.contains_key(s2));
                        assert(old(self).l2s@[old(self).s2l@[s2]] == s2);
                        assert(self.s2l@[s2] != l);
                    }
                }
                Some(l)
            },
            None => {
                proof {
                    assert forall|l: u64| !(self@.contains_key(l) && self@[l] == server) by {
                        if self@.contains_key(l) && self@[l] == server {
                            assert(old(self).s2l@.contains_key(server));
                        }
                    }
                }
                None
            },
        }
    }
}

/// Bound pairs resolve both ways: server lookup of a bound local id gives
/// the bound server id, and resolving that server id gives the local id
/// back.
pub proof fn lemma_round_trip_local(mm: Map<u64, u64>, local: u64)
    requires
        map_injective(mm),
        mm.contains_key(local),
    ensures
        to_server_spec(mm, local) == Some(mm[local]),
        to_local_spec(mm, mm[local]) == Some(local),
{
    assert(mm.contains_key(local) && mm[local] == mm[local]);
    let lw = choose|l: u64| mm.contains_key(l) && mm[l] == mm[local];
    assert(mm[lw] == mm[local]);
}

/// The other direction: a successful server-to-local resolution round
/// trips back to the same server id.
pub proof fn lemma_round_trip_server(mm: Map<u64, u64>, server: u64, local: u64)
    requires
        map_injective(mm),
        to_local_spec(mm, server) == Some(local),
    ensures
        to_server_spec(mm, local) == Some(server),
{
    let lw = choose|l: u64| mm.contains_key(l) && mm[l] == server;
    assert(mm.contains_key(lw));
}

/// After an unbind both directions answer absent.
pub proof fn lemma_unbind_clears(mm: Map<u64, u64>, local: u64)
    requires
        map_injective(mm),
        mm.contains_key(local),
    ensures
        to_server_spec(mm.remove(local), local) is None,
        to_local_spec(mm.remove(local), mm[local]) is None,
{
    let mm2 = mm.remove(local);
    assert forall|l: u64| !(mm2.contains_key(l) && mm2[l] == mm[local]) by {
        if mm2.contains_key(l) {
            assert(mm.contains_key(l));
            if mm[l] == mm[local] {
                assert(l == local);
            }
        }
    }
}

} // verus!

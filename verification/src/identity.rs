//! Client identity bridge.
//!
//! Pairs the replication framework's logical connection handle with the
//! transport's numeric client id. The pair is valid exactly while the
//! connection is up: the lifecycle monitor registers it on connect and
//! unregisters it on disconnect, and the pumps look ids up in both
//! directions in constant time.

use std::collections::HashMap;
use vstd::prelude::*;

verus! {

broadcast use vstd::std_specs::hash::group_hash_axioms;

/// A non-owning one-to-one table between logical connection handles and
/// transport client ids. Logical handles are allocated here, from a counter,
/// when a connection is registered.
pub struct IdentityBridge {
    /// Logical handle to transport client id.
    fwd: HashMap<u64, u64>,
    /// Transport client id to logical handle.
    rev: HashMap<u64, u64>,
    /// The next logical handle to hand out; never reused.
    next_logical: u64,
}

impl IdentityBridge {
    /// The map from logical handles to transport client ids.
    pub closed spec fn map(self) -> Map<u64, u64> {
        self.fwd@
    }

    /// The map from transport client ids to logical handles.
    pub closed spec fn rev_map(self) -> Map<u64, u64> {
        self.rev@
    }

    /// The next logical handle to be allocated.
    pub closed spec fn next(self) -> u64 {
        self.next_logical
    }

    /// The two directions mirror each other, and every allocated handle is
    /// below the counter.
    pub open spec fn wf(self) -> bool {
        &&& forall|l: u64| #[trigger]
            self.map().contains_key(l) ==> self.rev_map().contains_key(self.map()[l])
                && self.rev_map()[self.map()[l]] == l
        &&& forall|t: u64| #[trigger]
            self.rev_map().contains_key(t) ==> self.map().contains_key(self.rev_map()[t])
                && self.map()[self.rev_map()[t]] == t
        &&& forall|l: u64| #[trigger] self.map().contains_key(l) ==> l < self.next()
    }

    /// An empty bridge.
    pub fn new() -> (bridge: IdentityBridge)
        ensures
            bridge.wf(),
            bridge.map() == Map::<u64, u64>::empty(),
            bridge.rev_map() == Map::<u64, u64>::empty(),
            bridge.next() == 0,
    {
        IdentityBridge { fwd: HashMap::new(), rev: HashMap::new(), next_logical: 0 }
    }

    /// Registers a newly connected transport client id and allocates the
    /// logical handle that stands for the connection.
    pub fn register(&mut self, transport_id: u64) -> (logical: u64)
        requires
            old(self).wf(),
            !old(self).rev_map().contains_key(transport_id),
            old(self).next() < u64::MAX,
        ensures
            final(self).wf(),
            logical == old(self).next(),
            !old(self).map().contains_key(logical),
            final(self).map() == old(self).map().insert(logical, transport_id),
            final(self).rev_map() == old(self).rev_map().insert(transport_id, logical),
            final(self).next() == old(self).next() + 1,
    {
        let logical = self.next_logical;
        self.fwd.insert(logical, transport_id);
        self.rev.insert(transport_id, logical);
        self.next_logical = self.next_logical + 1;
        proof {
            assert forall|l: u64| #[trigger] self.map().contains_key(l) implies self.rev_map()
                .contains_key(self.map()[l]) && self.rev_map()[self.map()[l]] == l by {
                if l != logical {
                    assert(old(self).map().contains_key(l));
                    // The old pair of l cannot collide with the new transport
                    // id, which was not registered before.
                    assert(old(self).rev_map().contains_key(old(self).map()[l]));
                }
            }
            assert forall|t: u64| #[trigger] self.rev_map().contains_key(t) implies self.map()
                .contains_key(self.rev_map()[t]) && self.map()[self.rev_map()[t]] == t by {
                if t != transport_id {
                    assert(old(self).rev_map().contains_key(t));
                }
            }
        }
        logical
    }

    /// The transport client id of a logical handle, while registered.
    pub fn resolve(&self, logical: u64) -> (transport_id: Option<u64>)
        ensures
            transport_id == if self.map().contains_key(logical) {
                Some(self.map()[logical])
            } else {
                None::<u64>
            },
    {
        match self.fwd.get(&logical) {
            Some(transport_id) => Some(*transport_id),
            None => None,
        }
    }

    /// The logical handle of a transport client id, while registered.
    pub fn resolve_back(&self, transport_id: u64) -> (logical: Option<u64>)
        ensures
            logical == if self.rev_map().contains_key(transport_id) {
                Some(self.rev_map()[transport_id])
            } else {
                None::<u64>
            },
    {
        match self.rev.get(&transport_id) {
            Some(logical) => Some(*logical),
            None => None,
        }
    }

    /// Whether a logical handle is currently registered.
    pub fn contains(&self, logical: u64) -> (present: bool)
        ensures
            present == self.map().contains_key(logical),
    {
        self.fwd.contains_key(&logical)
    }

    /// Removes the pair of a logical handle; a handle that is not registered
    /// is left alone.
    pub fn unregister(&mut self, logical: u64)
        requires
            old(self).wf(),
        ensures
            final(self).wf(),
            final(self).map() == old(self).map().remove(logical),
            final(self).rev_map() == if old(self).map().contains_key(logical) {
                old(self).rev_map().remove(old(self).map()[logical])
            } else {
                old(self).rev_map()
            },
            final(self).next() == old(self).next(),
    {
        match self.fwd.remove(&logical) {
            Some(transport_id) => {
                self.rev.remove(&transport_id);
                proof {
                    assert(old(self).map().contains_key(logical) && old(self).map()[logical]
                        == transport_id);
                    assert forall|l: u64| #[trigger] self.map().contains_key(l) implies self
                        .rev_map().contains_key(self.map()[l]) && self.rev_map()[self.map()[l]]
                        == l by {
                        assert(old(self).map().contains_key(l));
                        // If the remaining pair of l pointed at the removed
                        // transport id, both directions would name l and the
                        // removed handle at once.
                        assert(old(self).rev_map().contains_key(old(self).map()[l]));
                    }
                    assert forall|t: u64| #[trigger] self.rev_map().contains_key(t) implies self
                        .map().contains_key(self.rev_map()[t]) && self.map()[self.rev_map()[t]]
                        == t by {
                        assert(old(self).rev_map().contains_key(t));
                        assert(old(self).map().contains_key(old(self).rev_map()[t]));
                    }
                }
            },
            None => {
                proof {
                    assert forall|l: u64| #[trigger] self.map().contains_key(l) implies self
                        .rev_map().contains_key(self.map()[l]) && self.rev_map()[self.map()[l]]
                        == l by {
                        assert(old(self).map().contains_key(l));
                    }
                    assert forall|t: u64| #[trigger] self.rev_map().contains_key(t) implies self
                        .map().contains_key(self.rev_map()[t]) && self.map()[self.rev_map()[t]]
                        == t by {
                        assert(old(self).rev_map().contains_key(t));
                        assert(old(self).map().contains_key(old(self).rev_map()[t]));
                    }
                }
            },
        }
    }
}

} // verus!

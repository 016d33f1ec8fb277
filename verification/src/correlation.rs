//! The identifier-to-waiter table that multiplexes many outstanding
//! exchanges over one connection. Identifiers are unique among outstanding
//! calls; a response resolves its own identifier exactly once, whatever
//! order responses arrive in; a second response for a resolved identifier
//! is detected and discarded.

use std::collections::HashMap;

use vstd::prelude::*;

verus! {

/// The pending-exchange table of one connection. Each registered identifier
/// is either still waiting (`None`) or resolved with its response
/// (`Some(response)`), until the waiter takes the response and releases the
/// identifier.
pub struct Correlator<R> {
    pending: HashMap<u64, Option<R>>,
}

impl<R> View for Correlator<R> {
    type V = Map<u64, Option<R>>;

    closed spec fn view(&self) -> Map<u64, Option<R>> {
        self.pending@
    }
}

impl<R> Correlator<R> {
    /// An empty table: no identifier outstanding.
    pub fn new() -> (r: Self)
        ensures
            r@ == Map::<u64, Option<R>>::empty(),
    {
        Correlator { pending: HashMap::new() }
    }

    /// How many identifiers are outstanding or resolved but not yet taken.
    pub fn len(&self) -> (r: usize)
        ensures
            r == self@.dom().len(),
    {
        self.pending.len()
    }

    /// Register a fresh identifier before transmission. Fails, changing
    /// nothing, exactly when the identifier is already in flight: no two
    /// waiters can share one identifier.
    pub fn register(&mut self, id: u64) -> (r: bool)
        ensures
            r == !old(self)@.contains_key(id),
            r ==> final(self)@ == old(self)@.insert(id, None::<R>),
            !r ==> final(self)@ == old(self)@,
    {
        if self.pending.contains_key(&id) {
            false
        } else {
            self.pending.insert(id, None);
            true
        }
    }

    /// Deliver the response for an identifier. Succeeds exactly when the
    /// identifier is registered and not yet resolved; a duplicate response
    /// or one for an unknown identifier is rejected and changes nothing.
    pub fn resolve(&mut self, id: u64, resp: R) -> (r: bool)
        ensures
            r == (old(self)@.contains_key(id) && old(self)@[id] is None),
            r ==> final(self)@ == old(self)@.insert(id, Some(resp)),
            !r ==> final(self)@ == old(self)@,
    {
        let waiting = match self.pending.get(&id) {
            Some(slot) => match slot {
                Option::Some(_) => false,
                Option::None => true,
            },
            None => false,
        };
        if waiting {
            self.pending.insert(id, Some(resp));
            true
        } else {
            false
        }
    }

    /// Take the response delivered for an identifier, releasing the
    /// identifier for reuse. Returns the response exactly when one was
    /// resolved for this identifier; a still-waiting or unknown identifier
    /// yields nothing and changes nothing.
    pub fn take(&mut self, id: u64) -> (r: Option<R>)
        ensures
            (r is Some) == (old(self)@.contains_key(id) && old(self)@[id] is Some),
            r is Some ==> r == old(self)@[id] && final(self)@ == old(self)@.remove(id),
            r is None ==> final(self)@ == old(self)@,
    {
        let resolved = match self.pending.get(&id) {
            Some(slot) => match slot {
                Option::Some(_) => true,
                Option::None => false,
            },
            None => false,
        };
        if !resolved {
            return None;
        }
        match self.pending.remove(&id) {
            Some(slot) => slot,
            None => {
                proof {
                    assert(false);
                }
                None
            },
        }
    }
}

/// Responses for distinct identifiers commute: the table ends in the same
/// state whichever of the two arrives first, so delivering N responses in
/// an arbitrary permutation resolves each identifier to its own response.
pub proof fn lemma_resolve_order_irrelevant<R>(
    m: Map<u64, Option<R>>,
    id1: u64,
    r1: R,
    id2: u64,
    r2: R,
)
    requires
        id1 != id2,
    ensures
        m.insert(id1, Some(r1)).insert(id2, Some(r2)) == m.insert(id2, Some(r2)).insert(
            id1,
            Some(r1),
        ),
{
    assert(m.insert(id1, Some(r1)).insert(id2, Some(r2)) =~= m.insert(id2, Some(r2)).insert(
        id1,
        Some(r1),
    ));
}

/// A delivered response never disturbs another identifier's slot: what a
/// waiter takes is its own response, not a late or foreign one.
pub proof fn lemma_resolve_preserves_others<R>(m: Map<u64, Option<R>>, id: u64, resp: R, other: u64)
    requires
        id != other,
    ensures
        m.insert(id, Some(resp)).contains_key(other) == m.contains_key(other),
        m.contains_key(other) ==> m.insert(id, Some(resp))[other] == m[other],
{
}

} // verus!

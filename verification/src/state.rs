//! The state: the registry owning every entity, keyed by a process-assigned
//! identifier.
//!
//! The identifier counter lives in the state itself and `create_entity` is
//! its sole mutator, so uniqueness of identifiers is structural: the counter
//! only grows and an issued identifier is never reused.

use vstd::prelude::*;
use crate::entity::{Entity, GraphLabel};

verus! {

/// The registry of all entities whose signals are maintained.
pub struct State {
    pub entities: Vec<Entity>,
    pub next_entity_id: u16,
}

/// How one call of `create_entity` relates the state before (`pre`) to the
/// state after (`post`) and the identifier it returned: the identifier is
/// the counter's value, the counter advanced by one, and one fresh entity —
/// carrying that identifier and no graphs — was appended; nothing else
/// changed.
pub open spec fn create_post(pre: State, post: State, id: u16) -> bool {
    &&& id == pre.spec_next_id()
    &&& post.spec_next_id() == pre.spec_next_id() + 1
    &&& post.entities@.len() == pre.entities@.len() + 1
    &&& forall|i: int| 0 <= i < pre.entities@.len() ==> post.entities@[i] == pre.entities@[i]
    &&& post.entities@.last().spec_id() == id
    &&& forall|label: GraphLabel| #[trigger] post.entities@.last().graph_of(label) is None
}

impl State {
    /// The identifier the next created entity will receive.
    pub closed spec fn spec_next_id(&self) -> u16 {
        self.next_entity_id
    }

    /// The structural invariant: the counter counts the entities, each
    /// entity sits at the index equal to its identifier, and each is itself
    /// well formed.
    pub open spec fn wf(&self) -> bool {
        &&& self.entities@.len() == self.spec_next_id() as int
        &&& forall|i: int| 0 <= i < self.entities@.len() ==> (#[trigger] self.entities@[i].spec_id())
            as int == i
        &&& forall|i: int| 0 <= i < self.entities@.len() ==> (#[trigger] self.entities@[i]).wf()
    }

    /// A new state holds no entities and will issue identifier 0 first.
    pub fn new() -> (s: State)
        ensures
            s.wf(),
            s.entities@.len() == 0,
            s.spec_next_id() == 0,
    {
        State { entities: Vec::new(), next_entity_id: 0 }
    }

    /// Allocates the next identifier, stores a fresh entity under it, and
    /// returns the identifier.
    pub fn create_entity(&mut self) -> (id: u16)
        requires
            old(self).wf(),
            old(self).spec_next_id() < u16::MAX,
        ensures
            final(self).wf(),
            create_post(*old(self), *final(self), id),
    {
        let id = self.next_entity_id;
        let entity = Entity::fresh(id);
        self.entities.push(entity);
        self.next_entity_id = id + 1;
        id
    }

    /// The number of entities in the state.
    pub fn entity_count(&self) -> (n: usize)
        ensures
            n == self.entities@.len(),
    {
        self.entities.len()
    }

    /// The identifier the next created entity will receive, for diagnostics.
    pub fn next_id(&self) -> (r: u16)
        ensures
            r == self.spec_next_id(),
    {
        self.next_entity_id
    }
}

/// Uniqueness, step case: the identifiers returned by two successive
/// `create_entity` calls are strictly increasing.
pub proof fn lemma_create_ids_increase(s0: State, s1: State, s2: State, id1: u16, id2: u16)
    requires
        create_post(s0, s1, id1),
        create_post(s1, s2, id2),
    ensures
        id1 < id2,
{
}

/// Uniqueness, any sequence of calls: along a chain of states where each
/// step is one `create_entity` call, the returned identifiers are pairwise
/// distinct and strictly increasing in call order.
pub proof fn lemma_create_ids_strictly_increasing(chain: Seq<State>, ids: Seq<u16>)
    requires
        chain.len() == ids.len() + 1,
        forall|k: int| 0 <= k < ids.len() ==> create_post(chain[k], chain[k + 1], ids[k]),
    ensures
        forall|k: int, l: int| 0 <= k < l < ids.len() ==> ids[k] < ids[l],
{
    assert forall|k: int, l: int| 0 <= k < l < ids.len() implies ids[k] < ids[l] by {
        lemma_counter_advances(chain, ids, k, l);
    }
}

proof fn lemma_counter_advances(chain: Seq<State>, ids: Seq<u16>, k: int, l: int)
    requires
        chain.len() == ids.len() + 1,
        forall|m: int| 0 <= m < ids.len() ==> create_post(chain[m], chain[m + 1], ids[m]),
        0 <= k <= l < ids.len(),
    ensures
        chain[k].spec_next_id() + (l - k) == chain[l].spec_next_id(),
        ids[k] + (l - k) == ids[l],
    decreases l - k,
{
    if k < l {
        lemma_counter_advances(chain, ids, k, l - 1);
        assert(create_post(chain[l - 1], chain[l], ids[l - 1]));
        assert(create_post(chain[l], chain[l + 1], ids[l]));
    } else {
        assert(create_post(chain[k], chain[k + 1], ids[k]));
    }
}

/// In a well-formed state, distinct entities carry distinct identifiers.
pub proof fn lemma_stored_ids_distinct(s: State, i: int, j: int)
    requires
        s.wf(),
        0 <= i < s.entities@.len(),
        0 <= j < s.entities@.len(),
        i != j,
    ensures
        s.entities@[i].spec_id() != s.entities@[j].spec_id(),
{
}

} // verus!

//! An entity: a stable identity together with one graph per signal label.
//!
//! The label set is closed (three spatial axes), so the graphs live in one
//! slot per label rather than in a keyed collection. Writes to a label with
//! no attached graph are discarded silently; queries on such a label are
//! absent.

use vstd::prelude::*;
use crate::graph::{add_post, linear_at, step_at, Graph};
use crate::state::{create_post, State};

verus! {

/// The closed set of signal labels an entity can carry.
#[derive(Clone, Copy, Debug, PartialEq, Eq, Structural)]
pub enum GraphLabel {
    PositionX,
    PositionY,
    PositionZ,
}

/// An entity whose signals are recorded over time, one graph per label.
pub struct Entity {
    pub(crate) id: u16,
    pub(crate) pos_x: Option<Graph>,
    pub(crate) pos_y: Option<Graph>,
    pub(crate) pos_z: Option<Graph>,
}

impl Entity {
    /// The identifier assigned at creation, immutable thereafter.
    pub closed spec fn spec_id(&self) -> u16 {
        self.id
    }

    /// The graph attached for `label`, if any.
    pub closed spec fn graph_of(&self, label: GraphLabel) -> Option<Graph> {
        match label {
            GraphLabel::PositionX => self.pos_x,
            GraphLabel::PositionY => self.pos_y,
            GraphLabel::PositionZ => self.pos_z,
        }
    }

    /// Every attached graph keeps its keys strictly ordered by timestamp.
    pub open spec fn wf(&self) -> bool {
        forall|label: GraphLabel| (#[trigger] self.graph_of(label)) matches Some(g) ==> g.wf()
    }

    /// The linear reading of the labeled graph at time `t`; absent when no
    /// graph is attached for `label`.
    pub open spec fn linear_of(&self, label: GraphLabel, t: u64) -> Option<int> {
        match self.graph_of(label) {
            Option::Some(g) => linear_at(g@, t),
            Option::None => Option::None,
        }
    }

    /// The step reading of the labeled graph at time `t`; absent when no
    /// graph is attached for `label`.
    pub open spec fn step_of(&self, label: GraphLabel, t: u64) -> Option<i64> {
        match self.graph_of(label) {
            Option::Some(g) => step_at(g@, t),
            Option::None => Option::None,
        }
    }

    /// A fresh entity: it carries `id` and no graphs.
    pub(crate) fn fresh(id: u16) -> (e: Entity)
        ensures
            e.wf(),
            e.spec_id() == id,
            forall|label: GraphLabel| #[trigger] e.graph_of(label) is None,
    {
        Entity { id, pos_x: None, pos_y: None, pos_z: None }
    }

    /// Creates a new entity, registers it in `state` under the next
    /// identifier, and returns that identifier.
    pub fn new(state: &mut State) -> (id: u16)
        requires
            old(state).wf(),
            old(state).spec_next_id() < u16::MAX,
        ensures
            final(state).wf(),
            create_post(*old(state), *final(state), id),
    {
        state.create_entity()
    }

    /// The slot holding the graph for `label`.
    fn graph_slot(&mut self, label: GraphLabel) -> (r: &mut Option<Graph>)
        ensures
            *r == old(self).graph_of(label),
            final(self).spec_id() == old(self).spec_id(),
            final(self).graph_of(label) == *final(r),
            forall|l2: GraphLabel| l2 != label ==> #[trigger] final(self).graph_of(l2) == old(
                self,
            ).graph_of(l2),
    {
        match label {
            GraphLabel::PositionX => &mut self.pos_x,
            GraphLabel::PositionY => &mut self.pos_y,
            GraphLabel::PositionZ => &mut self.pos_z,
        }
    }

    /// Shared access to the graph attached for `label`, for routing queries
    /// and for external enumeration of the keys.
    pub fn graph(&self, label: GraphLabel) -> (r: &Option<Graph>)
        ensures
            *r == self.graph_of(label),
    {
        match label {
            GraphLabel::PositionX => &self.pos_x,
            GraphLabel::PositionY => &self.pos_y,
            GraphLabel::PositionZ => &self.pos_z,
        }
    }

    /// The entity's identifier.
    pub fn id(&self) -> (r: u16)
        ensures
            r == self.spec_id(),
    {
        self.id
    }

    /// Attaches an empty graph for `label`. Only one graph per label can
    /// exist: a graph already attached for `label` is replaced, its keys
    /// discarded — a reset, not a merge.
    pub fn add_graph(&mut self, label: GraphLabel)
        requires
            old(self).wf(),
        ensures
            final(self).wf(),
            final(self).spec_id() == old(self).spec_id(),
            final(self).graph_of(label) matches Some(g) && g@.len() == 0,
            forall|l2: GraphLabel| l2 != label ==> #[trigger] final(self).graph_of(l2) == old(
                self,
            ).graph_of(l2),
    {
        let slot = self.graph_slot(label);
        *slot = Some(Graph::new());
    }

    /// Records `v` at time `t` on the graph attached for `label`; when no
    /// graph is attached, the write is discarded and the entity unchanged.
    pub fn add_key(&mut self, label: GraphLabel, t: u64, v: i64)
        requires
            old(self).wf(),
        ensures
            final(self).wf(),
            final(self).spec_id() == old(self).spec_id(),
            forall|l2: GraphLabel| l2 != label ==> #[trigger] final(self).graph_of(l2) == old(
                self,
            ).graph_of(l2),
            old(self).graph_of(label) is None ==> final(self).graph_of(label) is None,
            old(self).graph_of(label) matches Some(g0) ==> (final(self).graph_of(label)
                matches Some(g1) && add_post(g0@, g1@, t, v)),
    {
        let slot = self.graph_slot(label);
        match slot {
            Option::Some(g) => g.add_key(t, v),
            Option::None => (),
        }
    }

    /// The linearly interpolated value at time `t` on the graph attached for
    /// `label`; an absent graph yields an absent result.
    pub fn get_linear(&self, label: GraphLabel, t: u64) -> (r: Option<i64>)
        requires
            self.wf(),
        ensures
            self.linear_of(label, t) matches Some(value) ==> (r matches Some(rv) && rv as int
                == value),
            self.linear_of(label, t) is None ==> r is None,
    {
        match self.graph(label) {
            Option::Some(g) => g.get_linear(t),
            Option::None => None,
        }
    }

    /// The step (zero-order hold) value at time `t` on the graph attached
    /// for `label`; an absent graph yields an absent result.
    pub fn get_step(&self, label: GraphLabel, t: u64) -> (r: Option<i64>)
        requires
            self.wf(),
        ensures
            r == self.step_of(label, t),
    {
        match self.graph(label) {
            Option::Some(g) => g.get_step(t),
            Option::None => None,
        }
    }
}

/// Reset: when the graph attached for a label holds no keys — as right
/// after `add_graph`, also when a populated graph was replaced — every query
/// on that label is absent until new keys are recorded.
pub proof fn lemma_attach_resets(e: Entity, label: GraphLabel, t: u64)
    requires
        e.graph_of(label) matches Some(g) && g@.len() == 0,
    ensures
        e.linear_of(label, t) is None,
        e.step_of(label, t) is None,
{
}

} // verus!

use vstd::prelude::*;
use crate::state_id::{Role, StateId};

verus! {

/// One state of the graph: the program it fuzzes, from which state its seed
/// came, and how long each fuzzing pass may run.
#[derive(Debug)]
pub struct StateNode {
    pub id: StateId,
    pub role: Role,
    pub target_binary: String,
    /// The state whose output seeded this one; `None` for a hand-made root.
    pub parent_id: Option<StateId>,
    /// Upper bound, in seconds, for one fuzzing pass.
    pub timeout: u32,
}

pub open spec fn spec_child(parent: StateNode, id: StateId, target_binary: String) -> StateNode {
    StateNode {
        id,
        role: parent.role.spec_counterpart(),
        target_binary,
        parent_id: Some(parent.id),
        timeout: parent.timeout,
    }
}

impl StateNode {
    /// A node built from one of this node's candidates: it fuzzes the other
    /// program, runs `target_binary` (that program), and inherits the timeout.
    pub fn child(&self, id: StateId, target_binary: String) -> (r: StateNode)
        ensures
            r == spec_child(*self, id, target_binary),
    {
        StateNode {
            id,
            role: self.role.counterpart(),
            target_binary,
            parent_id: Some(self.id),
            timeout: self.timeout,
        }
    }
}

} // verus!

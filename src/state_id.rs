use vstd::prelude::*;

verus! {

/// Which of the two communicating programs a state fuzzes.
#[derive(Clone, Copy, Debug, PartialEq, Eq, Structural)]
pub enum Role {
    Client,
    Server,
}

impl Role {
    pub open spec fn spec_counterpart(self) -> Role {
        match self {
            Role::Client => Role::Server,
            Role::Server => Role::Client,
        }
    }

    /// The other program: the one whose checkpoint scores this role's candidates.
    pub fn counterpart(self) -> (r: Role)
        ensures
            r == self.spec_counterpart(),
            r != self,
    {
        match self {
            Role::Client => Role::Server,
            Role::Server => Role::Client,
        }
    }
}

/// Names a node of the state graph: how often each side has been advanced.
#[derive(Clone, Copy, Debug, PartialEq, Eq, Structural)]
pub struct StateId {
    pub client_generation: u64,
    pub server_generation: u64,
}

impl StateId {
    /// Total number of advances; every freshly allocated id raises it by one.
    pub open spec fn depth(self) -> int {
        self.client_generation + self.server_generation
    }
}

pub open spec fn spec_next_state_path(current: StateId, bump_server: bool) -> StateId {
    if bump_server {
        StateId { server_generation: (current.server_generation + 1) as u64, ..current }
    } else {
        StateId { client_generation: (current.client_generation + 1) as u64, ..current }
    }
}

/// The id that follows `current`: the server counter is raised by one when
/// `bump_server` holds, the client counter otherwise.
pub fn next_state_path(current: StateId, bump_server: bool) -> (r: StateId)
    requires
        bump_server ==> current.server_generation < u64::MAX,
        !bump_server ==> current.client_generation < u64::MAX,
    ensures
        r == spec_next_state_path(current, bump_server),
        bump_server ==> r.client_generation == current.client_generation
            && r.server_generation == current.server_generation + 1,
        !bump_server ==> r.server_generation == current.server_generation
            && r.client_generation == current.client_generation + 1,
        r.depth() == current.depth() + 1,
{
    if bump_server {
        StateId {
            client_generation: current.client_generation,
            server_generation: current.server_generation + 1,
        }
    } else {
        StateId {
            client_generation: current.client_generation + 1,
            server_generation: current.server_generation,
        }
    }
}

/// Allocating the next id changes exactly one counter, by exactly one.
pub proof fn lemma_next_state_path_changes_one_counter(a: StateId, bump_server: bool)
    requires
        bump_server ==> a.server_generation < u64::MAX,
        !bump_server ==> a.client_generation < u64::MAX,
    ensures
        bump_server ==> spec_next_state_path(a, bump_server).client_generation == a.client_generation
            && spec_next_state_path(a, bump_server).server_generation == a.server_generation + 1,
        !bump_server ==> spec_next_state_path(a, bump_server).server_generation == a.server_generation
            && spec_next_state_path(a, bump_server).client_generation == a.client_generation + 1,
        spec_next_state_path(a, bump_server) != a,
{
}

} // verus!

use vstd::prelude::*;
use std::collections::VecDeque;
use crate::coverage::CoverageSet;
use crate::layout::{Area, spec_state_dir, lemma_state_dir_injective};
use crate::node::{StateNode, spec_child};
use crate::state_id::{Role, StateId, next_state_path, spec_next_state_path};

verus! {

/// One coverage signature file written by the scoring tool: the name of the
/// received-data file it was computed from, and its contents.
pub struct CoverageMap {
    pub input: String,
    pub signature: Vec<u8>,
}

/// A filesystem step the caller performs, in order, after a consolidation.
/// `map` is the index of the coverage map (and so of its input file) concerned.
#[derive(Clone, Copy, Debug, PartialEq, Eq, Structural)]
pub enum Action {
    /// Copy the input behind `map` from `from`'s received data into the input
    /// corpus of the committed root `sibling` (the permanent root).
    SeedSibling { from: StateId, sibling: StateId, map: usize },
    /// Build `child` from the input behind `map` in `parent`'s received data:
    /// materialize it, copy the input into its corpus, restore `parent`'s
    /// checkpoint with it as seed and freeze again, commit. `parent`'s working
    /// copy is still there: reclaims only close a pass.
    SpawnChild { parent: StateId, child: StateId, map: usize },
    /// Remove the working tree of `id`, if there is one.
    Reclaim { id: StateId },
}

/// How a visited node's candidates are scored.
#[derive(Clone, Copy, Debug, PartialEq, Eq, Structural)]
pub enum Scoring {
    /// Run the coverage tool, restoring the committed checkpoint of `counterpart`.
    AgainstCheckpointOf { counterpart: StateId },
    /// First generation: copy the raw received data into the input corpus of
    /// the committed root `root`; no scoring.
    SeedRoot { root: StateId },
}

/// What the caller runs for the node that was taken off the queue.
#[derive(Clone, Copy, Debug, PartialEq, Eq, Structural)]
pub struct Visit {
    pub id: StateId,
    pub role: Role,
    pub timeout: u32,
    /// Whether a fuzzing pass runs before scoring.
    pub fuzz: bool,
    pub scoring: Scoring,
}

#[derive(Clone, Copy, Debug, PartialEq, Eq, Structural)]
pub enum ScheduleError {
    /// A node was taken off the queue and not consolidated yet.
    NodeInProgress,
    /// Nothing was taken off the queue to consolidate.
    NoNodeInProgress,
    /// The counter to be raised could overflow within this batch.
    IdSpaceExhausted,
    /// A first-generation root found new coverage but the permanent root it
    /// seeds is not queued.
    MissingSibling,
}

pub open spec fn client_root_id() -> StateId {
    StateId { client_generation: 1, server_generation: 0 }
}

pub open spec fn server_root_id() -> StateId {
    StateId { client_generation: 0, server_generation: 1 }
}

pub open spec fn spec_visit(node: StateNode, permanent_root: StateId) -> Visit {
    Visit {
        id: node.id,
        role: node.role,
        timeout: node.timeout,
        fuzz: !(node.parent_id is None && node.id == permanent_root),
        scoring: match node.parent_id {
            Some(p) => Scoring::AgainstCheckpointOf { counterpart: p },
            None => Scoring::SeedRoot { root: permanent_root },
        },
    }
}

pub open spec fn signatures(maps: Seq<CoverageMap>) -> Seq<Seq<u8>> {
    maps.map_values(|m: CoverageMap| m.signature@)
}

/// The counter that `role`'s discoveries raise.
pub open spec fn bumped_counter(cursor: StateId, role: Role) -> int {
    if role == Role::Server {
        cursor.server_generation as int
    } else {
        cursor.client_generation as int
    }
}

/// What consolidating the signatures `sigs` of `node`, in order, yields:
/// the accepted signatures, the id cursor, the ids of the children spawned
/// and the spawn or seed steps. A signature already accepted yields nothing;
/// a new one allocates the next id and either spawns a child under it or,
/// for a parentless root, seeds `sibling`.
pub open spec fn consolidation(
    seen: Set<Seq<u8>>,
    cursor: StateId,
    node: StateNode,
    sibling: StateId,
    sigs: Seq<Seq<u8>>,
) -> (Set<Seq<u8>>, StateId, Seq<StateId>, Seq<Action>)
    decreases sigs.len(),
{
    if sigs.len() == 0 {
        (seen, cursor, Seq::empty(), Seq::empty())
    } else {
        let prev = consolidation(seen, cursor, node, sibling, sigs.drop_last());
        let i = (sigs.len() - 1) as usize;
        let sig = sigs.last();
        if prev.0.contains(sig) {
            prev
        } else {
            let id = spec_next_state_path(prev.1, node.role == Role::Server);
            match node.parent_id {
                None => (
                    prev.0.insert(sig),
                    id,
                    prev.2,
                    prev.3.push(Action::SeedSibling { from: node.id, sibling, map: i }),
                ),
                Some(p) => (
                    prev.0.insert(sig),
                    id,
                    prev.2.push(id),
                    prev.3.push(Action::SpawnChild { parent: node.id, child: id, map: i }),
                ),
            }
        }
    }
}

/// The steps that close every pass: the node's working copy goes, and so
/// does the copy of its parent (the counterpart it was scored against).
pub open spec fn closing_steps(node: StateNode) -> Seq<Action> {
    match node.parent_id {
        None => seq![Action::Reclaim { id: node.id }],
        Some(p) => seq![Action::Reclaim { id: node.id }, Action::Reclaim { id: p }],
    }
}

/// The work queue, the accepted coverage signatures and the id cursor of one
/// orchestration run.
pub struct Scheduler {
    queue: VecDeque<StateNode>,
    seen: CoverageSet,
    cursor: StateId,
    current: Option<StateNode>,
    permanent_root: StateId,
    client_binary: String,
    server_binary: String,
}

impl Scheduler {
    pub closed spec fn spec_queue(&self) -> Seq<StateNode> {
        self.queue@
    }

    pub closed spec fn spec_seen(&self) -> Set<Seq<u8>> {
        self.seen@
    }

    pub closed spec fn spec_cursor(&self) -> StateId {
        self.cursor
    }

    /// The node taken off the queue and not consolidated yet.
    pub closed spec fn spec_current(&self) -> Option<StateNode> {
        self.current
    }

    /// The root that is never fuzzed again once processed and never requeued.
    pub closed spec fn spec_permanent_root(&self) -> StateId {
        self.permanent_root
    }

    /// The program that nodes of `role` run.
    pub closed spec fn spec_binary(&self, role: Role) -> String {
        if role == Role::Server {
            self.server_binary
        } else {
            self.client_binary
        }
    }

    /// Both describe the same run state.
    pub open spec fn same_as(&self, other: &Scheduler) -> bool {
        &&& self.spec_queue() == other.spec_queue()
        &&& self.spec_seen() == other.spec_seen()
        &&& self.spec_cursor() == other.spec_cursor()
        &&& self.spec_current() == other.spec_current()
        &&& self.spec_permanent_root() == other.spec_permanent_root()
        &&& self.spec_binary(Role::Client) == other.spec_binary(Role::Client)
        &&& self.spec_binary(Role::Server) == other.spec_binary(Role::Server)
    }

    /// Nodes spawned from `node` under the ids `ids`, in order.
    pub open spec fn children(&self, node: StateNode, ids: Seq<StateId>) -> Seq<StateNode> {
        ids.map_values(
            |id: StateId| spec_child(node, id, self.spec_binary(node.role.spec_counterpart())),
        )
    }

    /// `node` goes back to the queue unless it is the permanent root.
    pub open spec fn requeued(&self, node: StateNode) -> Seq<StateNode> {
        if node.id == self.spec_permanent_root() {
            Seq::empty()
        } else {
            seq![node]
        }
    }

    /// Whether a node with id `id` is queued.
    pub open spec fn is_queued(&self, id: StateId) -> bool {
        exists|i: int| 0 <= i < self.spec_queue().len() && (#[trigger] self.spec_queue()[i]).id == id
    }

    /// A parentless node has new coverage to hand on and the permanent root,
    /// which takes it, is not queued.
    pub open spec fn missing_sibling(&self, node: StateNode, maps: Seq<CoverageMap>) -> bool {
        &&& node.parent_id is None
        &&& !self.is_queued(self.spec_permanent_root())
        &&& exists|i: int|
            0 <= i < maps.len() && !self.spec_seen().contains(#[trigger] maps[i].signature@)
    }

    /// The nodes alive in the run: those queued and the one in progress.
    pub closed spec fn live(&self) -> Seq<StateNode> {
        self.queue@ + match self.current {
            Some(n) => seq![n],
            None => Seq::empty(),
        }
    }

    /// Live nodes have pairwise distinct ids, none beyond the cursor's depth,
    /// so every freshly allocated id is new.
    pub closed spec fn wf(&self) -> bool {
        &&& self.seen.wf()
        &&& forall|i: int, j: int|
            0 <= i < j < self.live().len() ==> #[trigger] self.live()[i].id
                != #[trigger] self.live()[j].id
        &&& forall|i: int|
            0 <= i < self.live().len() ==> (#[trigger] self.live()[i]).id.depth()
                <= self.cursor.depth()
    }

    /// A fresh run: the client root `fitm-c1s0` (no parent) and the server
    /// root `fitm-c0s1` (scored against the client root) are queued in that
    /// order; nothing is accepted yet and the cursor stands at the client root.
    pub fn new(client_binary: String, server_binary: String, timeout: u32) -> (r: Scheduler)
        ensures
            r.wf(),
            r.spec_queue() == seq![
                StateNode {
                    id: client_root_id(),
                    role: Role::Client,
                    target_binary: client_binary,
                    parent_id: None,
                    timeout,
                },
                StateNode {
                    id: server_root_id(),
                    role: Role::Server,
                    target_binary: server_binary,
                    parent_id: Some(client_root_id()),
                    timeout,
                },
            ],
            r.spec_seen() == Set::<Seq<u8>>::empty(),
            r.spec_cursor() == client_root_id(),
            r.spec_current() is None,
            r.spec_permanent_root() == server_root_id(),
            r.spec_binary(Role::Client) == client_binary,
            r.spec_binary(Role::Server) == server_binary,
    {
        let client_root = StateId { client_generation: 1, server_generation: 0 };
        let server_root = StateId { client_generation: 0, server_generation: 1 };
        let mut queue: VecDeque<StateNode> = VecDeque::new();
        queue.push_back(
            StateNode {
                id: client_root,
                role: Role::Client,
                target_binary: client_binary.clone(),
                parent_id: None,
                timeout,
            },
        );
        queue.push_back(
            StateNode {
                id: server_root,
                role: Role::Server,
                target_binary: server_binary.clone(),
                parent_id: Some(client_root),
                timeout,
            },
        );
        let r = Scheduler {
            queue,
            seen: CoverageSet::new(),
            cursor: client_root,
            current: None,
            permanent_root: server_root,
            client_binary,
            server_binary,
        };
        assert(r.live() =~= r.queue@);
        r
    }

    /// Number of queued nodes.
    pub fn queue_len(&self) -> (r: usize)
        ensures
            r == self.spec_queue().len(),
    {
        self.queue.len()
    }

    /// The queued node at `index`, counted from the front.
    pub fn queued(&self, index: usize) -> (r: &StateNode)
        requires
            index < self.spec_queue().len(),
        ensures
            *r == self.spec_queue()[index as int],
    {
        &self.queue[index]
    }

    /// Number of distinct coverage signatures accepted so far.
    pub fn seen_len(&self) -> (r: usize)
        requires
            self.wf(),
        ensures
            r == self.spec_seen().len(),
    {
        self.seen.len()
    }

    /// Whether `sig` has been accepted.
    pub fn has_seen(&self, sig: &[u8]) -> (r: bool)
        ensures
            r == self.spec_seen().contains(sig@),
    {
        self.seen.contains(sig)
    }

    /// The id most recently allocated (the client root's before any).
    pub fn cursor(&self) -> (r: StateId)
        ensures
            r == self.spec_cursor(),
    {
        self.cursor
    }

    /// The node taken off the queue and not consolidated yet.
    pub fn current(&self) -> (r: Option<&StateNode>)
        ensures
            match r {
                Some(n) => self.spec_current() == Some(*n),
                None => self.spec_current() is None,
            },
    {
        match &self.current {
            Some(n) => Some(n),
            None => None,
        }
    }

    /// The program that nodes of `role` run.
    pub fn binary(&self, role: Role) -> (r: &String)
        ensures
            *r == self.spec_binary(role),
    {
        match role {
            Role::Server => &self.server_binary,
            Role::Client => &self.client_binary,
        }
    }

    /// Takes the front node off the queue and says what to run for it. `None`
    /// when the queue is empty: the run is over.
    pub fn begin_next(&mut self) -> (r: Result<Option<Visit>, ScheduleError>)
        requires
            old(self).wf(),
        ensures
            final(self).wf(),
            old(self).spec_current() is Some ==> r == Err::<Option<Visit>, ScheduleError>(
                ScheduleError::NodeInProgress,
            ) && final(self).same_as(old(self)),
            old(self).spec_current() is None && old(self).spec_queue().len() == 0 ==> r == Ok::<
                Option<Visit>,
                ScheduleError,
            >(None) && final(self).same_as(old(self)),
            old(self).spec_current() is None && old(self).spec_queue().len() > 0 ==> {
                &&& r == Ok::<Option<Visit>, ScheduleError>(
                    Some(spec_visit(old(self).spec_queue()[0], old(self).spec_permanent_root())),
                )
                &&& final(self).spec_current() == Some(old(self).spec_queue()[0])
                &&& final(self).spec_queue() == old(self).spec_queue().drop_first()
                &&& final(self).spec_seen() == old(self).spec_seen()
                &&& final(self).spec_cursor() == old(self).spec_cursor()
                &&& final(self).spec_permanent_root() == old(self).spec_permanent_root()
                &&& forall|role: Role| #[trigger]
                    final(self).spec_binary(role) == old(self).spec_binary(role)
            },
    {
        if self.current.is_some() {
            return Err(ScheduleError::NodeInProgress);
        }
        let ghost live0 = self.live();
        match self.queue.pop_front() {
            None => Ok(None),
            Some(node) => {
                let visit = Visit {
                    id: node.id,
                    role: node.role,
                    timeout: node.timeout,
                    fuzz: !(node.parent_id.is_none() && node.id == self.permanent_root),
                    scoring: match node.parent_id {
                        Some(p) => Scoring::AgainstCheckpointOf { counterpart: p },
                        None => Scoring::SeedRoot { root: self.permanent_root },
                    },
                };
                self.current = Some(node);
                assert(self.live() =~= live0.drop_first().push(live0[0]));
                proof {
                    assert forall|i: int, j: int|
                        0 <= i < j < self.live().len() implies #[trigger] self.live()[i].id
                        != #[trigger] self.live()[j].id by {
                        if j == self.live().len() - 1 {
                            assert(self.live()[i] == live0[i + 1]);
                            assert(self.live()[j] == live0[0]);
                        } else {
                            assert(self.live()[i] == live0[i + 1]);
                            assert(self.live()[j] == live0[j + 1]);
                        }
                    }
                    assert forall|i: int| 0 <= i < self.live().len() implies (
                    #[trigger] self.live()[i]).id.depth() <= self.cursor.depth() by {
                        if i == self.live().len() - 1 {
                            assert(self.live()[i] == live0[0]);
                        } else {
                            assert(self.live()[i] == live0[i + 1]);
                        }
                    }
                }
                Ok(Some(visit))
            },
        }
    }

    fn any_unseen(&self, maps: &Vec<CoverageMap>) -> (r: bool)
        ensures
            r == exists|i: int|
                0 <= i < maps@.len() && !self.spec_seen().contains(#[trigger] maps@[i].signature@),
    {
        let mut i: usize = 0;
        while i < maps.len()
            invariant
                0 <= i <= maps@.len(),
                forall|k: int| 0 <= k < i ==> self.spec_seen().contains(#[trigger] maps@[k].signature@),
            decreases maps@.len() - i,
        {
            if !self.seen.contains(maps[i].signature.as_slice()) {
                return true;
            }
            i = i + 1;
        }
        false
    }

    fn queue_holds(&self, id: StateId) -> (r: bool)
        ensures
            r == self.is_queued(id),
    {
        let mut i: usize = 0;
        while i < self.queue.len()
            invariant
                0 <= i <= self.queue@.len(),
                forall|k: int| 0 <= k < i ==> (#[trigger] self.queue@[k]).id != id,
            decreases self.queue@.len() - i,
        {
            if self.queue[i].id == id {
                assert(self.spec_queue()[i as int].id == id);
                return true;
            }
            i = i + 1;
        }
        false
    }

    /// Consolidates the coverage maps of the node in progress, in order. Each
    /// new signature is accepted and allocates the next id from the cursor
    /// (raising the server counter for a server node, the client counter
    /// otherwise): a node with a parent spawns a child under that id, which
    /// joins the back of the queue; a parentless root seeds the permanent
    /// root instead. A signature seen before yields no step. The node then
    /// goes back to the queue unless it is the permanent root. Returns the
    /// filesystem steps to perform, in order: all spawns and seeds of the
    /// batch, then the reclaims of the node's and its parent's working copies,
    /// which close every pass.
    pub fn consolidate(&mut self, maps: &Vec<CoverageMap>) -> (r: Result<Vec<Action>, ScheduleError>)
        requires
            old(self).wf(),
        ensures
            final(self).wf(),
            old(self).spec_current() is None ==> r == Err::<Vec<Action>, ScheduleError>(
                ScheduleError::NoNodeInProgress,
            ) && final(self).same_as(old(self)),
            old(self).spec_current() is Some ==> {
                let node = old(self).spec_current()->Some_0;
                let short = bumped_counter(old(self).spec_cursor(), node.role) + maps@.len()
                    > u64::MAX;
                let missing = old(self).missing_sibling(node, maps@);
                let out = consolidation(
                    old(self).spec_seen(),
                    old(self).spec_cursor(),
                    node,
                    old(self).spec_permanent_root(),
                    signatures(maps@),
                );
                &&& short ==> r == Err::<Vec<Action>, ScheduleError>(
                    ScheduleError::IdSpaceExhausted,
                ) && final(self).same_as(old(self))
                &&& !short && missing ==> r == Err::<Vec<Action>, ScheduleError>(
                    ScheduleError::MissingSibling,
                ) && final(self).same_as(old(self))
                &&& !short && !missing ==> {
                    &&& r is Ok
                    &&& r->Ok_0@ == out.3 + closing_steps(node)
                    &&& forall|k: int| 0 <= k < out.3.len() ==> !(#[trigger] out.3[k] is Reclaim)
                    &&& final(self).spec_seen() == out.0
                    &&& final(self).spec_cursor() == out.1
                    &&& final(self).spec_queue() == old(self).spec_queue() + old(self).children(
                        node,
                        out.2,
                    ) + old(self).requeued(node)
                    &&& final(self).spec_current() is None
                    &&& final(self).spec_permanent_root() == old(self).spec_permanent_root()
                    &&& final(self).spec_binary(Role::Client) == old(self).spec_binary(Role::Client)
                    &&& final(self).spec_binary(Role::Server) == old(self).spec_binary(Role::Server)
                    &&& final(self).spec_cursor().depth() >= old(self).spec_cursor().depth()
                    &&& forall|k: int|
                        0 <= k < out.2.len() ==> old(self).spec_cursor().depth() < (
                        #[trigger] out.2[k]).depth() <= final(self).spec_cursor().depth()
                    &&& forall|a: int, b: int|
                        0 <= a < b < out.2.len() ==> (#[trigger] out.2[a]).depth() < (
                        #[trigger] out.2[b]).depth()
                }
            },
    {
        let ghost live0 = self.live();
        let node = match self.current.take() {
            None => {
                return Err(ScheduleError::NoNodeInProgress);
            },
            Some(n) => n,
        };
        let counter = if node.role == Role::Server {
            self.cursor.server_generation
        } else {
            self.cursor.client_generation
        };
        if maps.len() as u64 > u64::MAX - counter {
            self.current = Some(node);
            return Err(ScheduleError::IdSpaceExhausted);
        }
        let sibling = self.permanent_root;
        if node.parent_id.is_none() && !self.queue_holds(sibling) && self.any_unseen(maps) {
            self.current = Some(node);
            return Err(ScheduleError::MissingSibling);
        }
        let child_binary = if node.role == Role::Server {
            self.client_binary.clone()
        } else {
            self.server_binary.clone()
        };
        let ghost q0 = self.queue@;
        let ghost seen0 = self.seen@;
        let ghost cursor0 = self.cursor;
        let ghost sigs = signatures(maps@);
        let ghost mut spawned: Seq<StateId> = Seq::empty();
        let mut actions: Vec<Action> = Vec::new();
        let mut i: usize = 0;
        assert(sigs.take(0) =~= Seq::<Seq<u8>>::empty());
        assert(self.queue@ =~= q0 + spawned.map_values(
            |id: StateId| spec_child(node, id, child_binary),
        ));
        while i < maps.len()
            invariant
                0 <= i <= maps@.len(),
                sigs == signatures(maps@),
                self.seen.wf(),
                self.current is None,
                self.permanent_root == old(self).permanent_root,
                sibling == old(self).permanent_root,
                self.client_binary == old(self).client_binary,
                self.server_binary == old(self).server_binary,
                consolidation(seen0, cursor0, node, sibling, sigs.take(i as int)) == (
                    self.seen@,
                    self.cursor,
                    spawned,
                    actions@,
                ),
                forall|k: int| 0 <= k < actions@.len() ==> !(#[trigger] actions@[k] is Reclaim),
                self.queue@ == q0 + spawned.map_values(
                    |id: StateId| spec_child(node, id, child_binary),
                ),
                bumped_counter(self.cursor, node.role) <= bumped_counter(cursor0, node.role) + i,
                bumped_counter(cursor0, node.role) + maps@.len() <= u64::MAX,
                self.cursor.depth() >= cursor0.depth(),
                forall|k: int|
                    0 <= k < spawned.len() ==> cursor0.depth() < (#[trigger] spawned[k]).depth()
                        <= self.cursor.depth(),
                forall|a: int, b: int|
                    0 <= a < b < spawned.len() ==> (#[trigger] spawned[a]).depth()
                        < (#[trigger] spawned[b]).depth(),
            decreases maps@.len() - i,
        {
            assert(sigs.take(i + 1).drop_last() =~= sigs.take(i as int));
            assert(sigs.take(i + 1).last() == maps@[i as int].signature@);
            let novel = self.seen.check_and_insert(maps[i].signature.as_slice());
            if novel {
                let id = next_state_path(self.cursor, node.role == Role::Server);
                self.cursor = id;
                match node.parent_id {
                    None => {
                        actions.push(Action::SeedSibling { from: node.id, sibling, map: i });
                    },
                    Some(_) => {
                        self.queue.push_back(node.child(id, child_binary.clone()));
                        actions.push(Action::SpawnChild { parent: node.id, child: id, map: i });
                        proof {
                            spawned = spawned.push(id);
                        }
                    },
                }
            }
            proof {
                assert(actions@ =~= consolidation(seen0, cursor0, node, sibling, sigs.take(i + 1)).3);
            }
            i = i + 1;
            assert(self.queue@ =~= q0 + spawned.map_values(
                |id: StateId| spec_child(node, id, child_binary),
            ));
        }
        assert(sigs.take(i as int) =~= sigs);
        actions.push(Action::Reclaim { id: node.id });
        match node.parent_id {
            Some(p) => {
                actions.push(Action::Reclaim { id: p });
            },
            None => {},
        }
        let ghost kids = spawned.map_values(|id: StateId| spec_child(node, id, child_binary));
        assert(kids == old(self).children(node, spawned));
        let requeue = node.id != self.permanent_root;
        if requeue {
            self.queue.push_back(node);
        }
        proof {
            let n0 = q0.len() as int;
            let nc = spawned.len() as int;
            assert(live0 =~= q0.push(node));
            assert(self.live() =~= q0 + kids + old(self).requeued(node));
            assert forall|a: int, b: int|
                0 <= a < b < self.live().len() implies #[trigger] self.live()[a].id
                != #[trigger] self.live()[b].id by {
                if b < n0 {
                    assert(self.live()[a] == live0[a]);
                    assert(self.live()[b] == live0[b]);
                } else if b < n0 + nc {
                    assert(self.live()[b].id == spawned[b - n0]);
                    if a < n0 {
                        assert(self.live()[a] == live0[a]);
                    } else {
                        assert(self.live()[a].id == spawned[a - n0]);
                    }
                } else {
                    assert(self.live()[b] == live0[n0]);
                    if a < n0 {
                        assert(self.live()[a] == live0[a]);
                    } else {
                        assert(self.live()[a].id == spawned[a - n0]);
                    }
                }
            }
            assert forall|a: int| 0 <= a < self.live().len() implies (
            #[trigger] self.live()[a]).id.depth() <= self.cursor.depth() by {
                if a < n0 {
                    assert(self.live()[a] == live0[a]);
                } else if a < n0 + nc {
                    assert(self.live()[a].id == spawned[a - n0]);
                } else {
                    assert(self.live()[a] == live0[n0]);
                }
            }
        }
        Ok(actions)
    }
}

/// No two live nodes of a well-formed run hold the same working directory.
pub proof fn lemma_live_working_dirs_distinct(s: &Scheduler, i: int, j: int)
    requires
        s.wf(),
        0 <= i < s.live().len(),
        0 <= j < s.live().len(),
        i != j,
    ensures
        spec_state_dir(Area::Working, s.live()[i].id) != spec_state_dir(
            Area::Working,
            s.live()[j].id,
        ),
{
    if i < j {
        assert(s.live()[i].id != s.live()[j].id);
    } else {
        assert(s.live()[j].id != s.live()[i].id);
    }
    lemma_state_dir_injective(Area::Working, s.live()[i].id, s.live()[j].id);
}

/// A batch without candidates accepts nothing, allocates no id, spawns no
/// child and seeds nothing: its steps are only the closing reclaims, and the
/// queue only gets the node back (unless it is the permanent root).
pub proof fn lemma_empty_batch(s: &Scheduler, node: StateNode)
    ensures
        consolidation(
            s.spec_seen(),
            s.spec_cursor(),
            node,
            s.spec_permanent_root(),
            signatures(seq![]),
        ) == (s.spec_seen(), s.spec_cursor(), Seq::<StateId>::empty(), Seq::<Action>::empty()),
        Seq::<Action>::empty() + closing_steps(node) == closing_steps(node),
        s.spec_queue() + s.children(node, Seq::empty()) + s.requeued(node) == s.spec_queue()
            + s.requeued(node),
        !s.missing_sibling(node, seq![]),
{
    assert(signatures(seq![]) =~= Seq::<Seq<u8>>::empty());
    assert(s.children(node, Seq::empty()) =~= Seq::<StateNode>::empty());
    assert(s.spec_queue() + Seq::<StateNode>::empty() =~= s.spec_queue());
    assert(Seq::<Action>::empty() + closing_steps(node) =~= closing_steps(node));
}

/// A signature seen again later in a batch, or in a later batch, changes
/// nothing: only the first occurrence of a byte sequence is novel.
pub proof fn lemma_repeated_signature(
    seen: Set<Seq<u8>>,
    cursor: StateId,
    node: StateNode,
    sibling: StateId,
    sigs: Seq<Seq<u8>>,
    sig: Seq<u8>,
)
    requires
        seen.contains(sig) || sigs.contains(sig),
    ensures
        consolidation(seen, cursor, node, sibling, sigs.push(sig)) == consolidation(
            seen,
            cursor,
            node,
            sibling,
            sigs,
        ),
{
    lemma_seen_grows(seen, cursor, node, sibling, sigs);
    assert(sigs.push(sig).drop_last() =~= sigs);
}

/// Ids allocated by a batch are fresh: each lies deeper than the cursor before
/// the batch, they deepen strictly one after the other, and the cursor after
/// the batch is as deep as the last. The cursor starts at the roots' depth and
/// never goes back, so no id is issued twice in a run and none names a root.
pub proof fn lemma_batch_ids_fresh(
    seen: Set<Seq<u8>>,
    cursor: StateId,
    node: StateNode,
    sibling: StateId,
    sigs: Seq<Seq<u8>>,
)
    requires
        bumped_counter(cursor, node.role) + sigs.len() <= u64::MAX,
    ensures
        ({
            let out = consolidation(seen, cursor, node, sibling, sigs);
            &&& out.1.depth() >= cursor.depth()
            &&& bumped_counter(out.1, node.role) <= bumped_counter(cursor, node.role) + sigs.len()
            &&& forall|k: int|
                0 <= k < out.2.len() ==> cursor.depth() < (#[trigger] out.2[k]).depth()
                    <= out.1.depth()
            &&& forall|a: int, b: int|
                0 <= a < b < out.2.len() ==> (#[trigger] out.2[a]).depth() < (
                #[trigger] out.2[b]).depth()
        }),
    decreases sigs.len(),
{
    if sigs.len() > 0 {
        lemma_batch_ids_fresh(seen, cursor, node, sibling, sigs.drop_last());
        let prev = consolidation(seen, cursor, node, sibling, sigs.drop_last());
        let out = consolidation(seen, cursor, node, sibling, sigs);
        if !prev.0.contains(sigs.last()) {
            let id = spec_next_state_path(prev.1, node.role == Role::Server);
            assert(id.depth() == prev.1.depth() + 1);
            assert(out.1 == id);
            if node.parent_id is Some {
                assert(out.2 == prev.2.push(id));
                assert forall|k: int| 0 <= k < out.2.len() implies cursor.depth() < (
                #[trigger] out.2[k]).depth() <= out.1.depth() by {
                    if k < prev.2.len() {
                        assert(out.2[k] == prev.2[k]);
                    }
                }
                assert forall|a: int, b: int| 0 <= a < b < out.2.len() implies (
                #[trigger] out.2[a]).depth() < (#[trigger] out.2[b]).depth() by {
                    assert(out.2[a] == prev.2[a]);
                    if b < prev.2.len() {
                        assert(out.2[b] == prev.2[b]);
                    }
                }
            }
        }
    }
}

/// Both roots lie at the depth the cursor starts from.
pub proof fn lemma_roots_at_start_depth()
    ensures
        client_root_id().depth() == 1,
        server_root_id().depth() == 1,
        client_root_id() != server_root_id(),
{
}

/// Every signature of a batch ends up accepted, and nothing accepted is lost.
pub proof fn lemma_seen_grows(
    seen: Set<Seq<u8>>,
    cursor: StateId,
    node: StateNode,
    sibling: StateId,
    sigs: Seq<Seq<u8>>,
)
    ensures
        consolidation(seen, cursor, node, sibling, sigs).0 == seen + sigs.to_set(),
    decreases sigs.len(),
{
    if sigs.len() == 0 {
        assert(sigs.to_set() =~= Set::<Seq<u8>>::empty());
        assert(seen + sigs.to_set() =~= seen);
    } else {
        lemma_seen_grows(seen, cursor, node, sibling, sigs.drop_last());
        let prev = sigs.drop_last();
        assert(sigs =~= prev.push(sigs.last()));
        assert(sigs.to_set() =~= prev.to_set().insert(sigs.last())) by {
            assert forall|x: Seq<u8>| sigs.to_set().contains(x) <==> prev.to_set().insert(
                sigs.last(),
            ).contains(x) by {
                if sigs.contains(x) {
                    let k = choose|k: int| 0 <= k < sigs.len() && sigs[k] == x;
                    if k < prev.len() {
                        assert(prev[k] == x);
                    }
                }
                if prev.contains(x) {
                    let k = choose|k: int| 0 <= k < prev.len() && prev[k] == x;
                    assert(sigs[k] == x);
                }
                if x == sigs.last() {
                    assert(sigs[sigs.len() - 1] == x);
                }
            }
        }
        let out = consolidation(seen, cursor, node, sibling, prev);
        if out.0.contains(sigs.last()) {
            assert(seen + sigs.to_set() =~= seen + prev.to_set());
        } else {
            assert(seen + sigs.to_set() =~= (seen + prev.to_set()).insert(sigs.last()));
        }
    }
}

} // verus!

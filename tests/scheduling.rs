use fitm::coverage::CoverageSet;
use fitm::scheduler::{Action, CoverageMap, ScheduleError, Scheduler, Scoring, Visit};
use fitm::state_id::{next_state_path, Role, StateId};

fn sid(c: u64, s: u64) -> StateId {
    StateId { client_generation: c, server_generation: s }
}

fn map(input: &str, sig: &[u8]) -> CoverageMap {
    CoverageMap { input: input.to_string(), signature: sig.to_vec() }
}

fn fresh() -> Scheduler {
    Scheduler::new("test/pseudoclient".to_string(), "test/pseudoserver".to_string(), 1)
}

#[test]
fn dedup_insert_twice_keeps_size() {
    let mut set = CoverageSet::new();
    assert!(set.check_and_insert(b"abc"));
    assert_eq!(set.len(), 1);
    assert!(!set.check_and_insert(b"abc"));
    assert_eq!(set.len(), 1);
    assert!(set.contains(b"abc"));
    assert!(!set.contains(b"ab"));
    assert!(set.check_and_insert(b"ab"));
    assert_eq!(set.len(), 2);
}

#[test]
fn dedup_empty_signature_is_a_signature() {
    let mut set = CoverageSet::new();
    assert_eq!(set.len(), 0);
    assert!(!set.contains(b""));
    assert!(set.check_and_insert(b""));
    assert!(!set.check_and_insert(b""));
    assert_eq!(set.len(), 1);
}

#[test]
fn new_run_queues_both_roots() {
    let s = fresh();
    assert_eq!(s.queue_len(), 2);
    let c = s.queued(0);
    assert_eq!(c.id, sid(1, 0));
    assert_eq!(c.role, Role::Client);
    assert_eq!(c.parent_id, None);
    assert_eq!(c.target_binary, "test/pseudoclient");
    let sv = s.queued(1);
    assert_eq!(sv.id, sid(0, 1));
    assert_eq!(sv.role, Role::Server);
    assert_eq!(sv.parent_id, Some(sid(1, 0)));
    assert_eq!(sv.target_binary, "test/pseudoserver");
    assert_eq!(s.cursor(), sid(1, 0));
    assert_eq!(s.seen_len(), 0);
    assert!(s.current().is_none());
}

#[test]
fn first_visit_seeds_the_server_root() {
    let mut s = fresh();
    let v = s.begin_next().unwrap().unwrap();
    assert_eq!(
        v,
        Visit {
            id: sid(1, 0),
            role: Role::Client,
            timeout: 1,
            fuzz: true,
            scoring: Scoring::SeedRoot { root: sid(0, 1) },
        }
    );
    assert_eq!(s.queue_len(), 1);
    assert_eq!(s.current().unwrap().id, sid(1, 0));
}

// One fuzz pass of each root; the server root's candidate yields a
// non-default signature and so exactly one child, named by `next_state_path`.
#[test]
fn scenario_first_novel_signature_spawns_one_child() {
    let mut s = fresh();
    s.begin_next().unwrap().unwrap();
    let acts = s.consolidate(&vec![]).unwrap();
    assert_eq!(acts, vec![Action::Reclaim { id: sid(1, 0) }]);
    let v = s.begin_next().unwrap().unwrap();
    assert_eq!(v.id, sid(0, 1));
    assert!(v.fuzz);
    assert_eq!(v.scoring, Scoring::AgainstCheckpointOf { counterpart: sid(1, 0) });
    let maps = vec![map("id:000000", &[0x01, 0x02, 0x03, 0x04])];
    let acts = s.consolidate(&maps).unwrap();
    let child = next_state_path(sid(1, 0), true);
    assert_eq!(child, sid(1, 1));
    assert_eq!(
        acts,
        vec![
            Action::SpawnChild { parent: sid(0, 1), child, map: 0 },
            Action::Reclaim { id: sid(0, 1) },
            Action::Reclaim { id: sid(1, 0) },
        ]
    );
    assert_eq!(s.cursor(), child);
    assert_eq!(s.seen_len(), 1);
    // the permanent root is not requeued; the client root and the child are
    assert_eq!(s.queue_len(), 2);
    assert_eq!(s.queued(0).id, sid(1, 0));
    let n = s.queued(1);
    assert_eq!(n.id, child);
    assert_eq!(n.role, Role::Client);
    assert_eq!(n.parent_id, Some(sid(0, 1)));
    assert_eq!(n.target_binary, "test/pseudoclient");
    assert_eq!(n.timeout, 1);
}

#[test]
fn scenario_zero_candidates_only_requeues() {
    let mut s = fresh();
    s.begin_next().unwrap().unwrap();
    let acts = s.consolidate(&vec![]).unwrap();
    assert_eq!(acts, vec![Action::Reclaim { id: sid(1, 0) }]);
    assert_eq!(s.seen_len(), 0);
    assert_eq!(s.cursor(), sid(1, 0));
    assert_eq!(s.queue_len(), 2);
    assert_eq!(s.queued(0).id, sid(0, 1));
    assert_eq!(s.queued(1).id, sid(1, 0));
}

#[test]
fn scenario_zero_candidates_drops_permanent_root() {
    let mut s = fresh();
    s.begin_next().unwrap().unwrap();
    s.consolidate(&vec![]).unwrap();
    s.begin_next().unwrap().unwrap();
    let acts = s.consolidate(&vec![]).unwrap();
    // the permanent root is dropped from the queue, but its working copy and
    // the counterpart copy are still reclaimed
    assert_eq!(
        acts,
        vec![Action::Reclaim { id: sid(0, 1) }, Action::Reclaim { id: sid(1, 0) }]
    );
    assert_eq!(s.seen_len(), 0);
    assert_eq!(s.queue_len(), 1);
    assert_eq!(s.queued(0).id, sid(1, 0));
}

// A deterministic scorer gives the same bytes for the same candidate: the
// second copy is not novel and only reclaims.
#[test]
fn scenario_same_candidate_twice() {
    let scorer = |input: &[u8]| -> Vec<u8> { input.iter().map(|b| b ^ 0x5a).collect() };
    let first = scorer(b"HELO");
    let second = scorer(b"HELO");
    assert_eq!(first, second);
    let mut s = fresh();
    s.begin_next().unwrap().unwrap();
    s.consolidate(&vec![]).unwrap();
    s.begin_next().unwrap().unwrap();
    let maps = vec![map("a", &first), map("b", &second)];
    let acts = s.consolidate(&maps).unwrap();
    assert_eq!(
        acts,
        vec![
            Action::SpawnChild { parent: sid(0, 1), child: sid(1, 1), map: 0 },
            Action::Reclaim { id: sid(0, 1) },
            Action::Reclaim { id: sid(1, 0) },
        ]
    );
    assert_eq!(s.seen_len(), 1);
    assert!(s.has_seen(&first));
}

#[test]
fn parentless_root_seeds_queued_sibling() {
    let mut s = fresh();
    s.begin_next().unwrap().unwrap();
    let acts = s.consolidate(&vec![map("x", b"sig")]).unwrap();
    assert_eq!(
        acts,
        vec![
            Action::SeedSibling { from: sid(1, 0), sibling: sid(0, 1), map: 0 },
            Action::Reclaim { id: sid(1, 0) },
        ]
    );
    assert_eq!(s.cursor(), sid(2, 0));
    assert_eq!(s.queue_len(), 2);
    assert_eq!(s.queued(0).id, sid(0, 1));
    assert_eq!(s.queued(1).id, sid(1, 0));
}

#[test]
fn children_of_a_child_take_fresh_ids() {
    let mut s = fresh();
    s.begin_next().unwrap().unwrap();
    s.consolidate(&vec![]).unwrap();
    s.begin_next().unwrap().unwrap();
    s.consolidate(&vec![map("a", b"1"), map("b", b"2")]).unwrap();
    assert_eq!(s.cursor(), sid(1, 2));
    // queue: client root, (1,1), (1,2)
    s.begin_next().unwrap().unwrap();
    s.consolidate(&vec![]).unwrap();
    let v = s.begin_next().unwrap().unwrap();
    assert_eq!(v.id, sid(1, 1));
    assert_eq!(v.role, Role::Client);
    assert_eq!(v.scoring, Scoring::AgainstCheckpointOf { counterpart: sid(0, 1) });
    let acts = s.consolidate(&vec![map("c", b"3")]).unwrap();
    assert_eq!(acts[0], Action::SpawnChild { parent: sid(1, 1), child: sid(2, 2), map: 0 });
    assert_eq!(acts[2], Action::Reclaim { id: sid(0, 1) });
    let last = s.queued(s.queue_len() - 2);
    assert_eq!(last.id, sid(2, 2));
    assert_eq!(last.role, Role::Server);
    assert_eq!(last.target_binary, "test/pseudoserver");
    assert_eq!(s.queued(s.queue_len() - 1).id, sid(1, 1));
}

#[test]
fn begin_twice_is_refused() {
    let mut s = fresh();
    s.begin_next().unwrap().unwrap();
    assert_eq!(s.begin_next(), Err(ScheduleError::NodeInProgress));
    assert_eq!(s.queue_len(), 1);
}

#[test]
fn consolidate_without_visit_is_refused() {
    let mut s = fresh();
    assert_eq!(s.consolidate(&vec![]), Err(ScheduleError::NoNodeInProgress));
    assert_eq!(s.queue_len(), 2);
}

#[test]
fn parentless_root_without_sibling_is_refused() {
    let mut s = fresh();
    s.begin_next().unwrap().unwrap();
    s.consolidate(&vec![]).unwrap();
    s.begin_next().unwrap().unwrap();
    s.consolidate(&vec![]).unwrap();
    s.begin_next().unwrap().unwrap();
    assert_eq!(s.queue_len(), 0);
    assert_eq!(
        s.consolidate(&vec![map("x", b"new")]),
        Err(ScheduleError::MissingSibling)
    );
    assert_eq!(s.seen_len(), 0);
    assert_eq!(s.current().unwrap().id, sid(1, 0));
    // nothing new: no sibling needed
    assert_eq!(s.consolidate(&vec![]), Ok(vec![Action::Reclaim { id: sid(1, 0) }]));
    assert_eq!(s.queue_len(), 1);
}

#[test]
fn client_root_always_comes_back() {
    let mut s = fresh();
    s.begin_next().unwrap().unwrap();
    s.consolidate(&vec![]).unwrap();
    s.begin_next().unwrap().unwrap();
    s.consolidate(&vec![]).unwrap();
    // only the client root is left, and it always comes back
    s.begin_next().unwrap().unwrap();
    s.consolidate(&vec![]).unwrap();
    assert_eq!(s.queue_len(), 1);
}

#[test]
fn two_new_signatures_spawn_before_any_reclaim() {
    let mut s = fresh();
    s.begin_next().unwrap().unwrap();
    s.consolidate(&vec![]).unwrap();
    s.begin_next().unwrap().unwrap();
    let maps = vec![map("a", b"1"), map("b", b"1"), map("c", b"2")];
    let acts = s.consolidate(&maps).unwrap();
    assert_eq!(
        acts,
        vec![
            Action::SpawnChild { parent: sid(0, 1), child: sid(1, 1), map: 0 },
            Action::SpawnChild { parent: sid(0, 1), child: sid(1, 2), map: 2 },
            Action::Reclaim { id: sid(0, 1) },
            Action::Reclaim { id: sid(1, 0) },
        ]
    );
    assert_eq!(s.seen_len(), 2);
    assert_eq!(s.cursor(), sid(1, 2));
}

#[test]
fn only_known_signatures_still_reclaim_both_copies() {
    let mut s = fresh();
    s.begin_next().unwrap().unwrap();
    s.consolidate(&vec![]).unwrap();
    s.begin_next().unwrap().unwrap();
    s.consolidate(&vec![map("a", b"1")]).unwrap();
    // client root, then child (1,1) scored against the server root
    s.begin_next().unwrap().unwrap();
    s.consolidate(&vec![]).unwrap();
    s.begin_next().unwrap().unwrap();
    let acts = s.consolidate(&vec![map("z", b"1")]).unwrap();
    assert_eq!(
        acts,
        vec![Action::Reclaim { id: sid(1, 1) }, Action::Reclaim { id: sid(0, 1) }]
    );
    assert_eq!(s.cursor(), sid(1, 1));
    assert_eq!(s.seen_len(), 1);
}

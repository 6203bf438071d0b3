use fitm::commands::{coverage_invocation, fuzz_invocation, reseed_invocation, bootstrap_invocation};
use fitm::layout::{
    commit_relocation, dir_name, materialize_dirs, placeholder_input, restore_relocation,
    state_dir, state_file, state_subdir, Area, Subdir,
};
use fitm::state_id::{next_state_path, Role, StateId};

fn sid(c: u64, s: u64) -> StateId {
    StateId { client_generation: c, server_generation: s }
}

#[test]
fn next_state_path_bumps_server_only() {
    let r = next_state_path(sid(3, 7), true);
    assert_eq!(r, sid(3, 8));
}

#[test]
fn next_state_path_bumps_client_only() {
    let r = next_state_path(sid(3, 7), false);
    assert_eq!(r, sid(4, 7));
}

#[test]
fn next_state_path_from_zero() {
    assert_eq!(next_state_path(sid(0, 0), true), sid(0, 1));
    assert_eq!(next_state_path(sid(0, 0), false), sid(1, 0));
}

#[test]
fn counterpart_flips_role() {
    assert_eq!(Role::Client.counterpart(), Role::Server);
    assert_eq!(Role::Server.counterpart(), Role::Client);
}

#[test]
fn dir_name_renders_both_counters() {
    assert_eq!(dir_name(sid(1, 0)), "fitm-c1s0");
    assert_eq!(dir_name(sid(0, 1)), "fitm-c0s1");
    assert_eq!(dir_name(sid(12, 305)), "fitm-c12s305");
    assert_eq!(
        dir_name(sid(u64::MAX, 10)),
        "fitm-c18446744073709551615s10"
    );
}

#[test]
fn dir_names_of_distinct_ids_differ() {
    assert_ne!(dir_name(sid(1, 11)), dir_name(sid(11, 1)));
    assert_ne!(dir_name(sid(1, 10)), dir_name(sid(11, 0)));
}

#[test]
fn state_paths_in_both_areas() {
    assert_eq!(state_dir(Area::Working, sid(1, 0)), "active-state/fitm-c1s0");
    assert_eq!(state_dir(Area::Committed, sid(2, 3)), "saved-states/fitm-c2s3");
    assert_eq!(
        state_subdir(Area::Working, sid(0, 1), Subdir::CoverageMaps),
        "active-state/fitm-c0s1/out/maps"
    );
    assert_eq!(
        state_file(Area::Committed, sid(0, 1), Subdir::Inputs, "id:000001"),
        "saved-states/fitm-c0s1/in/id:000001"
    );
    assert_eq!(
        state_file(Area::Working, sid(1, 1), Subdir::ReceivedData, "a"),
        "active-state/fitm-c1s1/fd/a"
    );
    assert_eq!(placeholder_input(sid(1, 0)), "active-state/fitm-c1s0/out/.cur_input");
}

#[test]
fn materialize_creates_parents_first() {
    let dirs = materialize_dirs(sid(2, 1));
    assert_eq!(
        dirs,
        vec![
            "active-state/fitm-c2s1",
            "active-state/fitm-c2s1/in",
            "active-state/fitm-c2s1/out",
            "active-state/fitm-c2s1/out/maps",
            "active-state/fitm-c2s1/fd",
            "active-state/fitm-c2s1/snapshot",
        ]
    );
}

#[test]
fn commit_then_restore_returns_to_the_same_path() {
    let c = commit_relocation(sid(4, 2));
    let r = restore_relocation(sid(4, 2));
    assert_eq!(c.from, "active-state/fitm-c4s2");
    assert_eq!(c.to, "saved-states/fitm-c4s2");
    assert_eq!(r.from, c.to);
    assert_eq!(r.to, c.from);
}

#[test]
fn fuzz_invocation_resumes_own_checkpoint() {
    let inv = fuzz_invocation(sid(1, 2), 30);
    assert_eq!(inv.program, "../../AFLplusplus/afl-fuzz");
    assert_eq!(
        inv.args,
        vec![
            "-i", "./in", "-o", "./out", "-m", "none", "-d", "-V", "30", "--", "sh",
            "../../restore.sh", "fitm-c1s2", "@@",
        ]
    );
    assert_eq!(inv.workdir, "active-state/fitm-c1s2");
    assert_eq!(inv.env.len(), 3);
    assert_eq!(inv.env[1], ("AFL_SKIP_BIN_CHECK".to_string(), "1".to_string()));
}

#[test]
fn coverage_invocation_restores_counterpart() {
    let inv = coverage_invocation(sid(1, 1), sid(1, 0));
    assert_eq!(inv.program, "../../AFLplusplus/afl-showmap");
    assert_eq!(inv.args[10], "fitm-c1s0");
    assert_eq!(inv.args[1], "./fd");
    assert_eq!(inv.workdir, "active-state/fitm-c1s1");
    assert_eq!(inv.env[3], ("AFL_DEBUG".to_string(), "1".to_string()));
}

#[test]
fn checkpoint_invocations() {
    let b = bootstrap_invocation(sid(0, 1), "test/pseudoserver");
    assert_eq!(b.program, "setsid");
    assert_eq!(
        b.args,
        vec!["stdbuf", "-oL", "../../AFLplusplus/afl-qemu-trace", "../../test/pseudoserver"]
    );
    assert_eq!(b.env[0], ("LETS_DO_THE_TIMEWARP_AGAIN".to_string(), "1".to_string()));
    let s = reseed_invocation(sid(2, 1), sid(1, 1), "active-state/fitm-c2s1/in/x");
    assert_eq!(
        s.args,
        vec!["stdbuf", "-oL", "../../restore.sh", "../../fitm-c1s1", "active-state/fitm-c2s1/in/x"]
    );
    assert_eq!(s.workdir, "active-state/fitm-c2s1");
}

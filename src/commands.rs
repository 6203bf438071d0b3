use vstd::prelude::*;
use crate::layout::{Area, decimal, push_decimal, spec_dir_name, dir_name, spec_state_dir, state_dir};
use crate::state_id::StateId;

verus! {

/// An external process to spawn and wait for: program, arguments,
/// environment, and the directory it runs in.
pub struct Invocation {
    pub program: String,
    pub args: Vec<String>,
    pub env: Vec<(String, String)>,
    pub workdir: String,
}

pub open spec fn strings(v: Seq<String>) -> Seq<Seq<char>> {
    v.map_values(|s: String| s@)
}

pub open spec fn pairs(v: Seq<(String, String)>) -> Seq<(Seq<char>, Seq<char>)> {
    v.map_values(|p: (String, String)| (p.0@, p.1@))
}

/// Environment of the bootstrap and re-checkpoint runs.
pub open spec fn checkpoint_env() -> Seq<(Seq<char>, Seq<char>)> {
    seq![
        ("LETS_DO_THE_TIMEWARP_AGAIN"@, "1"@),
        ("CRIU_SNAPSHOT_DIR"@, "./snapshot"@),
        ("AFL_NO_UI"@, "1"@),
    ]
}

/// Environment of runs that resume a checkpoint through the restore script.
pub open spec fn restore_env() -> Seq<(Seq<char>, Seq<char>)> {
    seq![
        ("CRIU_SNAPSHOT_DIR"@, "./snapshot"@),
        ("AFL_SKIP_BIN_CHECK"@, "1"@),
        ("AFL_NO_UI"@, "1"@),
    ]
}

fn owned(s: &str) -> (r: String)
    ensures
        r@ == s@,
{
    String::from_str(s)
}

fn pair(k: &str, v: &str) -> (r: (String, String))
    ensures
        r.0@ == k@,
        r.1@ == v@,
{
    (String::from_str(k), String::from_str(v))
}

fn up_two(rest: &str) -> (r: String)
    ensures
        r@ == "../../"@ + rest@,
{
    let mut s = String::from_str("../../");
    s.append(rest);
    s
}

fn checkpoint_env_vec() -> (r: Vec<(String, String)>)
    ensures
        pairs(r@) == checkpoint_env(),
{
    let mut v: Vec<(String, String)> = Vec::new();
    v.push(pair("LETS_DO_THE_TIMEWARP_AGAIN", "1"));
    v.push(pair("CRIU_SNAPSHOT_DIR", "./snapshot"));
    v.push(pair("AFL_NO_UI", "1"));
    assert(pairs(v@) =~= checkpoint_env());
    v
}

fn restore_env_vec() -> (r: Vec<(String, String)>)
    ensures
        pairs(r@) == restore_env(),
{
    let mut v: Vec<(String, String)> = Vec::new();
    v.push(pair("CRIU_SNAPSHOT_DIR", "./snapshot"));
    v.push(pair("AFL_SKIP_BIN_CHECK", "1"));
    v.push(pair("AFL_NO_UI", "1"));
    assert(pairs(v@) =~= restore_env());
    v
}

/// Bootstrap of a root: run `target_binary` under the emulator that freezes
/// it at its first blocking receive, inside the root's working tree.
pub fn bootstrap_invocation(id: StateId, target_binary: &str) -> (r: Invocation)
    ensures
        r.program@ == "setsid"@,
        strings(r.args@) == seq![
            "stdbuf"@,
            "-oL"@,
            "../../AFLplusplus/afl-qemu-trace"@,
            "../../"@ + target_binary@,
        ],
        pairs(r.env@) == checkpoint_env(),
        r.workdir@ == spec_state_dir(Area::Working, id),
{
    let mut args: Vec<String> = Vec::new();
    args.push(owned("stdbuf"));
    args.push(owned("-oL"));
    args.push(owned("../../AFLplusplus/afl-qemu-trace"));
    args.push(up_two(target_binary));
    let r = Invocation {
        program: owned("setsid"),
        args,
        env: checkpoint_env_vec(),
        workdir: state_dir(Area::Working, id),
    };
    assert(strings(r.args@) =~= seq![
        "stdbuf"@,
        "-oL"@,
        "../../AFLplusplus/afl-qemu-trace"@,
        "../../"@ + target_binary@,
    ]);
    r
}

/// Checkpoint of a new state from a seed: restore the checkpoint of its
/// parent with `seed` as pending input and freeze it again, inside the new
/// state's working tree.
pub fn reseed_invocation(id: StateId, parent: StateId, seed: &str) -> (r: Invocation)
    ensures
        r.program@ == "setsid"@,
        strings(r.args@) == seq![
            "stdbuf"@,
            "-oL"@,
            "../../restore.sh"@,
            "../../"@ + spec_dir_name(parent),
            seed@,
        ],
        pairs(r.env@) == checkpoint_env(),
        r.workdir@ == spec_state_dir(Area::Working, id),
{
    let name = dir_name(parent);
    let mut args: Vec<String> = Vec::new();
    args.push(owned("stdbuf"));
    args.push(owned("-oL"));
    args.push(owned("../../restore.sh"));
    args.push(up_two(name.as_str()));
    args.push(owned(seed));
    let r = Invocation {
        program: owned("setsid"),
        args,
        env: checkpoint_env_vec(),
        workdir: state_dir(Area::Working, id),
    };
    assert(strings(r.args@) =~= seq![
        "stdbuf"@,
        "-oL"@,
        "../../restore.sh"@,
        "../../"@ + spec_dir_name(parent),
        seed@,
    ]);
    r
}

/// One fuzzing pass of a state: the engine reads the state's corpus, writes
/// candidates to its output directory and resumes the state's checkpoint for
/// every candidate, for at most `timeout` seconds.
pub fn fuzz_invocation(id: StateId, timeout: u32) -> (r: Invocation)
    ensures
        r.program@ == "../../AFLplusplus/afl-fuzz"@,
        strings(r.args@) == seq![
            "-i"@,
            "./in"@,
            "-o"@,
            "./out"@,
            "-m"@,
            "none"@,
            "-d"@,
            "-V"@,
            decimal(timeout as nat),
            "--"@,
            "sh"@,
            "../../restore.sh"@,
            spec_dir_name(id),
            "@@"@,
        ],
        pairs(r.env@) == restore_env(),
        r.workdir@ == spec_state_dir(Area::Working, id),
{
    let mut seconds = String::new();
    push_decimal(&mut seconds, timeout as u64);
    assert(seconds@ =~= decimal(timeout as nat));
    let mut args: Vec<String> = Vec::new();
    args.push(owned("-i"));
    args.push(owned("./in"));
    args.push(owned("-o"));
    args.push(owned("./out"));
    args.push(owned("-m"));
    args.push(owned("none"));
    args.push(owned("-d"));
    args.push(owned("-V"));
    args.push(seconds);
    args.push(owned("--"));
    args.push(owned("sh"));
    args.push(owned("../../restore.sh"));
    args.push(dir_name(id));
    args.push(owned("@@"));
    let r = Invocation {
        program: owned("../../AFLplusplus/afl-fuzz"),
        args,
        env: restore_env_vec(),
        workdir: state_dir(Area::Working, id),
    };
    assert(strings(r.args@) =~= seq![
        "-i"@,
        "./in"@,
        "-o"@,
        "./out"@,
        "-m"@,
        "none"@,
        "-d"@,
        "-V"@,
        decimal(timeout as nat),
        "--"@,
        "sh"@,
        "../../restore.sh"@,
        spec_dir_name(id),
        "@@"@,
    ]);
    r
}

/// Scoring of a state's received data: the coverage tool resumes the
/// committed checkpoint of `counterpart` once per file and writes one
/// signature per file to the state's coverage-maps directory.
pub fn coverage_invocation(id: StateId, counterpart: StateId) -> (r: Invocation)
    ensures
        r.program@ == "../../AFLplusplus/afl-showmap"@,
        strings(r.args@) == seq![
            "-i"@,
            "./fd"@,
            "-o"@,
            "./out/maps"@,
            "-m"@,
            "none"@,
            "-Q"@,
            "--"@,
            "sh"@,
            "../../restore.sh"@,
            spec_dir_name(counterpart),
            "@@"@,
        ],
        pairs(r.env@) == restore_env().push(("AFL_DEBUG"@, "1"@)),
        r.workdir@ == spec_state_dir(Area::Working, id),
{
    let mut args: Vec<String> = Vec::new();
    args.push(owned("-i"));
    args.push(owned("./fd"));
    args.push(owned("-o"));
    args.push(owned("./out/maps"));
    args.push(owned("-m"));
    args.push(owned("none"));
    args.push(owned("-Q"));
    args.push(owned("--"));
    args.push(owned("sh"));
    args.push(owned("../../restore.sh"));
    args.push(dir_name(counterpart));
    args.push(owned("@@"));
    let mut env = restore_env_vec();
    env.push(pair("AFL_DEBUG", "1"));
    let r = Invocation {
        program: owned("../../AFLplusplus/afl-showmap"),
        args,
        env,
        workdir: state_dir(Area::Working, id),
    };
    assert(strings(r.args@) =~= seq![
        "-i"@,
        "./fd"@,
        "-o"@,
        "./out/maps"@,
        "-m"@,
        "none"@,
        "-Q"@,
        "--"@,
        "sh"@,
        "../../restore.sh"@,
        spec_dir_name(counterpart),
        "@@"@,
    ]);
    assert(pairs(r.env@) =~= restore_env().push(("AFL_DEBUG"@, "1"@)));
    r
}

} // verus!

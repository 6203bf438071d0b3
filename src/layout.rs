use vstd::prelude::*;
use crate::state_id::StateId;

verus! {

pub open spec fn digit_char(d: nat) -> char {
    if d == 0 { '0' }
    else if d == 1 { '1' }
    else if d == 2 { '2' }
    else if d == 3 { '3' }
    else if d == 4 { '4' }
    else if d == 5 { '5' }
    else if d == 6 { '6' }
    else if d == 7 { '7' }
    else if d == 8 { '8' }
    else { '9' }
}

pub open spec fn is_digit(c: char) -> bool {
    '0' <= c && c <= '9'
}

pub open spec fn digit_value(c: char) -> nat {
    (c as u32 - '0' as u32) as nat
}

/// Decimal notation of `n`, most significant digit first, without leading zeros.
pub open spec fn decimal(n: nat) -> Seq<char>
    decreases n,
{
    if n < 10 {
        seq![digit_char(n)]
    } else {
        decimal(n / 10).push(digit_char(n % 10))
    }
}

/// The number that a string of decimal digits denotes.
pub open spec fn decimal_value(s: Seq<char>) -> nat
    decreases s.len(),
{
    if s.len() == 0 {
        0
    } else {
        decimal_value(s.drop_last()) * 10 + digit_value(s.last())
    }
}

pub open spec fn name_prefix() -> Seq<char> {
    seq!['f', 'i', 't', 'm', '-', 'c']
}

/// Directory name of a state: `fitm-c<client>s<server>`.
pub open spec fn spec_dir_name(id: StateId) -> Seq<char> {
    name_prefix() + decimal(id.client_generation as nat) + seq!['s'] + decimal(
        id.server_generation as nat,
    )
}

proof fn lemma_digit(d: nat)
    requires
        d < 10,
    ensures
        is_digit(digit_char(d)),
        digit_value(digit_char(d)) == d,
{
}

pub proof fn lemma_decimal(n: nat)
    ensures
        decimal(n).len() >= 1,
        forall|i: int| 0 <= i < decimal(n).len() ==> is_digit(#[trigger] decimal(n)[i]),
        decimal_value(decimal(n)) == n,
    decreases n,
{
    if n < 10 {
        lemma_digit(n);
        assert(decimal(n).drop_last() =~= Seq::<char>::empty());
        assert(decimal_value(Seq::<char>::empty()) == 0);
        assert(decimal(n).last() == digit_char(n));
    } else {
        lemma_decimal(n / 10);
        lemma_digit(n % 10);
        assert(decimal(n).drop_last() =~= decimal(n / 10));
        vstd::arithmetic::div_mod::lemma_fundamental_div_mod(n as int, 10);
        assert(decimal(n).last() == digit_char(n % 10));
        assert(decimal_value(decimal(n)) == decimal_value(decimal(n / 10)) * 10 + n % 10);
    }
}

/// Different numbers have different decimal notations.
pub proof fn lemma_decimal_injective(a: nat, b: nat)
    ensures
        decimal(a) == decimal(b) ==> a == b,
{
    lemma_decimal(a);
    lemma_decimal(b);
}

/// Different states never share a directory name.
pub proof fn lemma_dir_name_injective(a: StateId, b: StateId)
    ensures
        spec_dir_name(a) == spec_dir_name(b) <==> a == b,
{
    if spec_dir_name(a) == spec_dir_name(b) {
        let p = name_prefix();
        let da: Seq<char> = decimal(a.client_generation as nat);
        let db = decimal(b.client_generation as nat);
        let ea = decimal(a.server_generation as nat);
        let eb = decimal(b.server_generation as nat);
        let s = spec_dir_name(a);
        lemma_decimal(a.client_generation as nat);
        lemma_decimal(b.client_generation as nat);
        lemma_decimal(a.server_generation as nat);
        lemma_decimal(b.server_generation as nat);
        assert(s == p + da + seq!['s'] + ea);
        assert(s == p + db + seq!['s'] + eb);
        if da.len() < db.len() {
            assert(s[6 + da.len() as int] == 's');
            assert(s[6 + da.len() as int] == db[da.len() as int]);
            assert(false);
        }
        if db.len() < da.len() {
            assert(s[6 + db.len() as int] == 's');
            assert(s[6 + db.len() as int] == da[db.len() as int]);
            assert(false);
        }
        assert(da =~= s.subrange(6, 6 + da.len() as int));
        assert(db =~= s.subrange(6, 6 + db.len() as int));
        assert(ea =~= s.subrange(7 + da.len() as int, s.len() as int));
        assert(eb =~= s.subrange(7 + db.len() as int, s.len() as int));
        lemma_decimal_injective(a.client_generation as nat, b.client_generation as nat);
        lemma_decimal_injective(a.server_generation as nat, b.server_generation as nat);
    }
}

fn digit_str(d: u64) -> (r: &'static str)
    requires
        d < 10,
    ensures
        r@ == seq![digit_char(d as nat)],
{
    proof {
        reveal_strlit("0");
        reveal_strlit("1");
        reveal_strlit("2");
        reveal_strlit("3");
        reveal_strlit("4");
        reveal_strlit("5");
        reveal_strlit("6");
        reveal_strlit("7");
        reveal_strlit("8");
        reveal_strlit("9");
    }
    if d == 0 { "0" }
    else if d == 1 { "1" }
    else if d == 2 { "2" }
    else if d == 3 { "3" }
    else if d == 4 { "4" }
    else if d == 5 { "5" }
    else if d == 6 { "6" }
    else if d == 7 { "7" }
    else if d == 8 { "8" }
    else { "9" }
}

/// Appends the decimal notation of `n` to `s`.
pub fn push_decimal(s: &mut String, n: u64)
    ensures
        final(s)@ == old(s)@ + decimal(n as nat),
    decreases n,
{
    if n >= 10 {
        push_decimal(s, n / 10);
    }
    s.append(digit_str(n % 10));
    assert(final(s)@ =~= old(s)@ + decimal(n as nat));
}

/// Directory name of a state, as it appears in both areas.
pub fn dir_name(id: StateId) -> (r: String)
    ensures
        r@ == spec_dir_name(id),
{
    proof {
        reveal_strlit("fitm-c");
        reveal_strlit("s");
    }
    let mut s = String::from_str("fitm-c");
    push_decimal(&mut s, id.client_generation);
    s.append("s");
    push_decimal(&mut s, id.server_generation);
    assert(s@ =~= spec_dir_name(id));
    s
}


/// The two places a state's directory tree can be: the mutable working area
/// and the committed area that restores read from.
#[derive(Clone, Copy, Debug, PartialEq, Eq, Structural)]
pub enum Area {
    Working,
    Committed,
}

/// The fixed subdirectories of a state's tree.
#[derive(Clone, Copy, Debug, PartialEq, Eq, Structural)]
pub enum Subdir {
    /// Input corpus of the fuzzing engine.
    Inputs,
    /// Candidates written by the fuzzing engine.
    Outputs,
    /// One coverage signature file per scored candidate.
    CoverageMaps,
    /// Bytes sent towards the counterpart program, one file per candidate.
    ReceivedData,
    /// The frozen process image.
    Checkpoint,
}

pub open spec fn area_root(area: Area) -> Seq<char> {
    match area {
        Area::Working => "active-state"@,
        Area::Committed => "saved-states"@,
    }
}

pub open spec fn subdir_name(sub: Subdir) -> Seq<char> {
    match sub {
        Subdir::Inputs => "in"@,
        Subdir::Outputs => "out"@,
        Subdir::CoverageMaps => "out/maps"@,
        Subdir::ReceivedData => "fd"@,
        Subdir::Checkpoint => "snapshot"@,
    }
}

pub open spec fn spec_state_dir(area: Area, id: StateId) -> Seq<char> {
    area_root(area) + "/"@ + spec_dir_name(id)
}

pub open spec fn spec_state_subdir(area: Area, id: StateId, sub: Subdir) -> Seq<char> {
    spec_state_dir(area, id) + "/"@ + subdir_name(sub)
}

pub open spec fn spec_state_file(area: Area, id: StateId, sub: Subdir, file: Seq<char>) -> Seq<
    char,
> {
    spec_state_subdir(area, id, sub) + "/"@ + file
}

/// Root directory of an area.
pub fn area_dir(area: Area) -> (r: &'static str)
    ensures
        r@ == area_root(area),
{
    match area {
        Area::Working => "active-state",
        Area::Committed => "saved-states",
    }
}

fn subdir_str(sub: Subdir) -> (r: &'static str)
    ensures
        r@ == subdir_name(sub),
{
    match sub {
        Subdir::Inputs => "in",
        Subdir::Outputs => "out",
        Subdir::CoverageMaps => "out/maps",
        Subdir::ReceivedData => "fd",
        Subdir::Checkpoint => "snapshot",
    }
}

/// Path of a state's tree in the given area.
pub fn state_dir(area: Area, id: StateId) -> (r: String)
    ensures
        r@ == spec_state_dir(area, id),
{
    let mut s = String::from_str(area_dir(area));
    s.append("/");
    let name = dir_name(id);
    s.append(name.as_str());
    s
}

/// Path of one subdirectory of a state's tree.
pub fn state_subdir(area: Area, id: StateId, sub: Subdir) -> (r: String)
    ensures
        r@ == spec_state_subdir(area, id, sub),
{
    let mut s = state_dir(area, id);
    s.append("/");
    s.append(subdir_str(sub));
    s
}

/// Path of a file inside one subdirectory of a state's tree.
pub fn state_file(area: Area, id: StateId, sub: Subdir, file: &str) -> (r: String)
    ensures
        r@ == spec_state_file(area, id, sub, file@),
{
    let mut s = state_subdir(area, id, sub);
    s.append("/");
    s.append(file);
    s
}

/// Placeholder input file that must exist when a checkpoint is restored.
pub fn placeholder_input(id: StateId) -> (r: String)
    ensures
        r@ == spec_state_file(Area::Working, id, Subdir::Outputs, ".cur_input"@),
{
    state_file(Area::Working, id, Subdir::Outputs, ".cur_input")
}

pub open spec fn spec_materialize_dirs(id: StateId) -> Seq<Seq<char>> {
    seq![
        spec_state_dir(Area::Working, id),
        spec_state_subdir(Area::Working, id, Subdir::Inputs),
        spec_state_subdir(Area::Working, id, Subdir::Outputs),
        spec_state_subdir(Area::Working, id, Subdir::CoverageMaps),
        spec_state_subdir(Area::Working, id, Subdir::ReceivedData),
        spec_state_subdir(Area::Working, id, Subdir::Checkpoint),
    ]
}

/// Directories that make up a fresh working tree for `id`, each after its parent.
pub fn materialize_dirs(id: StateId) -> (r: Vec<String>)
    ensures
        r@.map_values(|p: String| p@) == spec_materialize_dirs(id),
{
    let mut v: Vec<String> = Vec::new();
    v.push(state_dir(Area::Working, id));
    v.push(state_subdir(Area::Working, id, Subdir::Inputs));
    v.push(state_subdir(Area::Working, id, Subdir::Outputs));
    v.push(state_subdir(Area::Working, id, Subdir::CoverageMaps));
    v.push(state_subdir(Area::Working, id, Subdir::ReceivedData));
    v.push(state_subdir(Area::Working, id, Subdir::Checkpoint));
    assert(v@.map_values(|p: String| p@) =~= spec_materialize_dirs(id));
    v
}

/// A relocation of one state's tree from one area to the other.
pub struct Relocation {
    pub from: String,
    pub to: String,
}

/// `commit`: the working tree of `id` moves to the committed area.
pub fn commit_relocation(id: StateId) -> (r: Relocation)
    ensures
        r.from@ == spec_state_dir(Area::Working, id),
        r.to@ == spec_state_dir(Area::Committed, id),
{
    Relocation { from: state_dir(Area::Working, id), to: state_dir(Area::Committed, id) }
}

/// `restore_copy`: the committed tree of `id` is copied into the working area.
pub fn restore_relocation(id: StateId) -> (r: Relocation)
    ensures
        r.from@ == spec_state_dir(Area::Committed, id),
        r.to@ == spec_state_dir(Area::Working, id),
{
    Relocation { from: state_dir(Area::Committed, id), to: state_dir(Area::Working, id) }
}

/// A restore copies a state's tree back to exactly the place its commit took it
/// from, and reads exactly the place the commit put it.
pub proof fn lemma_commit_restore_round_trip(id: StateId, c: Relocation, r: Relocation)
    requires
        c.from@ == spec_state_dir(Area::Working, id),
        c.to@ == spec_state_dir(Area::Committed, id),
        r.from@ == spec_state_dir(Area::Committed, id),
        r.to@ == spec_state_dir(Area::Working, id),
    ensures
        r.from@ == c.to@,
        r.to@ == c.from@,
        c.from@ != c.to@,
{
    reveal_strlit("active-state");
    reveal_strlit("saved-states");
    assert(c.from@[0] == 'a');
    assert(c.to@[0] == 's');
}

/// Within one area, different states have different directories.
pub proof fn lemma_state_dir_injective(area: Area, a: StateId, b: StateId)
    ensures
        spec_state_dir(area, a) == spec_state_dir(area, b) <==> a == b,
{
    let p = area_root(area) + "/"@;
    assert(spec_state_dir(area, a) == p + spec_dir_name(a));
    assert(spec_state_dir(area, b) == p + spec_dir_name(b));
    if spec_state_dir(area, a) == spec_state_dir(area, b) {
        let s = spec_state_dir(area, a);
        assert(spec_dir_name(a) =~= s.subrange(p.len() as int, s.len() as int));
        assert(spec_dir_name(b) =~= s.subrange(p.len() as int, s.len() as int));
    }
    lemma_dir_name_injective(a, b);
}

} // verus!

//! Classifies the caddy processes that are running: the one the app owns,
//! orphans started with the app's Caddyfile (safe to stop), and caddies from
//! elsewhere (`brew services`, a manual `caddy run`; the user must confirm).
//! The caller lists the processes with `pgrep` and `ps` and sends signals.

use vstd::prelude::*;
use vstd::string::*;
use crate::text::{
    chars_of, contains, contains_chars, decimal, lines, parse_uint, parse_uint_chars,
    push_decimal, split_lines, str_views, string_of, trim, trim_chars, views,
};

verus! {

/// A running caddy process.
#[derive(Debug, Clone)]
pub struct ProcessInfo {
    pub pid: u32,
    pub command: String,
}

/// What was found when looking at the running caddy processes.
#[derive(Debug, Clone)]
pub enum CaddySighting {
    /// Nothing is running.
    NotRunning,
    /// Our tracked child is alive.
    OursAlive { pid: u32 },
    /// We had a PID file or a tracked child, but it is gone: stale state to clear.
    OursDead,
    /// Caddy processes that we do not own: `bellboy_owned` were started with
    /// our Caddyfile, `external` come from elsewhere.
    Foreign { bellboy_owned: Vec<ProcessInfo>, external: Vec<ProcessInfo> },
}

/// A process as plain values: its PID and command line.
pub open spec fn info_view(p: ProcessInfo) -> (u32, Seq<char>) {
    (p.pid, p.command@)
}

/// The mathematical form of a sighting.
pub enum SightingModel {
    Idle,
    OursAlive(u32),
    OursDead,
    Foreign(Seq<(u32, Seq<char>)>, Seq<(u32, Seq<char>)>),
}

impl View for CaddySighting {
    type V = SightingModel;

    open spec fn view(&self) -> SightingModel {
        match self {
            CaddySighting::NotRunning => SightingModel::Idle,
            CaddySighting::OursAlive { pid } => SightingModel::OursAlive(*pid),
            CaddySighting::OursDead => SightingModel::OursDead,
            CaddySighting::Foreign { bellboy_owned, external } => SightingModel::Foreign(
                bellboy_owned@.map_values(|p: ProcessInfo| info_view(p)),
                external@.map_values(|p: ProcessInfo| info_view(p)),
            ),
        }
    }
}

/// A command line that names the app's Caddyfile path (a non-empty one).
pub open spec fn uses_caddyfile(command: Seq<char>, caddyfile: Seq<char>) -> bool {
    caddyfile.len() > 0 && contains(command, caddyfile)
}

/// Whether a process was started with the app's Caddyfile. An empty path
/// never matches (every command line contains the empty string).
pub fn cmdline_uses_bellboy_caddyfile(command: &str, bellboy_caddyfile: &str) -> (r: bool)
    ensures
        r == uses_caddyfile(command@, bellboy_caddyfile@),
{
    let needle = chars_of(bellboy_caddyfile);
    if needle.len() == 0 {
        return false;
    }
    let hay = chars_of(command);
    contains_chars(&hay, &needle)
}

/// The PIDs printed by `pgrep`, one per line; lines that are not a `u32`
/// after trimming are skipped.
pub open spec fn pgrep_pids(ls: Seq<Seq<char>>) -> Seq<u32>
    decreases ls.len(),
{
    if ls.len() == 0 {
        Seq::empty()
    } else {
        let rest = pgrep_pids(ls.drop_last());
        match parse_uint(trim(ls.last()), u32::MAX as nat) {
            Some(n) => rest.push(n as u32),
            None => rest,
        }
    }
}

/// Reads the PIDs out of `pgrep` output.
pub fn parse_pgrep_output(stdout: &str) -> (r: Vec<u32>)
    ensures
        r@ == pgrep_pids(lines(stdout@)),
{
    let v = chars_of(stdout);
    let ls = split_lines(&v);
    let mut r: Vec<u32> = Vec::new();
    let mut i: usize = 0;
    while i < ls.len()
        invariant
            i <= ls.len(),
            r@ == pgrep_pids(views(ls@).take(i as int)),
        decreases ls.len() - i,
    {
        assert(views(ls@).take(i + 1).drop_last() =~= views(ls@).take(i as int));
        assert(views(ls@).take(i + 1).last() == ls@[i as int]@);
        let t = trim_chars(&ls[i]);
        match parse_uint_chars(&t, u32::MAX as u64) {
            Some(n) => r.push(n as u32),
            None => {},
        }
        i = i + 1;
    }
    assert(views(ls@).take(ls.len() as int) =~= views(ls@));
    r
}

pub const PGREP_FAILED_MESSAGE: &'static str = "pgrep failed";

/// The PIDs from a `pgrep` run, given whether it exited with success and its
/// output: `pgrep` exits with failure when nothing matches, which is no error
/// as long as it printed nothing.
pub fn pgrep_outcome(succeeded: bool, stdout: &str) -> (r: Result<Vec<u32>, String>)
    ensures
        !succeeded && stdout@.len() > 0 ==> (r matches Err(e) && e@ == PGREP_FAILED_MESSAGE@),
        succeeded || stdout@.len() == 0 ==> (r matches Ok(p) && p@ == pgrep_pids(lines(stdout@))),
{
    if !succeeded && stdout.unicode_len() > 0 {
        return Err(String::from_str(PGREP_FAILED_MESSAGE));
    }
    Ok(parse_pgrep_output(stdout))
}

/// The command line of the `i`-th process, empty when unknown.
pub open spec fn command_at(cmds: Seq<Seq<char>>, i: int) -> Seq<char> {
    if 0 <= i < cmds.len() {
        cmds[i]
    } else {
        Seq::empty()
    }
}

/// The PID the app owns: its live child, else the PID file's.
pub open spec fn owned_pid(our_pid: Option<u32>, pid_file: Option<u32>) -> Option<u32> {
    match our_pid {
        Some(p) => Some(p),
        None => pid_file,
    }
}

/// Sorts the processes that are not the owned one: those started with the
/// Caddyfile and the others, in process-table order; and whether the owned
/// one was seen.
pub open spec fn classify(
    pids: Seq<u32>,
    cmds: Seq<Seq<char>>,
    owned: Option<u32>,
    caddyfile: Seq<char>,
) -> (Seq<(u32, Seq<char>)>, Seq<(u32, Seq<char>)>, bool)
    decreases pids.len(),
{
    if pids.len() == 0 {
        (Seq::empty(), Seq::empty(), false)
    } else {
        let (b, e, alive) = classify(pids.drop_last(), cmds, owned, caddyfile);
        let i = pids.len() - 1;
        let pid = pids[i];
        if owned == Some(pid) {
            (b, e, true)
        } else {
            let info = (pid, command_at(cmds, i));
            if uses_caddyfile(info.1, caddyfile) {
                (b.push(info), e, alive)
            } else {
                (b, e.push(info), alive)
            }
        }
    }
}

/// The sighting for a process table (`pids`, with `cmds[i]` the command line
/// of `pids[i]`), the live child the app tracks, the PID file's PID and the
/// app's Caddyfile path.
pub open spec fn sighting(
    pids: Seq<u32>,
    cmds: Seq<Seq<char>>,
    our_pid: Option<u32>,
    pid_file: Option<u32>,
    caddyfile: Seq<char>,
) -> SightingModel {
    if our_pid matches Some(o) && !pids.contains(o) {
        SightingModel::OursDead
    } else {
        let owned = owned_pid(our_pid, pid_file);
        let (b, e, alive) = classify(pids, cmds, owned, caddyfile);
        if b.len() == 0 && e.len() == 0 {
            match owned {
                Some(p) => if alive {
                    SightingModel::OursAlive(p)
                } else {
                    SightingModel::OursDead
                },
                None => SightingModel::Idle,
            }
        } else {
            SightingModel::Foreign(b, e)
        }
    }
}

/// Every process sorted as started with the Caddyfile names it on its
/// command line, every other one does not, and neither list holds the owned
/// PID or a PID that is not in the table: only the app's own orphans are
/// offered for stopping without asking.
pub proof fn lemma_classify_sound(
    pids: Seq<u32>,
    cmds: Seq<Seq<char>>,
    owned: Option<u32>,
    caddyfile: Seq<char>,
)
    ensures
        ({
            let (b, e, alive) = classify(pids, cmds, owned, caddyfile);
            &&& forall|i: int|
                0 <= i < b.len() ==> uses_caddyfile(#[trigger] b[i].1, caddyfile) && owned != Some(
                    b[i].0,
                ) && pids.contains(b[i].0)
            &&& forall|i: int|
                0 <= i < e.len() ==> !uses_caddyfile(#[trigger] e[i].1, caddyfile) && owned != Some(
                    e[i].0,
                ) && pids.contains(e[i].0)
            &&& alive <==> (owned matches Some(o) && pids.contains(o))
        }),
    decreases pids.len(),
{
    if pids.len() > 0 {
        let init = pids.drop_last();
        lemma_classify_sound(init, cmds, owned, caddyfile);
        let (b0, e0, a0) = classify(init, cmds, owned, caddyfile);
        let (b, e, alive) = classify(pids, cmds, owned, caddyfile);
        let last = pids[pids.len() - 1];
        assert(pids.contains(last));
        assert forall|q: u32| init.contains(q) implies pids.contains(q) by {
            let j = choose|j: int| 0 <= j < init.len() && init[j] == q;
            assert(pids[j] == q);
        }
        let info = (last, command_at(cmds, pids.len() - 1));
        if owned == Some(last) {
            assert(b == b0 && e == e0 && alive);
        } else if uses_caddyfile(info.1, caddyfile) {
            assert(b == b0.push(info) && e == e0 && alive == a0);
        } else {
            assert(b == b0 && e == e0.push(info) && alive == a0);
        }
        assert forall|i: int| 0 <= i < b.len() implies uses_caddyfile(#[trigger] b[i].1, caddyfile)
            && owned != Some(b[i].0) && pids.contains(b[i].0) by {
            if i < b0.len() {
                assert(b[i] == b0[i]);
                assert(uses_caddyfile(b0[i].1, caddyfile));
                assert(init.contains(b0[i].0));
            } else {
                assert(b[i] == info);
            }
        }
        assert forall|i: int| 0 <= i < e.len() implies !uses_caddyfile(#[trigger] e[i].1, caddyfile)
            && owned != Some(e[i].0) && pids.contains(e[i].0) by {
            if i < e0.len() {
                assert(e[i] == e0[i]);
                assert(!uses_caddyfile(e0[i].1, caddyfile));
                assert(init.contains(e0[i].0));
            } else {
                assert(e[i] == info);
            }
        }
        if let Some(o) = owned {
            if pids.contains(o) && !init.contains(o) {
                let j = choose|j: int| 0 <= j < pids.len() && pids[j] == o;
                if j < init.len() {
                    assert(init[j] == o);
                }
            }
        }
    }
}

/// A foreign sighting lists only processes of the table other than the
/// app's own: those started with the Caddyfile, which the start command stops
/// without asking, all name it on their command line; the others, left to
/// the user, do not.
pub proof fn lemma_sighting_sound(
    pids: Seq<u32>,
    cmds: Seq<Seq<char>>,
    our_pid: Option<u32>,
    pid_file: Option<u32>,
    caddyfile: Seq<char>,
)
    ensures
        sighting(pids, cmds, our_pid, pid_file, caddyfile) matches SightingModel::Foreign(b, e) ==> {
            &&& forall|i: int|
                0 <= i < b.len() ==> uses_caddyfile(#[trigger] b[i].1, caddyfile) && pids.contains(
                    b[i].0,
                ) && owned_pid(our_pid, pid_file) != Some(b[i].0)
            &&& forall|i: int|
                0 <= i < e.len() ==> !uses_caddyfile(#[trigger] e[i].1, caddyfile) && pids.contains(
                    e[i].0,
                ) && owned_pid(our_pid, pid_file) != Some(e[i].0)
        },
{
    let owned = owned_pid(our_pid, pid_file);
    lemma_classify_sound(pids, cmds, owned, caddyfile);
    let (b0, e0, alive) = classify(pids, cmds, owned, caddyfile);
    if sighting(pids, cmds, our_pid, pid_file, caddyfile) is Foreign {
        assert(sighting(pids, cmds, our_pid, pid_file, caddyfile) == SightingModel::Foreign(b0, e0));
    }
}

fn contains_pid(pids: &Vec<u32>, p: u32) -> (r: bool)
    ensures
        r == pids@.contains(p),
{
    let mut i: usize = 0;
    while i < pids.len()
        invariant
            i <= pids.len(),
            forall|k: int| 0 <= k < i ==> pids@[k] != p,
        decreases pids.len() - i,
    {
        if pids[i] == p {
            assert(pids@[i as int] == p);
            return true;
        }
        i = i + 1;
    }
    false
}

/// Classifies the running caddy processes. `pids` is the process table's
/// caddy PIDs, `commands[i]` the command line of `pids[i]` (missing entries
/// count as empty), `our_pid` the child the app tracks, `pid_file` the PID
/// recorded at the last start, `bellboy_caddyfile` the app's Caddyfile path.
pub fn inspect(
    pids: &Vec<u32>,
    commands: &Vec<String>,
    our_pid: Option<u32>,
    pid_file: Option<u32>,
    bellboy_caddyfile: &str,
) -> (r: CaddySighting)
    ensures
        r@ == sighting(
            pids@,
            commands@.map_values(|c: String| c@),
            our_pid,
            pid_file,
            bellboy_caddyfile@,
        ),
{
    let ghost cmds = commands@.map_values(|c: String| c@);
    match our_pid {
        Some(ours) => {
            if !contains_pid(pids, ours) {
                return CaddySighting::OursDead;
            }
        },
        None => {},
    }
    let owned = match our_pid {
        Some(p) => Some(p),
        None => pid_file,
    };
    let mut bellboy_owned: Vec<ProcessInfo> = Vec::new();
    let mut external: Vec<ProcessInfo> = Vec::new();
    let mut ours_alive = false;
    let mut i: usize = 0;
    while i < pids.len()
        invariant
            i <= pids.len(),
            cmds == commands@.map_values(|c: String| c@),
            owned == owned_pid(our_pid, pid_file),
            ({
                let (b, e, alive) = classify(pids@.take(i as int), cmds, owned, bellboy_caddyfile@);
                &&& bellboy_owned@.map_values(|p: ProcessInfo| info_view(p)) == b
                &&& external@.map_values(|p: ProcessInfo| info_view(p)) == e
                &&& ours_alive == alive
            }),
        decreases pids.len() - i,
    {
        let pid = pids[i];
        let ghost pre = pids@.take(i as int);
        assert(pids@.take(i + 1).drop_last() =~= pre);
        assert(pids@.take(i + 1)[i as int] == pid);
        let same = match owned {
            Some(o) => o == pid,
            None => false,
        };
        if same {
            ours_alive = true;
        } else {
            let command = if i < commands.len() {
                String::from_str(commands[i].as_str())
            } else {
                String::new()
            };
            assert(command@ == command_at(cmds, i as int));
            let info = ProcessInfo { pid, command };
            if cmdline_uses_bellboy_caddyfile(info.command.as_str(), bellboy_caddyfile) {
                let ghost before = bellboy_owned@;
                bellboy_owned.push(info);
                assert(bellboy_owned@.map_values(|p: ProcessInfo| info_view(p)) =~= before.map_values(
                    |p: ProcessInfo| info_view(p),
                ).push((pid, command_at(cmds, i as int))));
            } else {
                let ghost before = external@;
                external.push(info);
                assert(external@.map_values(|p: ProcessInfo| info_view(p)) =~= before.map_values(
                    |p: ProcessInfo| info_view(p),
                ).push((pid, command_at(cmds, i as int))));
            }
        }
        i = i + 1;
    }
    assert(pids@.take(pids.len() as int) =~= pids@);
    if bellboy_owned.len() == 0 && external.len() == 0 {
        return match owned {
            Some(pid) => if ours_alive {
                CaddySighting::OursAlive { pid }
            } else {
                CaddySighting::OursDead
            },
            None => CaddySighting::NotRunning,
        };
    }
    CaddySighting::Foreign { bellboy_owned, external }
}

/// With an empty Caddyfile path no process counts as started with it, so
/// none would be stopped without asking.
pub proof fn lemma_empty_caddyfile_owns_nothing(
    pids: Seq<u32>,
    cmds: Seq<Seq<char>>,
    owned: Option<u32>,
)
    ensures
        classify(pids, cmds, owned, Seq::empty()).0.len() == 0,
    decreases pids.len(),
{
    if pids.len() > 0 {
        lemma_empty_caddyfile_owns_nothing(pids.drop_last(), cmds, owned);
    }
}

/// The text of a PID as a command-line argument.
fn pid_arg(pid: u32) -> (r: String)
    ensures
        r@ == decimal(pid as nat),
{
    let mut v: Vec<char> = Vec::new();
    push_decimal(&mut v, pid as u64);
    assert(v@ =~= decimal(pid as nat));
    string_of(&v)
}

/// The arguments of `/bin/kill` that send SIGTERM to `pids`; `None` when
/// there is nothing to signal.
pub fn kill_args(pids: &Vec<u32>) -> (r: Option<Vec<String>>)
    ensures
        pids.len() == 0 ==> r.is_none(),
        pids.len() > 0 ==> (r matches Some(a) && str_views(a@) == seq!["-TERM"@] + pids@.map_values(
            |p: u32| decimal(p as nat),
        )),
{
    if pids.len() == 0 {
        return None;
    }
    let mut a: Vec<String> = Vec::new();
    a.push(String::from_str("-TERM"));
    let mut i: usize = 0;
    while i < pids.len()
        invariant
            i <= pids.len(),
            str_views(a@) == seq!["-TERM"@] + pids@.take(i as int).map_values(
                |p: u32| decimal(p as nat),
            ),
        decreases pids.len() - i,
    {
        let ghost before = a@;
        a.push(pid_arg(pids[i]));
        assert(str_views(a@) =~= str_views(before).push(decimal(pids@[i as int] as nat)));
        assert(pids@.take(i + 1).map_values(|p: u32| decimal(p as nat)) =~= pids@.take(
            i as int,
        ).map_values(|p: u32| decimal(p as nat)).push(decimal(pids@[i as int] as nat)));
        i = i + 1;
    }
    assert(pids@.take(pids.len() as int) =~= pids@);
    Some(a)
}

/// The arguments of `/bin/ps` that print the command line of `pid`.
pub fn ps_args(pid: u32) -> (r: Vec<String>)
    ensures
        str_views(r@) == seq!["-o"@, "command="@, "-p"@, decimal(pid as nat)],
{
    let mut r: Vec<String> = Vec::new();
    r.push(String::from_str("-o"));
    r.push(String::from_str("command="));
    r.push(String::from_str("-p"));
    r.push(pid_arg(pid));
    assert(str_views(r@) =~= seq!["-o"@, "command="@, "-p"@, decimal(pid as nat)]);
    r
}

/// The PIDs of the orphans that were started with the app's Caddyfile: the
/// processes that may be stopped without asking.
pub fn orphan_pids(s: &CaddySighting) -> (r: Vec<u32>)
    ensures
        match s@ {
            SightingModel::Foreign(b, _) => r@ == b.map_values(|p: (u32, Seq<char>)| p.0),
            _ => r@.len() == 0,
        },
{
    let mut r: Vec<u32> = Vec::new();
    match s {
        CaddySighting::Foreign { bellboy_owned, .. } => {
            let mut i: usize = 0;
            while i < bellboy_owned.len()
                invariant
                    i <= bellboy_owned.len(),
                    r@ == bellboy_owned@.take(i as int).map_values(|p: ProcessInfo| p.pid),
                decreases bellboy_owned.len() - i,
            {
                r.push(bellboy_owned[i].pid);
                i = i + 1;
                assert(r@ =~= bellboy_owned@.take(i as int).map_values(|p: ProcessInfo| p.pid));
            }
            assert(bellboy_owned@.take(bellboy_owned.len() as int) =~= bellboy_owned@);
            assert(r@ =~= bellboy_owned@.map_values(|p: ProcessInfo| info_view(p)).map_values(
                |p: (u32, Seq<char>)| p.0,
            ));
        },
        _ => {},
    }
    r
}

} // verus!

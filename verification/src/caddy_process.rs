//! The `caddy run` child: its command lines, where its binary is found, its
//! PID file, and what its log says about a failed start. Spawning, waiting and
//! signalling the child are left to the caller.

use vstd::prelude::*;
use vstd::string::*;
use crate::text::{
    is_ws, lead_from, lemma_lead_all_ws, lemma_lead_from_bounds, lemma_trail_to_above,
    lemma_trim_empty, chars_of, contains, contains_chars, copy_chars, extend_str, join_lines, join_sep, lines,
    occurs_at, occurs_at_exec, parse_uint, parse_uint_chars, path_join, path_join_exec, pieces,
    split_chars, split_lines, starts_with, starts_with_chars, str_views, string_of, trim,
    trim_chars, views, decimal, push_decimal, all_digits, digits_value, digit_value, digit_char,
    is_digit, lemma_trim_unchanged,
};

verus! {

/// File under the app directory recording the PID of the Caddy child we spawned.
pub const PID_FILENAME: &'static str = "caddy.pid";

/// The log file under the app directory that receives Caddy's output.
pub const LOG_FILENAME: &'static str = "caddy.log";

/// Marks the start of a session in the log.
pub const SESSION_MARKER: &'static str = "--- caddy start";

/// Caddy's canonical failure line holds this.
pub const ERROR_MARKER: &'static str = "Error:";

/// Homebrew prefixes that macOS GUI launches strip from `PATH`.
pub const CADDY_FALLBACK_ARM: &'static str = "/opt/homebrew/bin/caddy";

pub const CADDY_FALLBACK_INTEL: &'static str = "/usr/local/bin/caddy";

pub const CADDY_NAME: &'static str = "caddy";

pub const ADMIN_ADDRESS: &'static str = "localhost:2019";

/// A session header: the marker, the start time in UNIX seconds, and this.
pub const SESSION_HEADER_OPEN: &'static str = "--- caddy start (";

pub const SESSION_HEADER_CLOSE: &'static str = ") ---\n";

/// Lines of the log kept when the last session shows no `Error:` line.
pub const FAILURE_TAIL_LINES: usize = 20;

// ---------------------------------------------------------------------------
// Command lines
// ---------------------------------------------------------------------------

/// `caddy run --config <caddyfile> --adapter caddyfile`.
pub fn run_args(caddyfile: &str) -> (r: Vec<String>)
    ensures
        str_views(r@) == seq!["run"@, "--config"@, caddyfile@, "--adapter"@, "caddyfile"@],
{
    let mut r: Vec<String> = Vec::new();
    r.push(String::from_str("run"));
    r.push(String::from_str("--config"));
    r.push(String::from_str(caddyfile));
    r.push(String::from_str("--adapter"));
    r.push(String::from_str("caddyfile"));
    assert(str_views(r@) =~= seq!["run"@, "--config"@, caddyfile@, "--adapter"@, "caddyfile"@]);
    r
}

/// `caddy reload --config <caddyfile> --adapter caddyfile --address localhost:2019`.
pub fn reload_args(caddyfile: &str) -> (r: Vec<String>)
    ensures
        str_views(r@) == seq![
            "reload"@,
            "--config"@,
            caddyfile@,
            "--adapter"@,
            "caddyfile"@,
            "--address"@,
            ADMIN_ADDRESS@,
        ],
{
    let mut r: Vec<String> = Vec::new();
    r.push(String::from_str("reload"));
    r.push(String::from_str("--config"));
    r.push(String::from_str(caddyfile));
    r.push(String::from_str("--adapter"));
    r.push(String::from_str("caddyfile"));
    r.push(String::from_str("--address"));
    r.push(String::from_str(ADMIN_ADDRESS));
    assert(str_views(r@) =~= seq![
        "reload"@,
        "--config"@,
        caddyfile@,
        "--adapter"@,
        "caddyfile"@,
        "--address"@,
        ADMIN_ADDRESS@,
    ]);
    r
}

/// The admin API's socket address.
pub const ADMIN_SOCKET: &'static str = "127.0.0.1:2019";

/// The request that asks Caddy's admin API to shut Caddy down.
pub const ADMIN_STOP_REQUEST: &'static str =
    "POST /stop HTTP/1.1\r\nHost: localhost\r\nContent-Length: 0\r\nConnection: close\r\n\r\n";

/// Whether the admin API accepted a `POST /stop`: the reply starts with an
/// HTTP/1.1 or HTTP/1.0 `200` status line.
pub fn is_stop_accepted(head: &str) -> (r: bool)
    ensures
        r == (starts_with(head@, "HTTP/1.1 200"@) || starts_with(head@, "HTTP/1.0 200"@)),
{
    let h = chars_of(head);
    let a = chars_of("HTTP/1.1 200");
    let b = chars_of("HTTP/1.0 200");
    starts_with_chars(&h, &a) || starts_with_chars(&h, &b)
}

// ---------------------------------------------------------------------------
// The tracked child
// ---------------------------------------------------------------------------

pub const ALREADY_RUNNING_MESSAGE: &'static str = "Caddy is already running";

pub const RELOAD_FAILED_PREFIX: &'static str = "caddy reload failed: ";

/// What `try_wait` reports of the child the app tracks.
#[derive(Debug, Clone)]
pub enum ChildProbe {
    /// No child has been started, or it was stopped.
    NoChild,
    /// The child with this PID has not exited.
    Running { pid: u32 },
    /// The child has exited.
    Exited,
    /// `try_wait` failed with this error.
    WaitFailed(String),
}

/// Whether a new child may be started: not while one is running; a failed
/// probe is the error.
pub fn may_start(probe: &ChildProbe) -> (r: Result<(), String>)
    ensures
        match probe {
            ChildProbe::Running { .. } => r matches Err(e) && e@ == ALREADY_RUNNING_MESSAGE@,
            ChildProbe::WaitFailed(w) => r matches Err(e) && e@ == w@,
            _ => r is Ok,
        },
{
    match probe {
        ChildProbe::Running { .. } => Err(String::from_str(ALREADY_RUNNING_MESSAGE)),
        ChildProbe::WaitFailed(w) => Err(String::from_str(w.as_str())),
        _ => Ok(()),
    }
}

/// Whether a probe shows the child alive.
pub open spec fn probe_running(probe: ChildProbe) -> bool {
    probe is Running
}

/// The PID a probe shows alive, if any.
pub open spec fn probe_pid(probe: ChildProbe) -> Option<u32> {
    match probe {
        ChildProbe::Running { pid } => Some(pid),
        _ => None,
    }
}

/// Whether the tracked child is alive.
pub fn is_running(probe: &ChildProbe) -> (r: bool)
    ensures
        r == probe_running(*probe),
{
    match probe {
        ChildProbe::Running { .. } => true,
        _ => false,
    }
}

/// The PID of the tracked child while it is alive.
pub fn current_pid(probe: &ChildProbe) -> (r: Option<u32>)
    ensures
        r == probe_pid(*probe),
{
    match probe {
        ChildProbe::Running { pid } => Some(*pid),
        _ => None,
    }
}

/// The tracked child right after a successful start: running with the PID
/// it was spawned with.
pub open spec fn started_probe(pid: u32) -> ChildProbe {
    ChildProbe::Running { pid }
}

/// What a successful start records for the child spawned with `pid`: its
/// probe, and the text written to the PID file.
pub fn record_start(pid: u32) -> (r: (ChildProbe, String))
    ensures
        r.0 == started_probe(pid),
        r.1@ == decimal(pid as nat),
{
    let mut v: Vec<char> = Vec::new();
    push_decimal(&mut v, pid as u64);
    assert(v@ =~= decimal(pid as nat));
    (ChildProbe::Running { pid }, string_of(&v))
}

proof fn lemma_decimal_reads_back(n: nat)
    ensures
        decimal(n).len() > 0,
        all_digits(decimal(n)),
        digits_value(decimal(n)) == n,
    decreases n,
{
    let d = digit_char((n % 10) as int);
    assert(is_digit(d) && digit_value(d) == n % 10);
    if n >= 10 {
        lemma_decimal_reads_back(n / 10);
        let s = decimal(n);
        let p = decimal(n / 10);
        assert(s == p.push(d));
        assert(s.drop_last() =~= p);
        assert forall|i: int| 0 <= i < s.len() implies is_digit(#[trigger] s[i]) by {
            if i < p.len() {
                assert(s[i] == p[i]);
            }
        }
        assert(s.last() == d);
        assert(digits_value(s) == digits_value(p) * 10 + digit_value(d));
        assert(n == (n / 10) * 10 + n % 10);
    } else {
        assert(n % 10 == n);
        let s = decimal(n);
        assert(s == seq![d]);
        assert(s.drop_last() =~= Seq::<char>::empty());
        assert(digits_value(Seq::<char>::empty()) == 0);
        assert(s.last() == d);
        assert(digits_value(s) == digits_value(s.drop_last()) * 10 + digit_value(d));
    }
}

/// After a successful start the tracked child is running, its PID is the
/// one it was spawned with, and the PID file, read back, gives that PID.
pub proof fn lemma_state_after_start(pid: u32)
    ensures
        probe_running(started_probe(pid)),
        probe_pid(started_probe(pid)) == Some(pid),
        parse_uint(trim(decimal(pid as nat)), u32::MAX as nat) == Some(pid as nat),
{
    let s = decimal(pid as nat);
    lemma_decimal_reads_back(pid as nat);
    assert(is_digit(s[0]) && is_digit(s.last()));
    assert(s[s.len() - 1] == s.last());
    lemma_trim_unchanged(s);
    assert(s[0] != '+');
}

/// The message when `caddy` cannot be spawned from `binary`.
pub fn spawn_failure_message(binary: &str, error: &str) -> (r: String)
    ensures
        r@ == "failed to spawn caddy at "@ + binary@ + ": "@ + error@
            + " — is Caddy installed and in PATH?"@,
{
    let mut out: Vec<char> = Vec::new();
    extend_str(&mut out, "failed to spawn caddy at ");
    extend_str(&mut out, binary);
    extend_str(&mut out, ": ");
    extend_str(&mut out, error);
    extend_str(&mut out, " — is Caddy installed and in PATH?");
    string_of(&out)
}

/// The result of `caddy reload`, from its exit success and error output.
pub fn reload_outcome(succeeded: bool, stderr: &str) -> (r: Result<(), String>)
    ensures
        succeeded ==> r is Ok,
        !succeeded ==> (r matches Err(e) && e@ == RELOAD_FAILED_PREFIX@ + stderr@),
{
    if succeeded {
        Ok(())
    } else {
        let mut out: Vec<char> = Vec::new();
        extend_str(&mut out, RELOAD_FAILED_PREFIX);
        extend_str(&mut out, stderr);
        Err(string_of(&out))
    }
}

// ---------------------------------------------------------------------------
// Finding the binary
// ---------------------------------------------------------------------------

/// The paths tried for `name`: each `PATH` entry joined with `name` (when
/// `PATH` is set), then the absolute fallbacks.
pub open spec fn candidate_paths(path_var: Option<Seq<char>>, name: Seq<char>, fallbacks: Seq<
    Seq<char>,
>) -> Seq<Seq<char>> {
    let from_path = match path_var {
        Some(p) => pieces(p, ':').map_values(|dir: Seq<char>| path_join(dir, name)),
        None => Seq::empty(),
    };
    from_path + fallbacks
}

/// The paths where a binary named `name` is looked for, in order.
pub fn binary_candidates(path_var: Option<&str>, name: &str, fallbacks: &Vec<&str>) -> (r: Vec<
    String,
>)
    ensures
        str_views(r@) == candidate_paths(
            match path_var {
                Some(p) => Some(p@),
                None => None,
            },
            name@,
            fallbacks@.map_values(|f: &str| f@),
        ),
{
    let mut r: Vec<String> = Vec::new();
    let ghost from_path = match path_var {
        Some(p) => pieces(p@, ':').map_values(|dir: Seq<char>| path_join(dir, name@)),
        None => Seq::<Seq<char>>::empty(),
    };
    match path_var {
        Some(p) => {
            let v = chars_of(p);
            let dirs = split_chars(&v, ':');
            let mut i: usize = 0;
            while i < dirs.len()
                invariant
                    i <= dirs.len(),
                    views(dirs@) == pieces(p@, ':'),
                    from_path == pieces(p@, ':').map_values(|dir: Seq<char>| path_join(dir, name@)),
                    str_views(r@) == from_path.take(i as int),
                decreases dirs.len() - i,
            {
                let dir = string_of(&dirs[i]);
                let joined = path_join_exec(dir.as_str(), name);
                let ghost before = r@;
                r.push(joined);
                assert(str_views(r@) =~= from_path.take(i + 1)) by {
                    assert(str_views(r@) =~= str_views(before).push(joined@));
                }
                i = i + 1;
            }
            assert(from_path.take(dirs.len() as int) =~= from_path);
        },
        None => {
            assert(str_views(r@) =~= from_path);
        },
    }
    let mut j: usize = 0;
    while j < fallbacks.len()
        invariant
            j <= fallbacks.len(),
            str_views(r@) == from_path + fallbacks@.map_values(|f: &str| f@).take(j as int),
        decreases fallbacks.len() - j,
    {
        let ghost before = r@;
        r.push(String::from_str(fallbacks[j]));
        assert(str_views(r@) =~= from_path + fallbacks@.map_values(|f: &str| f@).take(j + 1)) by {
            assert(str_views(r@) =~= str_views(before).push(fallbacks@[j as int]@));
        }
        j = j + 1;
    }
    assert(fallbacks@.map_values(|f: &str| f@).take(fallbacks.len() as int) =~= fallbacks@.map_values(
        |f: &str| f@,
    ));
    r
}

/// The first candidate whose flag says it is an existing file.
pub open spec fn first_present(cands: Seq<Seq<char>>, present: Seq<bool>) -> Option<Seq<char>>
    decreases cands.len(),
{
    if cands.len() == 0 || present.len() == 0 {
        None
    } else if present[0] {
        Some(cands[0])
    } else {
        first_present(cands.drop_first(), present.drop_first())
    }
}

/// The binary found is the candidate at the smallest index whose flag says
/// it exists, and no earlier candidate is marked present; nothing is found
/// only when no candidate (that has a flag) is marked present.
pub proof fn lemma_first_present_is_earliest(cands: Seq<Seq<char>>, present: Seq<bool>)
    ensures
        match first_present(cands, present) {
            Some(p) => exists|i: int|
                0 <= i < cands.len() && i < present.len() && present[i] && cands[i] == p && (
                forall|k: int| 0 <= k < i ==> !#[trigger] present[k]),
            None => forall|i: int| 0 <= i < cands.len() && i < present.len() ==> !#[trigger] present[i],
        },
    decreases cands.len(),
{
    if cands.len() > 0 && present.len() > 0 && !present[0] {
        let c1 = cands.drop_first();
        let p1 = present.drop_first();
        lemma_first_present_is_earliest(c1, p1);
        match first_present(c1, p1) {
            Some(p) => {
                let i = choose|i: int|
                    0 <= i < c1.len() && i < p1.len() && p1[i] && c1[i] == p && (forall|k: int|
                        0 <= k < i ==> !#[trigger] p1[k]);
                assert(present[i + 1] && cands[i + 1] == p);
                assert forall|k: int| 0 <= k < i + 1 implies !#[trigger] present[k] by {
                    if k > 0 {
                        assert(present[k] == p1[k - 1]);
                    }
                }
            },
            None => {
                assert forall|i: int| 0 <= i < cands.len() && i < present.len() implies !#[trigger] present[i] by {
                    if i > 0 {
                        assert(present[i] == p1[i - 1]);
                    }
                }
            },
        }
    } else if cands.len() > 0 && present.len() > 0 {
        assert(present[0] && cands[0] == cands[0]);
    }
}

/// The first candidate that exists on disk (`present[i]` tells whether
/// `candidates[i]` is a file); `None` when none does.
pub fn resolve_binary(candidates: &Vec<String>, present: &Vec<bool>) -> (r: Option<String>)
    ensures
        match first_present(str_views(candidates@), present@) {
            Some(p) => r matches Some(s) && s@ == p,
            None => r.is_none(),
        },
{
    let mut i: usize = 0;
    assert(str_views(candidates@).skip(0) =~= str_views(candidates@));
    assert(present@.skip(0) =~= present@);
    while i < candidates.len() && i < present.len()
        invariant
            i <= candidates.len(),
            i <= present.len(),
            first_present(str_views(candidates@), present@) == first_present(
                str_views(candidates@).skip(i as int),
                present@.skip(i as int),
            ),
        decreases candidates.len() - i,
    {
        let ghost c = str_views(candidates@).skip(i as int);
        let ghost p = present@.skip(i as int);
        assert(c[0] == candidates@[i as int]@);
        assert(p[0] == present@[i as int]);
        if present[i] {
            return Some(String::from_str(candidates[i].as_str()));
        }
        assert(c.drop_first() =~= str_views(candidates@).skip(i + 1));
        assert(p.drop_first() =~= present@.skip(i + 1));
        i = i + 1;
    }
    assert(str_views(candidates@).skip(i as int).len() == 0 || present@.skip(i as int).len() == 0);
    None
}

/// Where `caddy` is looked for: `PATH`, then the Homebrew prefixes.
pub fn caddy_candidates(path_var: Option<&str>) -> (r: Vec<String>)
    ensures
        str_views(r@) == candidate_paths(
            match path_var {
                Some(p) => Some(p@),
                None => None,
            },
            CADDY_NAME@,
            seq![CADDY_FALLBACK_ARM@, CADDY_FALLBACK_INTEL@],
        ),
{
    let mut fb: Vec<&str> = Vec::new();
    fb.push(CADDY_FALLBACK_ARM);
    fb.push(CADDY_FALLBACK_INTEL);
    assert(fb@.map_values(|f: &str| f@) =~= seq![CADDY_FALLBACK_ARM@, CADDY_FALLBACK_INTEL@]);
    binary_candidates(path_var, CADDY_NAME, &fb)
}

/// Locates the `caddy` binary only if it exists on disk: `present[i]` tells
/// whether the `i`-th of `caddy_candidates(path_var)` is a file.
pub fn resolve_caddy(path_var: Option<&str>, present: &Vec<bool>) -> (r: Option<String>)
    ensures
        match first_present(
            candidate_paths(
                match path_var {
                    Some(p) => Some(p@),
                    None => None,
                },
                CADDY_NAME@,
                seq![CADDY_FALLBACK_ARM@, CADDY_FALLBACK_INTEL@],
            ),
            present@,
        ) {
            Some(p) => r matches Some(s) && s@ == p,
            None => r.is_none(),
        },
{
    let c = caddy_candidates(path_var);
    resolve_binary(&c, present)
}

/// The binary to spawn: the resolved path, or plain `caddy` for a `PATH` lookup.
pub fn caddy_binary(resolved: Option<String>) -> (r: String)
    ensures
        r@ == match resolved {
            Some(p) => p@,
            None => CADDY_NAME@,
        },
{
    match resolved {
        Some(p) => p,
        None => String::from_str(CADDY_NAME),
    }
}

// ---------------------------------------------------------------------------
// PID file
// ---------------------------------------------------------------------------

/// The PID file inside the app directory; `None` when the app directory is
/// unknown.
pub fn pid_file_path(app_dir: Option<&str>) -> (r: Option<String>)
    ensures
        match app_dir {
            Some(d) => r matches Some(p) && p@ == path_join(d@, PID_FILENAME@),
            None => r.is_none(),
        },
{
    match app_dir {
        Some(d) => Some(path_join_exec(d, PID_FILENAME)),
        None => None,
    }
}

/// The log that receives Caddy's output, inside the app directory.
pub fn log_file_path(app_dir: &str) -> (r: String)
    ensures
        r@ == path_join(app_dir@, LOG_FILENAME@),
{
    path_join_exec(app_dir, LOG_FILENAME)
}

/// The PID recorded in the PID file's text: the trimmed text read as a `u32`.
pub fn parse_pid(text: &str) -> (r: Option<u32>)
    ensures
        match parse_uint(trim(text@), u32::MAX as nat) {
            Some(n) => r == Some(n as u32),
            None => r.is_none(),
        },
{
    let v = chars_of(text);
    let t = trim_chars(&v);
    match parse_uint_chars(&t, u32::MAX as u64) {
        Some(n) => Some(n as u32),
        None => None,
    }
}

// ---------------------------------------------------------------------------
// The log
// ---------------------------------------------------------------------------

/// The line that opens a session in the log, `secs` being the start time in
/// UNIX seconds.
pub open spec fn session_header_text(secs: nat) -> Seq<char> {
    SESSION_HEADER_OPEN@ + decimal(secs) + SESSION_HEADER_CLOSE@
}

/// `--- caddy start (<secs>) ---` and a line break: written to the log each
/// time Caddy is started.
pub fn session_header(secs: u64) -> (r: String)
    ensures
        r@ == session_header_text(secs as nat),
{
    let mut out: Vec<char> = Vec::new();
    extend_str(&mut out, SESSION_HEADER_OPEN);
    push_decimal(&mut out, secs);
    extend_str(&mut out, SESSION_HEADER_CLOSE);
    string_of(&out)
}

/// A line of Caddy's output as the log keeps it: `[<label>] <line>` and a
/// line break, `label` naming the stream.
pub fn log_line(label: &str, line: &str) -> (r: String)
    ensures
        r@ == "["@ + label@ + "] "@ + line@ + "\n"@,
{
    let mut out: Vec<char> = Vec::new();
    extend_str(&mut out, "[");
    extend_str(&mut out, label);
    extend_str(&mut out, "] ");
    extend_str(&mut out, line);
    extend_str(&mut out, "\n");
    string_of(&out)
}

// ---------------------------------------------------------------------------
// Failure summary
// ---------------------------------------------------------------------------

/// The last position at or before `i` where `pat` occurs in `s`.
pub open spec fn rfind_at(s: Seq<char>, pat: Seq<char>, i: int) -> Option<int>
    decreases i + 1,
{
    if i < 0 {
        None
    } else if occurs_at(s, pat, i) {
        Some(i)
    } else {
        rfind_at(s, pat, i - 1)
    }
}

/// `str::rfind`: the start of the last occurrence of `pat`.
pub open spec fn rfind(s: Seq<char>, pat: Seq<char>) -> Option<int> {
    rfind_at(s, pat, s.len() - pat.len())
}

/// The log from the start of its most recent session (all of it when no
/// session marker is present).
pub open spec fn last_session(content: Seq<char>) -> Seq<char> {
    match rfind(content, SESSION_MARKER@) {
        Some(i) => content.skip(i),
        None => content,
    }
}

/// The last line that holds `Error:`.
pub open spec fn last_error_line(ls: Seq<Seq<char>>) -> Option<Seq<char>>
    decreases ls.len(),
{
    if ls.len() == 0 {
        None
    } else if contains(ls.last(), ERROR_MARKER@) {
        Some(ls.last())
    } else {
        last_error_line(ls.drop_last())
    }
}

/// The summary of a failed start: the trimmed last `Error:` line of the most
/// recent session, or else that session's last `n` lines joined by `'\n'`
/// unless they are blank.
pub open spec fn failure_summary(content: Seq<char>, n: nat) -> Option<Seq<char>> {
    let ls = lines(last_session(content));
    match last_error_line(ls) {
        Some(l) => Some(trim(l)),
        None => {
            let start = if ls.len() > n {
                ls.len() - n
            } else {
                0
            };
            let tail = join_sep(ls.skip(start));
            if trim(tail).len() == 0 {
                None
            } else {
                Some(tail)
            }
        },
    }
}

proof fn lemma_last_error_line(ls: Seq<Seq<char>>)
    ensures
        last_error_line(ls) matches Some(l) ==> contains(l, ERROR_MARKER@),
    decreases ls.len(),
{
    if ls.len() > 0 && !contains(ls.last(), ERROR_MARKER@) {
        lemma_last_error_line(ls.drop_last());
    }
}

proof fn lemma_last_error_line_is_last(ls: Seq<Seq<char>>)
    ensures
        match last_error_line(ls) {
            Some(l) => exists|j: int|
                0 <= j < ls.len() && ls[j] == l && contains(ls[j], "Error:"@) && (forall|k: int|
                    j < k < ls.len() ==> !contains(#[trigger] ls[k], "Error:"@)),
            None => forall|j: int| 0 <= j < ls.len() ==> !contains(#[trigger] ls[j], "Error:"@),
        },
    decreases ls.len(),
{
    if ls.len() > 0 {
        let init = ls.drop_last();
        lemma_last_error_line_is_last(init);
        let j = ls.len() - 1;
        if contains(ls.last(), ERROR_MARKER@) {
            assert(ls[j] == ls.last());
        } else {
            assert(!contains(ls[j], "Error:"@));
            match last_error_line(init) {
                Some(l) => {
                    let i = choose|i: int|
                        0 <= i < init.len() && init[i] == l && contains(init[i], "Error:"@) && (
                        forall|k: int| i < k < init.len() ==> !contains(#[trigger] init[k], "Error:"@));
                    assert(ls[i] == init[i]);
                    assert forall|k: int| i < k < ls.len() implies !contains(#[trigger] ls[k], "Error:"@) by {
                        if k < init.len() {
                            assert(ls[k] == init[k]);
                        }
                    }
                },
                None => {
                    assert forall|k: int| 0 <= k < ls.len() implies !contains(#[trigger] ls[k], "Error:"@) by {
                        if k < init.len() {
                            assert(ls[k] == init[k]);
                        }
                    }
                },
            }
        }
    }
}

/// When a line of the most recent session holds `Error:`, the summary is
/// such a line, trimmed, and no later line of that session holds `Error:`.
pub proof fn lemma_summary_is_last_error_line(content: Seq<char>, n: nat)
    ensures
        ({
            let ls = lines(last_session(content));
            (exists|j: int| 0 <= j < ls.len() && contains(#[trigger] ls[j], "Error:"@)) ==> exists|
                j: int,
            |
                0 <= j < ls.len() && contains(ls[j], "Error:"@) && (forall|k: int|
                    j < k < ls.len() ==> !contains(#[trigger] ls[k], "Error:"@)) && failure_summary(
                    content,
                    n,
                ) == Some(trim(ls[j]))
        }),
{
    let ls = lines(last_session(content));
    lemma_last_error_line_is_last(ls);
    if exists|j: int| 0 <= j < ls.len() && contains(#[trigger] ls[j], "Error:"@) {
        let j0 = choose|j: int| 0 <= j < ls.len() && contains(#[trigger] ls[j], "Error:"@);
        assert(contains(ls[j0], "Error:"@));
        match last_error_line(ls) {
            Some(l) => {
                let j = choose|j: int|
                    0 <= j < ls.len() && ls[j] == l && contains(ls[j], "Error:"@) && (forall|k: int|
                        j < k < ls.len() ==> !contains(#[trigger] ls[k], "Error:"@));
                assert(failure_summary(content, n) == Some(trim(ls[j])));
            },
            None => {},
        }
    }
}

/// A summary is never blank: it always holds a character that is not
/// whitespace.
pub proof fn lemma_failure_summary_not_blank(content: Seq<char>, n: nat)
    ensures
        match failure_summary(content, n) {
            Some(s) => exists|i: int| 0 <= i < s.len() && !is_ws(#[trigger] s[i]),
            None => true,
        },
{
    let ls = lines(last_session(content));
    lemma_last_error_line(ls);
    match last_error_line(ls) {
        Some(l) => {
            reveal_strlit("Error:");
            let p = choose|p: int| occurs_at(l, ERROR_MARKER@, p);
            assert(l.subrange(p, p + 6)[0] == l[p]);
            assert(!is_ws(l[p]));
            lemma_lead_from_bounds(l, 0);
            let a = lead_from(l, 0);
            if a >= l.len() {
                lemma_lead_all_ws(l, 0);
                assert(is_ws(l[p]));
            }
            lemma_trail_to_above(l, l.len() as int, a);
            assert(trim(l).len() > 0);
            assert(trim(l)[0] == l[a]);
            assert(!is_ws(trim(l)[0]));
            assert(failure_summary(content, n) == Some(trim(l)));
            assert(!is_ws(failure_summary(content, n)->0[0]));
        },
        None => {
            let start = if ls.len() > n {
                ls.len() - n
            } else {
                0
            };
            let tail = join_sep(ls.skip(start));
            lemma_trim_empty(tail);
            if trim(tail).len() > 0 {
                let i = choose|i: int| 0 <= i < tail.len() && !is_ws(tail[i]);
                assert(!is_ws(tail[i]));
                assert(failure_summary(content, n) == Some(tail));
                assert(!is_ws(failure_summary(content, n)->0[i]));
            } else {
                assert(failure_summary(content, n).is_none());
            }
        },
    }
}

proof fn lemma_rfind_at_found(s: Seq<char>, pat: Seq<char>, k: int, i: int)
    requires
        0 <= k <= i,
        occurs_at(s, pat, k),
    ensures
        rfind_at(s, pat, i) matches Some(j) && k <= j <= i && occurs_at(s, pat, j),
    decreases i - k,
{
    if i > k && !occurs_at(s, pat, i) {
        lemma_rfind_at_found(s, pat, k, i - 1);
    }
}

proof fn lemma_rfind_at_shift(before: Seq<char>, t: Seq<char>, pat: Seq<char>, i: int)
    requires
        occurs_at(t, pat, 0),
        before.len() <= i,
    ensures
        rfind_at(before + t, pat, i) == match rfind_at(t, pat, i - before.len()) {
            Some(k) => Some(k + before.len()),
            None => None::<int>,
        },
    decreases i,
{
    let s = before + t;
    let b = before.len() as int;
    if occurs_at(s, pat, i) != occurs_at(t, pat, i - b) {
        if occurs_at(s, pat, i) {
            assert(t.subrange(i - b, i - b + pat.len()) =~= s.subrange(i, i + pat.len()));
        } else {
            assert(s.subrange(i, i + pat.len()) =~= t.subrange(i - b, i - b + pat.len()));
        }
    }
    if i > b {
        lemma_rfind_at_shift(before, t, pat, i - 1);
    }
}

/// A log made of `before`, a session header and `after`: its most recent
/// session is that of the header and what follows it.
proof fn lemma_last_session_from_header(before: Seq<char>, secs: nat, after: Seq<char>)
    ensures
        last_session(before + session_header_text(secs) + after) == last_session(
            session_header_text(secs) + after,
        ),
{
    reveal_strlit("--- caddy start");
    reveal_strlit("--- caddy start (");
    let m = SESSION_MARKER@;
    let t = session_header_text(secs) + after;
    let s = before + t;
    let b = before.len() as int;
    assert(m.len() == 15);
    assert(t.subrange(0, 15) =~= m) by {
        assert forall|i: int| 0 <= i < 15 implies #[trigger] t.subrange(0, 15)[i] == m[i] by {
            assert(t[i] == SESSION_HEADER_OPEN@[i]);
        }
    }
    assert(occurs_at(t, m, 0));
    assert(before + session_header_text(secs) + after =~= s);
    lemma_rfind_at_shift(before, t, m, s.len() - 15);
    lemma_rfind_at_shift(Seq::empty(), t, m, t.len() - 15);
    assert(Seq::<char>::empty() + t =~= t);
    assert(t.len() >= 17);
    lemma_rfind_at_found(t, m, 0, t.len() - 15);
    let k = rfind(t, m)->0;
    assert(k + 15 <= t.len());
    assert(rfind(s, m) == Some(k + b));
    assert(s.skip(k + b) =~= t.skip(k));
}

/// Only the most recent session counts: whatever the log held before a
/// session header, the summary is that of the header and what follows it.
pub proof fn lemma_summary_ignores_earlier_sessions(
    before: Seq<char>,
    secs: nat,
    after: Seq<char>,
    n: nat,
)
    ensures
        failure_summary(before + session_header_text(secs) + after, n) == failure_summary(
            session_header_text(secs) + after,
            n,
        ),
{
    lemma_last_session_from_header(before, secs, after);
}

fn rfind_chars(hay: &Vec<char>, pat: &Vec<char>) -> (r: Option<usize>)
    ensures
        match rfind(hay@, pat@) {
            Some(i) => r == Some(i as usize),
            None => r.is_none(),
        },
        r matches Some(i) ==> i <= hay.len() && rfind(hay@, pat@) == Some(i as int),
{
    if pat.len() > hay.len() {
        return None;
    }
    let last = hay.len() - pat.len();
    let mut i: usize = last;
    loop
        invariant
            i <= last,
            last == hay.len() - pat.len(),
            rfind(hay@, pat@) == rfind_at(hay@, pat@, i as int),
        decreases i,
    {
        if occurs_at_exec(hay, pat, i) {
            return Some(i);
        }
        if i == 0 {
            assert(rfind_at(hay@, pat@, -1) == None::<int>);
            return None;
        }
        i = i - 1;
    }
}

/// Best-effort summary of why Caddy exited, from the text of `caddy.log`:
/// the `Error:` line of the most recent session, else the tail of that
/// session's output (`fallback_lines` lines); `None` when that is blank.
pub fn extract_failure_summary(content: &str, fallback_lines: usize) -> (r: Option<String>)
    ensures
        match failure_summary(content@, fallback_lines as nat) {
            Some(s) => r matches Some(t) && t@ == s,
            None => r.is_none(),
        },
{
    let all = chars_of(content);
    let marker = chars_of(SESSION_MARKER);
    let hay = match rfind_chars(&all, &marker) {
        Some(i) => {
            let mut h: Vec<char> = Vec::new();
            let mut k: usize = i;
            while k < all.len()
                invariant
                    i <= k <= all.len(),
                    h@ == all@.subrange(i as int, k as int),
                decreases all.len() - k,
            {
                h.push(all[k]);
                k = k + 1;
                assert(h@ =~= all@.subrange(i as int, k as int));
            }
            assert(all@.subrange(i as int, all.len() as int) =~= all@.skip(i as int));
            h
        },
        None => all,
    };
    assert(hay@ == last_session(content@));
    let ls = split_lines(&hay);
    let err = chars_of(ERROR_MARKER);
    let mut j: usize = ls.len();
    assert(views(ls@).take(ls.len() as int) =~= views(ls@));
    while j > 0
        invariant
            j <= ls.len(),
            err@ == ERROR_MARKER@,
            views(ls@) == lines(last_session(content@)),
            last_error_line(views(ls@)) == last_error_line(views(ls@).take(j as int)),
        decreases j,
    {
        let ghost pre = views(ls@).take(j as int);
        assert(pre.last() == ls@[j - 1]@);
        if contains_chars(&ls[j - 1], &err) {
            let t = trim_chars(&ls[j - 1]);
            return Some(string_of(&t));
        }
        assert(pre.drop_last() =~= views(ls@).take(j - 1));
        j = j - 1;
    }
    let start = if ls.len() > fallback_lines {
        ls.len() - fallback_lines
    } else {
        0
    };
    let mut tail_lines: Vec<Vec<char>> = Vec::new();
    let mut k: usize = start;
    while k < ls.len()
        invariant
            start <= k <= ls.len(),
            views(tail_lines@) == views(ls@).subrange(start as int, k as int),
        decreases ls.len() - k,
    {
        let ghost before = tail_lines@;
        tail_lines.push(copy_chars(&ls[k]));
        assert(views(tail_lines@) =~= views(ls@).subrange(start as int, k + 1)) by {
            assert(views(tail_lines@) =~= views(before).push(ls@[k as int]@));
        }
        k = k + 1;
    }
    assert(views(ls@).subrange(start as int, ls.len() as int) =~= views(ls@).skip(start as int));
    let tail = join_lines(&tail_lines);
    let tt = trim_chars(&tail);
    if tt.len() == 0 {
        None
    } else {
        Some(string_of(&tail))
    }
}

} // verus!

//! Cached administrator rights.
//!
//! A privileged task first tries `sudo -n /usr/local/bin/perch-helper <op>`.
//! When that is not installed yet, one `osascript` prompt does the task and
//! installs the helper script, a sudoers rule and Touch ID for sudo; later
//! runs need no prompt. The helper lives at a path without spaces because
//! visudo refuses spaces in sudoers rules. This module builds the scripts,
//! the sudoers rule and the shell commands; the caller writes the files and
//! runs the commands.

use vstd::prelude::*;
use vstd::string::*;
use crate::text::{
    chars_of, contains, contains_chars, extend_chars, extend_str, has_char, is_ascii_alnum,
    is_ascii_alnum_exec, push_decimal, decimal, str_views, string_of,
};
use crate::system_trust::{is_user_cancelled, user_cancelled};

verus! {

pub const HOSTS_STAGING_PATH: &'static str = "/tmp/perch-hosts-staging";

pub const HELPER_PATH: &'static str = "/usr/local/bin/perch-helper";

pub const SUDOERS_PATH: &'static str = "/etc/sudoers.d/perch";

pub const PAM_SUDO_LOCAL_PATH: &'static str = "/etc/pam.d/sudo_local";

/// `/etc/pam.d/sudo_local` content that enables Touch ID for sudo.
pub const PAM_CONTENT: &'static str = "# Managed by Perch\nauth       sufficient     pam_tid.so\n";

pub const PAM_TID_MODULE: &'static str = "pam_tid.so";

pub const CANCELLED_MESSAGE: &'static str = "사용자가 관리자 권한 요청을 취소했습니다";

pub const UNSAFE_USER_MESSAGE: &'static str = "USER에 허용되지 않는 문자: ";

pub const USER_NOT_SET: &'static str = "USER not set";

pub const HOME_NOT_SET: &'static str = "HOME not set";

pub const UNSAFE_CADDY_DIR_MESSAGE: &'static str = "Caddy 경로에 허용되지 않는 문자가 있습니다";

pub const HELPER_SCRIPT_HEAD: &'static str =
    "#!/bin/bash\nset -euo pipefail\ncase \"${1:-}\" in\nsync-hosts)\nexec /bin/cp '";

pub const HELPER_SCRIPT_AFTER_STAGING: &'static str =
    "' /etc/hosts\n;;\nrepair-caddy)\nexec /usr/sbin/chown -R '";

pub const HELPER_SCRIPT_AFTER_USER: &'static str = ":staff' '";

pub const HELPER_SCRIPT_TAIL: &'static str =
    "'\n;;\n*)\necho \"perch-helper: unknown command: ${1:-}\" >&2\nexit 1\n;;\nesac\n";

pub const SUDOERS_HEADER: &'static str = "# Managed by Perch — do not edit manually\n";

pub const SUDOERS_RULE: &'static str = " ALL=(root) NOPASSWD: ";

/// A privileged task the helper script can run.
#[derive(Debug, Clone, Copy, PartialEq, Eq)]
pub enum Operation {
    SyncHosts,
    RepairCaddy,
}

pub open spec fn operation_text(op: Operation) -> Seq<char> {
    match op {
        Operation::SyncHosts => "sync-hosts"@,
        Operation::RepairCaddy => "repair-caddy"@,
    }
}

impl Operation {
    /// `sync-hosts` or `repair-caddy`: the word the helper script matches on.
    pub fn as_str(self) -> (r: &'static str)
        ensures
            r@ == operation_text(self),
    {
        match self {
            Operation::SyncHosts => "sync-hosts",
            Operation::RepairCaddy => "repair-caddy",
        }
    }
}

pub const HELPER_FAILED_PREFIX: &'static str = "sudo helper failed: ";

/// The arguments of `/usr/bin/sudo` that run the installed helper for `op`
/// without a prompt: `-n`, the helper's path, the task.
pub fn helper_args(op: Operation) -> (r: Vec<String>)
    ensures
        str_views(r@) == seq!["-n"@, HELPER_PATH@, operation_text(op)],
{
    let mut r: Vec<String> = Vec::new();
    r.push(String::from_str("-n"));
    r.push(String::from_str(HELPER_PATH));
    r.push(String::from_str(op.as_str()));
    assert(str_views(r@) =~= seq!["-n"@, HELPER_PATH@, operation_text(op)]);
    r
}

/// The result of running the helper, from `sudo`'s exit success and error
/// output.
pub fn helper_outcome(succeeded: bool, stderr: &str) -> (r: Result<(), String>)
    ensures
        succeeded ==> r is Ok,
        !succeeded ==> (r matches Err(e) && e@ == HELPER_FAILED_PREFIX@ + stderr@),
{
    if succeeded {
        Ok(())
    } else {
        let mut m: Vec<char> = Vec::new();
        extend_str(&mut m, HELPER_FAILED_PREFIX);
        extend_str(&mut m, stderr);
        Err(string_of(&m))
    }
}

/// Whether both pieces of the helper are installed: the script and the
/// sudoers rule.
pub fn is_installed(helper_exists: bool, sudoers_exists: bool) -> (r: bool)
    ensures
        r == (helper_exists && sudoers_exists),
{
    helper_exists && sudoers_exists
}

/// A name made only of ASCII letters, digits, `'_'`, `'-'` and `'.'`, and
/// not empty: safe to put in a shell script and a sudoers rule.
pub open spec fn safe_name(s: Seq<char>) -> bool {
    &&& s.len() > 0
    &&& forall|i: int|
        0 <= i < s.len() ==> is_ascii_alnum(#[trigger] s[i]) || s[i] == '_' || s[i] == '-' || s[i]
            == '.'
}

/// Whether `s` is a safe user name (see `safe_name`).
pub fn is_safe_name(s: &str) -> (r: bool)
    ensures
        r == safe_name(s@),
{
    let v = chars_of(s);
    if v.len() == 0 {
        return false;
    }
    let mut i: usize = 0;
    while i < v.len()
        invariant
            i <= v.len(),
            v@ == s@,
            forall|k: int|
                0 <= k < i ==> is_ascii_alnum(#[trigger] v@[k]) || v@[k] == '_' || v@[k] == '-'
                    || v@[k] == '.',
        decreases v.len() - i,
    {
        let c = v[i];
        if !(is_ascii_alnum_exec(c) || c == '_' || c == '-' || c == '.') {
            assert(!(is_ascii_alnum(v@[i as int]) || v@[i as int] == '_' || v@[i as int] == '-'
                || v@[i as int] == '.'));
            return false;
        }
        i = i + 1;
    }
    true
}

/// The user and home directory the helper is set up for, from `USER` and
/// `HOME` (`None` when unset): the user must be a safe name.
pub fn user_and_home(user: Option<&str>, home: Option<&str>) -> (r: Result<(String, String), String>)
    ensures
        match user {
            None => r matches Err(e) && e@ == USER_NOT_SET@,
            Some(u) => if !safe_name(u@) {
                r matches Err(e) && e@ == UNSAFE_USER_MESSAGE@ + u@
            } else {
                match home {
                    None => r matches Err(e) && e@ == HOME_NOT_SET@,
                    Some(h) => r matches Ok(p) && p.0@ == u@ && p.1@ == h@,
                }
            },
        },
{
    match user {
        None => Err(String::from_str(USER_NOT_SET)),
        Some(u) => {
            if !is_safe_name(u) {
                let mut m: Vec<char> = Vec::new();
                extend_str(&mut m, UNSAFE_USER_MESSAGE);
                extend_str(&mut m, u);
                return Err(string_of(&m));
            }
            match home {
                None => Err(String::from_str(HOME_NOT_SET)),
                Some(h) => Ok((String::from_str(u), String::from_str(h))),
            }
        },
    }
}

/// The helper script with the user and the Caddy data directory written in.
pub open spec fn helper_script_text(user: Seq<char>, caddy_dir: Seq<char>) -> Seq<char> {
    HELPER_SCRIPT_HEAD@ + HOSTS_STAGING_PATH@ + HELPER_SCRIPT_AFTER_STAGING@ + user
        + HELPER_SCRIPT_AFTER_USER@ + caddy_dir + HELPER_SCRIPT_TAIL@
}

/// The helper script, which copies the staged hosts file into place or gives
/// the Caddy data directory back to `user`. The user must be a safe name and
/// the directory must hold no `'\''` or `'\\'`, so that neither can break out
/// of the script's quoting.
pub fn build_helper_script(user: &str, caddy_dir: &str) -> (r: Result<String, String>)
    ensures
        !safe_name(user@) ==> (r matches Err(e) && e@ == UNSAFE_USER_MESSAGE@ + user@),
        safe_name(user@) && (has_char(caddy_dir@, '\'') || has_char(caddy_dir@, '\\')) ==> (
        r matches Err(e) && e@ == UNSAFE_CADDY_DIR_MESSAGE@),
        safe_name(user@) && !has_char(caddy_dir@, '\'') && !has_char(caddy_dir@, '\\') ==> (
        r matches Ok(s) && s@ == helper_script_text(user@, caddy_dir@)),
{
    if !is_safe_name(user) {
        let mut m: Vec<char> = Vec::new();
        extend_str(&mut m, UNSAFE_USER_MESSAGE);
        extend_str(&mut m, user);
        return Err(string_of(&m));
    }
    let dir = chars_of(caddy_dir);
    let quote = chars_of("'");
    let backslash = chars_of("\\");
    proof {
        reveal_strlit("'");
        reveal_strlit("\\");
        lemma_has_char_contains(dir@, '\'');
        lemma_has_char_contains(dir@, '\\');
        assert(quote@ =~= seq!['\'']);
        assert(backslash@ =~= seq!['\\']);
    }
    if contains_chars(&dir, &quote) || contains_chars(&dir, &backslash) {
        return Err(String::from_str(UNSAFE_CADDY_DIR_MESSAGE));
    }
    let mut out: Vec<char> = Vec::new();
    extend_str(&mut out, HELPER_SCRIPT_HEAD);
    extend_str(&mut out, HOSTS_STAGING_PATH);
    extend_str(&mut out, HELPER_SCRIPT_AFTER_STAGING);
    extend_str(&mut out, user);
    extend_str(&mut out, HELPER_SCRIPT_AFTER_USER);
    extend_str(&mut out, caddy_dir);
    extend_str(&mut out, HELPER_SCRIPT_TAIL);
    Ok(string_of(&out))
}

proof fn lemma_has_char_contains(s: Seq<char>, c: char)
    ensures
        has_char(s, c) == contains(s, seq![c]),
{
    if has_char(s, c) {
        let i = choose|i: int| 0 <= i < s.len() && s[i] == c;
        assert(s.subrange(i, i + 1) =~= seq![c]);
        assert(crate::text::occurs_at(s, seq![c], i));
    }
    if contains(s, seq![c]) {
        let i = choose|i: int| crate::text::occurs_at(s, seq![c], i);
        assert(s.subrange(i, i + 1)[0] == s[i]);
        assert(s[i] == c);
    }
}

/// The sudoers rule letting `user` run the helper's two tasks without a
/// password.
pub open spec fn sudoers_text(user: Seq<char>) -> Seq<char> {
    SUDOERS_HEADER@ + user + SUDOERS_RULE@ + HELPER_PATH@ + " sync-hosts\n"@ + user + SUDOERS_RULE@
        + HELPER_PATH@ + " repair-caddy\n"@
}

/// The sudoers file for `user`, who must be a safe name.
pub fn build_sudoers_content(user: &str) -> (r: Result<String, String>)
    ensures
        safe_name(user@) ==> (r matches Ok(s) && s@ == sudoers_text(user@)),
        !safe_name(user@) ==> (r matches Err(e) && e@ == UNSAFE_USER_MESSAGE@ + user@),
{
    if !is_safe_name(user) {
        let mut m: Vec<char> = Vec::new();
        extend_str(&mut m, UNSAFE_USER_MESSAGE);
        extend_str(&mut m, user);
        return Err(string_of(&m));
    }
    let mut out: Vec<char> = Vec::new();
    extend_str(&mut out, SUDOERS_HEADER);
    extend_str(&mut out, user);
    extend_str(&mut out, SUDOERS_RULE);
    extend_str(&mut out, HELPER_PATH);
    extend_str(&mut out, " sync-hosts\n");
    extend_str(&mut out, user);
    extend_str(&mut out, SUDOERS_RULE);
    extend_str(&mut out, HELPER_PATH);
    extend_str(&mut out, " repair-caddy\n");
    Ok(string_of(&out))
}

/// `cp src dst && chmod mode dst && chown root:wheel dst`.
pub open spec fn install_file_text(src: Seq<char>, dst: Seq<char>, mode: Seq<char>) -> Seq<char> {
    "/bin/cp '"@ + src + "' '"@ + dst + "' && /bin/chmod "@ + mode + " '"@ + dst
        + "' && /usr/sbin/chown root:wheel '"@ + dst + "'"@
}

/// The shell command that installs `src` at `dst` with `mode`, owned by root
/// (used in place of `/usr/bin/install`, which the `osascript` sandbox stops).
pub fn install_file(src: &str, dst: &str, mode: &str) -> (r: String)
    ensures
        r@ == install_file_text(src@, dst@, mode@),
{
    let mut out: Vec<char> = Vec::new();
    extend_str(&mut out, "/bin/cp '");
    extend_str(&mut out, src);
    extend_str(&mut out, "' '");
    extend_str(&mut out, dst);
    extend_str(&mut out, "' && /bin/chmod ");
    extend_str(&mut out, mode);
    extend_str(&mut out, " '");
    extend_str(&mut out, dst);
    extend_str(&mut out, "' && /usr/sbin/chown root:wheel '");
    extend_str(&mut out, dst);
    extend_str(&mut out, "'");
    string_of(&out)
}

/// `/tmp/perch-<kind>-<pid>.tmp`: where a file is staged before it is
/// installed.
pub fn staging_path(kind: &str, pid: u32) -> (r: String)
    ensures
        r@ == "/tmp/perch-"@ + kind@ + seq!['-'] + decimal(pid as nat) + ".tmp"@,
{
    let mut out: Vec<char> = Vec::new();
    extend_str(&mut out, "/tmp/perch-");
    extend_str(&mut out, kind);
    out.push('-');
    push_decimal(&mut out, pid as u64);
    extend_str(&mut out, ".tmp");
    string_of(&out)
}

/// The installation steps, ending with the task itself: create the helper's
/// directory, install the helper and the sudoers rule, install the Touch ID
/// PAM file unless it is already set up, then run the task.
pub open spec fn install_steps_text(
    helper_tmp: Seq<char>,
    sudoers_tmp: Seq<char>,
    pam_tmp: Seq<char>,
    pam_has_tid: bool,
    op: Operation,
) -> Seq<Seq<char>> {
    let base = seq![
        "/bin/mkdir -p /usr/local/bin"@,
        install_file_text(helper_tmp, HELPER_PATH@, "0755"@),
        install_file_text(sudoers_tmp, SUDOERS_PATH@, "0440"@),
    ];
    let with_pam = if pam_has_tid {
        base
    } else {
        base.push(install_file_text(pam_tmp, PAM_SUDO_LOCAL_PATH@, "0644"@))
    };
    with_pam.push(HELPER_PATH@ + seq![' '] + operation_text(op))
}

/// An install step: copy the staged file to `dst`, set `mode`, give it to
/// root.
proof fn lemma_install_file_split(src: Seq<char>, dst: Seq<char>, mode: Seq<char>)
    ensures
        install_file_text(src, dst, mode) == "/bin/cp '"@ + src + ("' '"@ + dst + "' && /bin/chmod "@
            + mode + " '"@ + dst + "' && /usr/sbin/chown root:wheel '"@ + dst + "'"@),
{
    assert(install_file_text(src, dst, mode) =~= "/bin/cp '"@ + src + ("' '"@ + dst
        + "' && /bin/chmod "@ + mode + " '"@ + dst + "' && /usr/sbin/chown root:wheel '"@ + dst
        + "'"@));
}

/// The installation makes the helper's directory, installs the helper
/// script executable (mode 0755) and the sudoers rule read-only (mode 0440),
/// both owned by root, installs the Touch ID PAM file (mode 0644) only when
/// it is not set up yet, and ends by running the helper for the task.
pub proof fn lemma_install_steps_modes(
    helper_tmp: Seq<char>,
    sudoers_tmp: Seq<char>,
    pam_tmp: Seq<char>,
    pam_has_tid: bool,
    op: Operation,
)
    ensures
        ({
            let steps = install_steps_text(helper_tmp, sudoers_tmp, pam_tmp, pam_has_tid, op);
            &&& steps.len() == if pam_has_tid { 4int } else { 5int }
            &&& steps[0] == "/bin/mkdir -p /usr/local/bin"@
            &&& steps[1] == "/bin/cp '"@ + helper_tmp + "' '/usr/local/bin/perch-helper' && /bin/chmod 0755 '/usr/local/bin/perch-helper' && /usr/sbin/chown root:wheel '/usr/local/bin/perch-helper'"@
            &&& steps[2] == "/bin/cp '"@ + sudoers_tmp + "' '/etc/sudoers.d/perch' && /bin/chmod 0440 '/etc/sudoers.d/perch' && /usr/sbin/chown root:wheel '/etc/sudoers.d/perch'"@
            &&& !pam_has_tid ==> steps[3] == "/bin/cp '"@ + pam_tmp + "' '/etc/pam.d/sudo_local' && /bin/chmod 0644 '/etc/pam.d/sudo_local' && /usr/sbin/chown root:wheel '/etc/pam.d/sudo_local'"@
            &&& steps.last() == match op {
                Operation::SyncHosts => "/usr/local/bin/perch-helper sync-hosts"@,
                Operation::RepairCaddy => "/usr/local/bin/perch-helper repair-caddy"@,
            }
        }),
{
    reveal_strlit("/usr/local/bin/perch-helper");
    reveal_strlit("/etc/sudoers.d/perch");
    reveal_strlit("/etc/pam.d/sudo_local");
    reveal_strlit("0755");
    reveal_strlit("0440");
    reveal_strlit("0644");
    reveal_strlit("' '");
    reveal_strlit("' && /bin/chmod ");
    reveal_strlit(" '");
    reveal_strlit("' && /usr/sbin/chown root:wheel '");
    reveal_strlit("'");
    reveal_strlit("' '/usr/local/bin/perch-helper' && /bin/chmod 0755 '/usr/local/bin/perch-helper' && /usr/sbin/chown root:wheel '/usr/local/bin/perch-helper'");
    reveal_strlit("' '/etc/sudoers.d/perch' && /bin/chmod 0440 '/etc/sudoers.d/perch' && /usr/sbin/chown root:wheel '/etc/sudoers.d/perch'");
    reveal_strlit("' '/etc/pam.d/sudo_local' && /bin/chmod 0644 '/etc/pam.d/sudo_local' && /usr/sbin/chown root:wheel '/etc/pam.d/sudo_local'");
    reveal_strlit("sync-hosts");
    reveal_strlit("repair-caddy");
    reveal_strlit("/usr/local/bin/perch-helper sync-hosts");
    reveal_strlit("/usr/local/bin/perch-helper repair-caddy");
    lemma_install_file_split(helper_tmp, HELPER_PATH@, "0755"@);
    lemma_install_file_split(sudoers_tmp, SUDOERS_PATH@, "0440"@);
    lemma_install_file_split(pam_tmp, PAM_SUDO_LOCAL_PATH@, "0644"@);
    assert("' '"@ + HELPER_PATH@ + "' && /bin/chmod "@ + "0755"@ + " '"@ + HELPER_PATH@
        + "' && /usr/sbin/chown root:wheel '"@ + HELPER_PATH@ + "'"@ =~= "' '/usr/local/bin/perch-helper' && /bin/chmod 0755 '/usr/local/bin/perch-helper' && /usr/sbin/chown root:wheel '/usr/local/bin/perch-helper'"@);
    assert("' '"@ + SUDOERS_PATH@ + "' && /bin/chmod "@ + "0440"@ + " '"@ + SUDOERS_PATH@
        + "' && /usr/sbin/chown root:wheel '"@ + SUDOERS_PATH@ + "'"@ =~= "' '/etc/sudoers.d/perch' && /bin/chmod 0440 '/etc/sudoers.d/perch' && /usr/sbin/chown root:wheel '/etc/sudoers.d/perch'"@);
    assert("' '"@ + PAM_SUDO_LOCAL_PATH@ + "' && /bin/chmod "@ + "0644"@ + " '"@
        + PAM_SUDO_LOCAL_PATH@ + "' && /usr/sbin/chown root:wheel '"@ + PAM_SUDO_LOCAL_PATH@
        + "'"@ =~= "' '/etc/pam.d/sudo_local' && /bin/chmod 0644 '/etc/pam.d/sudo_local' && /usr/sbin/chown root:wheel '/etc/pam.d/sudo_local'"@);
    assert(HELPER_PATH@ + seq![' '] + "sync-hosts"@ =~= "/usr/local/bin/perch-helper sync-hosts"@);
    assert(HELPER_PATH@ + seq![' '] + "repair-caddy"@ =~= "/usr/local/bin/perch-helper repair-caddy"@);
}

/// The steps of the one-prompt installation (see `install_steps_text`).
pub fn install_steps(
    helper_tmp: &str,
    sudoers_tmp: &str,
    pam_tmp: &str,
    pam_has_tid: bool,
    operation: Operation,
) -> (r: Vec<String>)
    ensures
        str_views(r@) == install_steps_text(
            helper_tmp@,
            sudoers_tmp@,
            pam_tmp@,
            pam_has_tid,
            operation,
        ),
{
    let mut steps: Vec<String> = Vec::new();
    steps.push(String::from_str("/bin/mkdir -p /usr/local/bin"));
    steps.push(install_file(helper_tmp, HELPER_PATH, "0755"));
    steps.push(install_file(sudoers_tmp, SUDOERS_PATH, "0440"));
    if !pam_has_tid {
        steps.push(install_file(pam_tmp, PAM_SUDO_LOCAL_PATH, "0644"));
    }
    let ghost mid = str_views(steps@);
    let mut last: Vec<char> = Vec::new();
    extend_str(&mut last, HELPER_PATH);
    last.push(' ');
    extend_str(&mut last, operation.as_str());
    assert(last@ =~= HELPER_PATH@ + seq![' '] + operation_text(operation));
    steps.push(string_of(&last));
    assert(str_views(steps@) =~= mid.push(HELPER_PATH@ + seq![' '] + operation_text(operation)));
    assert(str_views(steps@) =~= install_steps_text(
        helper_tmp@,
        sudoers_tmp@,
        pam_tmp@,
        pam_has_tid,
        operation,
    ));
    steps
}

/// Steps joined by `" && "`.
pub open spec fn and_then_text(steps: Seq<Seq<char>>) -> Seq<char>
    decreases steps.len(),
{
    if steps.len() == 0 {
        Seq::empty()
    } else if steps.len() == 1 {
        steps[0]
    } else {
        and_then_text(steps.drop_last()) + " && "@ + steps.last()
    }
}

/// The AppleScript that runs `script` with administrator privileges.
pub open spec fn admin_script_text(script: Seq<char>) -> Seq<char> {
    "do shell script \""@ + script + "\" with administrator privileges"@
}

/// The AppleScript that runs all steps, one after the other, with one
/// administrator prompt.
pub fn admin_script_for_steps(steps: &Vec<String>) -> (r: String)
    ensures
        r@ == admin_script_text(and_then_text(str_views(steps@))),
{
    let mut out: Vec<char> = Vec::new();
    extend_str(&mut out, "do shell script \"");
    let ghost start = out@;
    let mut i: usize = 0;
    while i < steps.len()
        invariant
            i <= steps.len(),
            out@ == start + and_then_text(str_views(steps@).take(i as int)),
        decreases steps.len() - i,
    {
        let ghost pre = str_views(steps@).take(i as int);
        assert(str_views(steps@).take(i + 1).drop_last() =~= pre);
        assert(str_views(steps@).take(i + 1).last() == steps@[i as int]@);
        if i > 0 {
            extend_str(&mut out, " && ");
        } else {
            assert(str_views(steps@).take(1) =~= seq![steps@[0]@]);
            assert(out@ =~= start);
        }
        extend_str(&mut out, steps[i].as_str());
        i = i + 1;
    }
    assert(str_views(steps@).take(steps.len() as int) =~= str_views(steps@));
    extend_str(&mut out, "\" with administrator privileges");
    string_of(&out)
}

/// The AppleScript that runs one shell command with administrator privileges.
pub fn admin_script(script: &str) -> (r: String)
    ensures
        r@ == admin_script_text(script@),
{
    let mut out: Vec<char> = Vec::new();
    extend_str(&mut out, "do shell script \"");
    extend_str(&mut out, script);
    extend_str(&mut out, "\" with administrator privileges");
    string_of(&out)
}

/// Removes the helper and the sudoers rule, and the Touch ID PAM file when
/// it is set up.
pub open spec fn uninstall_script_text(pam_has_tid: bool) -> Seq<char> {
    let base = "/bin/rm -f '"@ + HELPER_PATH@ + "' '"@ + SUDOERS_PATH@ + "'"@;
    if pam_has_tid {
        base + " && /bin/rm -f '"@ + PAM_SUDO_LOCAL_PATH@ + "'"@
    } else {
        base
    }
}

/// The shell command that uninstalls the helper.
pub fn uninstall_script(pam_has_tid: bool) -> (r: String)
    ensures
        r@ == uninstall_script_text(pam_has_tid),
{
    let mut out: Vec<char> = Vec::new();
    extend_str(&mut out, "/bin/rm -f '");
    extend_str(&mut out, HELPER_PATH);
    extend_str(&mut out, "' '");
    extend_str(&mut out, SUDOERS_PATH);
    extend_str(&mut out, "'");
    if pam_has_tid {
        extend_str(&mut out, " && /bin/rm -f '");
        extend_str(&mut out, PAM_SUDO_LOCAL_PATH);
        extend_str(&mut out, "'");
    }
    string_of(&out)
}

/// Whether the PAM file already enables Touch ID.
pub fn pam_has_tid(content: &str) -> (r: bool)
    ensures
        r == contains(content@, PAM_TID_MODULE@),
{
    let c = chars_of(content);
    let m = chars_of(PAM_TID_MODULE);
    contains_chars(&c, &m)
}

/// The error for a failed administrator prompt: the cancellation message
/// when the user cancelled, else `prefix` followed by the error output.
pub fn admin_failure_message(stderr: &str, prefix: &str) -> (r: String)
    ensures
        user_cancelled(stderr@) ==> r@ == CANCELLED_MESSAGE@,
        !user_cancelled(stderr@) ==> r@ == prefix@ + stderr@,
{
    if is_user_cancelled(stderr) {
        String::from_str(CANCELLED_MESSAGE)
    } else {
        let mut out: Vec<char> = Vec::new();
        extend_str(&mut out, prefix);
        extend_str(&mut out, stderr);
        string_of(&out)
    }
}

} // verus!

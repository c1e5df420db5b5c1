//! The decisions of the app's commands: what `start_caddy` does with what
//! the pre-flight checks found, how long it waits for Caddy, and what it
//! reports when Caddy dies right after starting. The caller runs the
//! processes, sleeps and talks to the UI.

use vstd::prelude::*;
use vstd::string::*;
use crate::caddy_permissions::{issue_view, PermissionIssue, PKI_NOT_READABLE_MESSAGE, DIR_NOT_WRITABLE_MESSAGE};
use crate::caddy_supervisor::{info_view, orphan_pids, CaddySighting, ProcessInfo, SightingModel};
use crate::text::{extend_str, string_of};

verus! {

pub const FOREIGN_CADDY_MESSAGE: &'static str =
    "다른 Caddy 프로세스가 이미 실행 중입니다. 종료한 뒤 다시 시작할 수 있습니다.";

pub const EXITED_NO_DETAIL_MESSAGE: &'static str =
    "Caddy가 시작 직후 종료되었습니다. 로그: ~/Library/Application Support/bellboy/caddy.log";

pub const EXITED_PREFIX: &'static str = "Caddy가 시작 직후 종료되었습니다.\n\n";

/// Readiness polls after a start, and the pause between them.
pub const READINESS_POLLS: u32 = 30;

pub const READINESS_POLL_MS: u64 = 100;

/// Pause after stopping processes so the kernel releases their sockets.
pub const SOCKET_RELEASE_MS: u64 = 300;

/// Why `start_caddy` failed.
#[derive(Debug, Clone)]
pub enum StartError {
    /// Caddy's data directory needs its ownership repaired first.
    PermissionRepairRequired { message: String, path: String },
    /// Caddy processes the app did not start hold the ports; `external`
    /// need the user's confirmation before they are stopped.
    ForeignCaddyDetected {
        message: String,
        bellboy_owned: Vec<ProcessInfo>,
        external: Vec<ProcessInfo>,
    },
    Other { message: String },
}

impl StartError {
    /// An error that carries only a message.
    pub fn other(message: String) -> (r: StartError)
        ensures
            r matches StartError::Other { message: m } && m@ == message@,
    {
        StartError::Other { message }
    }

    /// The message shown to the user.
    pub fn message(&self) -> (r: String)
        ensures
            r@ == match self {
                StartError::PermissionRepairRequired { message, .. } => message@,
                StartError::ForeignCaddyDetected { message, .. } => message@,
                StartError::Other { message } => message@,
            },
    {
        match self {
            StartError::PermissionRepairRequired { message, .. } => String::from_str(
                message.as_str(),
            ),
            StartError::ForeignCaddyDetected { message, .. } => String::from_str(message.as_str()),
            StartError::Other { message } => String::from_str(message.as_str()),
        }
    }
}

/// The error for a permission problem found before the start.
pub fn permission_error(issue: &PermissionIssue) -> (r: StartError)
    ensures
        r matches StartError::PermissionRepairRequired { message, path } && path@ == issue_view(
            *issue,
        ).1 && message@ == (if issue_view(*issue).0 {
            PKI_NOT_READABLE_MESSAGE@
        } else {
            DIR_NOT_WRITABLE_MESSAGE@
        }),
{
    let message = issue.message();
    let path = String::from_str(issue.path());
    StartError::PermissionRepairRequired { message, path }
}

/// What to do before starting, given the processes that were found.
#[derive(Debug, Clone)]
pub enum Preflight {
    /// Nothing stands in the way.
    Proceed,
    /// Our recorded caddy is gone: remove the stale PID file, then start.
    ClearPidFile,
    /// Only orphans started with our Caddyfile hold the ports: stop these
    /// PIDs, wait for the sockets, then start.
    KillOrphans(Vec<u32>),
    /// Caddies from elsewhere hold the ports: report and do not start.
    Refuse(StartError),
}

/// Decides the pre-flight step from what the process scan found.
pub fn preflight(sighting: CaddySighting) -> (r: Preflight)
    ensures
        match sighting@ {
            SightingModel::Foreign(b, e) => if e.len() == 0 {
                r matches Preflight::KillOrphans(pids) && pids@ == b.map_values(
                    |p: (u32, Seq<char>)| p.0,
                )
            } else {
                r matches Preflight::Refuse(StartError::ForeignCaddyDetected {
                    message,
                    bellboy_owned,
                    external,
                }) && message@ == FOREIGN_CADDY_MESSAGE@ && bellboy_owned@.map_values(
                    |p: ProcessInfo| info_view(p),
                ) == b && external@.map_values(|p: ProcessInfo| info_view(p)) == e
            },
            SightingModel::OursDead => r matches Preflight::ClearPidFile,
            _ => r matches Preflight::Proceed,
        },
{
    let pids = orphan_pids(&sighting);
    match sighting {
        CaddySighting::Foreign { bellboy_owned, external } => {
            if external.len() == 0 {
                Preflight::KillOrphans(pids)
            } else {
                Preflight::Refuse(
                    StartError::ForeignCaddyDetected {
                        message: String::from_str(FOREIGN_CADDY_MESSAGE),
                        bellboy_owned,
                        external,
                    },
                )
            }
        },
        CaddySighting::OursDead => Preflight::ClearPidFile,
        _ => Preflight::Proceed,
    }
}

/// Whether to stop waiting for a freshly started Caddy: it died, or its
/// admin API accepts connections.
pub fn readiness_wait_over(running: bool, admin_reachable: bool) -> (r: bool)
    ensures
        r == (!running || admin_reachable),
{
    !running || admin_reachable
}

/// The message when Caddy exited right after starting, with the summary of
/// its log (empty when there is none).
pub fn exited_message(detail: &str) -> (r: String)
    ensures
        detail@.len() == 0 ==> r@ == EXITED_NO_DETAIL_MESSAGE@,
        detail@.len() > 0 ==> r@ == EXITED_PREFIX@ + detail@,
{
    if detail.unicode_len() == 0 {
        String::from_str(EXITED_NO_DETAIL_MESSAGE)
    } else {
        let mut out: Vec<char> = Vec::new();
        extend_str(&mut out, EXITED_PREFIX);
        extend_str(&mut out, detail);
        string_of(&out)
    }
}

/// The health snapshot the status bar shows.
#[derive(Debug, Clone)]
pub struct CaddyHealth {
    pub is_running: bool,
    pub admin_api_reachable: bool,
    pub sighting: CaddySighting,
}

} // verus!

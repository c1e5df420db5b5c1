//! Pre-flight permission check and repair for Caddy's data directory.
//!
//! Caddy keeps its local CA under `~/Library/Application Support/Caddy`. A
//! past `sudo caddy ...` leaves that directory owned by root, and a later run
//! as the user fails on the root certificate. The app detects this before
//! starting Caddy and offers to give the directory back. The caller probes
//! the disk and runs the helper.

use vstd::prelude::*;
use vstd::string::*;
use crate::auth_helper::{is_safe_name, safe_name};
use crate::text::{path_join, path_join_exec};

verus! {

pub const CADDY_DIR: &'static str = "Library/Application Support/Caddy";

pub const PROBE_FILENAME: &'static str = ".perch-write-probe";

pub const ROOT_CRT_REL: &'static str = "pki/authorities/local/root.crt";

pub const HOME_NOT_SET: &'static str = "HOME not set";

pub const PKI_NOT_READABLE_MESSAGE: &'static str =
    "Caddy 내부 인증서 파일을 읽을 수 없습니다. 이전에 sudo로 실행된 흔적이라 소유권 복구가 필요합니다.";

pub const DIR_NOT_WRITABLE_MESSAGE: &'static str =
    "Caddy 데이터 폴더에 쓰기 권한이 없습니다. 소유권 복구가 필요합니다.";

/// A repairable permission problem.
#[derive(Debug, Clone)]
pub enum PermissionIssue {
    /// A file of the PKI tree exists but cannot be read: almost always owned
    /// by root after a `sudo caddy` run.
    PkiNotReadable { path: String },
    /// The data directory accepts no writes.
    DirNotWritable { path: String },
}

/// An issue as plain values: whether the PKI file is unreadable (else the
/// directory is not writable), and the path concerned.
pub open spec fn issue_view(i: PermissionIssue) -> (bool, Seq<char>) {
    match i {
        PermissionIssue::PkiNotReadable { path } => (true, path@),
        PermissionIssue::DirNotWritable { path } => (false, path@),
    }
}

impl PermissionIssue {
    /// The message shown to the user.
    pub fn message(&self) -> (r: String)
        ensures
            r@ == if issue_view(*self).0 {
                PKI_NOT_READABLE_MESSAGE@
            } else {
                DIR_NOT_WRITABLE_MESSAGE@
            },
    {
        match self {
            PermissionIssue::PkiNotReadable { .. } => String::from_str(PKI_NOT_READABLE_MESSAGE),
            PermissionIssue::DirNotWritable { .. } => String::from_str(DIR_NOT_WRITABLE_MESSAGE),
        }
    }

    /// The path concerned.
    pub fn path(&self) -> (r: &str)
        ensures
            r@ == issue_view(*self).1,
    {
        match self {
            PermissionIssue::PkiNotReadable { path } => path.as_str(),
            PermissionIssue::DirNotWritable { path } => path.as_str(),
        }
    }
}

/// Caddy's data directory for the given home.
pub fn caddy_data_dir(home: &str) -> (r: String)
    ensures
        r@ == path_join(home@, CADDY_DIR@),
{
    path_join_exec(home, CADDY_DIR)
}

/// Caddy's local root certificate inside its data directory.
pub fn root_crt_path(dir: &str) -> (r: String)
    ensures
        r@ == path_join(dir@, ROOT_CRT_REL@),
{
    path_join_exec(dir, ROOT_CRT_REL)
}

/// The file created and removed to test that the data directory is writable.
pub fn probe_path(dir: &str) -> (r: String)
    ensures
        r@ == path_join(dir@, PROBE_FILENAME@),
{
    path_join_exec(dir, PROBE_FILENAME)
}

/// Whether Caddy can read and write its data directory. `Ok` when `HOME` is
/// unknown or the directory does not exist yet (Caddy creates it); the PKI
/// issue when the root certificate exists but cannot be opened
/// (`root_unreadable`); the directory issue when the write probe failed;
/// `Ok` otherwise. Unexpected failures count as `Ok`: better to let Caddy
/// report them than to block the start on a false alarm.
pub fn check(home: Option<&str>, dir_exists: bool, root_unreadable: bool, probe_ok: bool) -> (r:
    Result<(), PermissionIssue>)
    ensures
        match home {
            None => r is Ok,
            Some(h) => {
                let dir = path_join(h@, CADDY_DIR@);
                if !dir_exists {
                    r is Ok
                } else if root_unreadable {
                    r matches Err(i) && issue_view(i) == (true, path_join(dir, ROOT_CRT_REL@))
                } else if !probe_ok {
                    r matches Err(i) && issue_view(i) == (false, dir)
                } else {
                    r is Ok
                }
            },
        },
{
    match home {
        None => Ok(()),
        Some(h) => {
            if !dir_exists {
                return Ok(());
            }
            let dir = caddy_data_dir(h);
            if root_unreadable {
                return Err(PermissionIssue::PkiNotReadable { path: root_crt_path(dir.as_str()) });
            }
            if !probe_ok {
                return Err(PermissionIssue::DirNotWritable { path: dir });
            }
            Ok(())
        },
    }
}

/// How the data directory's ownership is given back.
#[derive(Debug, Clone, Copy, PartialEq, Eq)]
pub enum RepairAction {
    /// The directory does not exist: nothing to repair.
    NothingToDo,
    /// The helper is installed: run it without a prompt.
    RunHelper,
    /// First use: install the helper and run the repair with one prompt.
    InstallAndRun,
}

/// Chooses how to repair: an error without `HOME`; nothing when the
/// directory does not exist; the installed helper when there is one; else
/// the one-prompt installation.
pub fn repair(home: Option<&str>, dir_exists: bool, helper_installed: bool) -> (r: Result<
    RepairAction,
    String,
>)
    ensures
        home.is_none() ==> (r matches Err(e) && e@ == HOME_NOT_SET@),
        home.is_some() && !dir_exists ==> r == Ok::<RepairAction, String>(RepairAction::NothingToDo),
        home.is_some() && dir_exists && helper_installed ==> r == Ok::<RepairAction, String>(
            RepairAction::RunHelper,
        ),
        home.is_some() && dir_exists && !helper_installed ==> r == Ok::<RepairAction, String>(
            RepairAction::InstallAndRun,
        ),
{
    match home {
        None => Err(String::from_str(HOME_NOT_SET)),
        Some(_) => {
            if !dir_exists {
                Ok(RepairAction::NothingToDo)
            } else if helper_installed {
                Ok(RepairAction::RunHelper)
            } else {
                Ok(RepairAction::InstallAndRun)
            }
        },
    }
}

/// Whether a user name is safe to write into the repair command (see
/// `safe_name`).
pub fn is_safe_user(user: &str) -> (r: bool)
    ensures
        r == safe_name(user@),
{
    is_safe_name(user)
}

} // verus!

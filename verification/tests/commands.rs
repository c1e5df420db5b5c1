use perch::caddy_permissions::PermissionIssue;
use perch::caddy_supervisor::{CaddySighting, ProcessInfo};
use perch::commands::{
    exited_message, permission_error, preflight, readiness_wait_over, Preflight, StartError,
};
use perch::config_store::{app_dir_path, caddyfile_path, config_path, is_blank};

fn info(pid: u32) -> ProcessInfo {
    ProcessInfo { pid, command: format!("caddy {pid}") }
}

#[test]
fn preflight_decisions() {
    let orphans = CaddySighting::Foreign { bellboy_owned: vec![info(3), info(4)], external: vec![] };
    match preflight(orphans) {
        Preflight::KillOrphans(p) => assert_eq!(p, vec![3, 4]),
        _ => panic!("orphans must be stopped"),
    }
    let foreign = CaddySighting::Foreign { bellboy_owned: vec![info(3)], external: vec![info(9)] };
    match preflight(foreign) {
        Preflight::Refuse(StartError::ForeignCaddyDetected { message, bellboy_owned, external }) => {
            assert!(message.starts_with("다른 Caddy"));
            assert_eq!(bellboy_owned[0].pid, 3);
            assert_eq!(external[0].pid, 9);
        }
        _ => panic!("external caddies must be reported"),
    }
    assert!(matches!(preflight(CaddySighting::OursDead), Preflight::ClearPidFile));
    assert!(matches!(preflight(CaddySighting::NotRunning), Preflight::Proceed));
    assert!(matches!(preflight(CaddySighting::OursAlive { pid: 1 }), Preflight::Proceed));
}

#[test]
fn start_messages() {
    assert_eq!(
        exited_message(""),
        "Caddy가 시작 직후 종료되었습니다. 로그: ~/Library/Application Support/bellboy/caddy.log"
    );
    assert_eq!(exited_message("Error: x"), "Caddy가 시작 직후 종료되었습니다.\n\nError: x");
    assert!(readiness_wait_over(false, false));
    assert!(readiness_wait_over(true, true));
    assert!(!readiness_wait_over(true, false));
    let e = permission_error(&PermissionIssue::DirNotWritable { path: "/d".to_string() });
    match &e {
        StartError::PermissionRepairRequired { path, .. } => assert_eq!(path, "/d"),
        _ => panic!("permission error expected"),
    }
    assert!(e.message().contains("쓰기 권한"));
    assert_eq!(StartError::other("boom".to_string()).message(), "boom");
}

#[test]
fn config_paths() {
    assert_eq!(app_dir_path("/Users/me"), "/Users/me/Library/Application Support/perch");
    assert_eq!(config_path("/a"), "/a/config.json");
    assert_eq!(caddyfile_path("/a/"), "/a/Caddyfile");
    assert!(is_blank(" \n\t"));
    assert!(!is_blank(" {} "));
}

use perch::caddy_permissions::{
    caddy_data_dir, check, is_safe_user, probe_path, repair, PermissionIssue, RepairAction,
};

#[test]
fn safe_user_accepts_typical_names() {
    assert!(is_safe_user("gwonsuhyeon"));
    assert!(is_safe_user("soo-hyun"));
    assert!(is_safe_user("user.name"));
    assert!(is_safe_user("user_1"));
}

#[test]
fn safe_user_rejects_shell_metachars() {
    assert!(!is_safe_user(""));
    assert!(!is_safe_user("user; rm -rf /"));
    assert!(!is_safe_user("user'"));
    assert!(!is_safe_user("user space"));
    assert!(!is_safe_user("user$HOME"));
}

#[test]
fn issue_message_and_path_accessors() {
    let p = "/tmp/x".to_string();
    let issue = PermissionIssue::PkiNotReadable { path: p.clone() };
    assert_eq!(issue.path(), p.as_str());
    assert!(!issue.message().is_empty());

    let issue = PermissionIssue::DirNotWritable { path: p.clone() };
    assert_eq!(issue.path(), p.as_str());
    assert!(!issue.message().is_empty());
}

#[test]
fn check_outcomes() {
    assert!(check(None, true, true, false).is_ok());
    assert!(check(Some("/h"), false, true, false).is_ok());
    match check(Some("/h"), true, true, false) {
        Err(PermissionIssue::PkiNotReadable { path }) => assert_eq!(
            path,
            "/h/Library/Application Support/Caddy/pki/authorities/local/root.crt"
        ),
        _ => panic!("pki issue expected"),
    }
    match check(Some("/h"), true, false, false) {
        Err(PermissionIssue::DirNotWritable { path }) => {
            assert_eq!(path, "/h/Library/Application Support/Caddy")
        }
        _ => panic!("dir issue expected"),
    }
    assert!(check(Some("/h"), true, false, true).is_ok());
    assert_eq!(caddy_data_dir("/h"), "/h/Library/Application Support/Caddy");
    assert_eq!(probe_path("/d"), "/d/.perch-write-probe");
    assert_eq!(
        PermissionIssue::DirNotWritable { path: String::new() }.message(),
        "Caddy 데이터 폴더에 쓰기 권한이 없습니다. 소유권 복구가 필요합니다."
    );
}

#[test]
fn repair_actions() {
    assert_eq!(repair(None, true, true), Err("HOME not set".to_string()));
    assert_eq!(repair(Some("/h"), false, true), Ok(RepairAction::NothingToDo));
    assert_eq!(repair(Some("/h"), true, true), Ok(RepairAction::RunHelper));
    assert_eq!(repair(Some("/h"), true, false), Ok(RepairAction::InstallAndRun));
}

use perch::auth_helper::{
    admin_failure_message, admin_script, admin_script_for_steps, build_helper_script,
    build_sudoers_content, install_file, install_steps, is_installed, is_safe_name, pam_has_tid,
    helper_args, helper_outcome, staging_path, uninstall_script, user_and_home, Operation,
};

#[test]
fn helper_script_contains_expected_commands() {
    let script = build_helper_script("alice", "/Users/alice/Library/Application Support/Caddy").unwrap();
    assert!(script.contains("sync-hosts"));
    assert!(script.contains("repair-caddy"));
    assert!(script.contains("/bin/cp '/tmp/perch-hosts-staging' /etc/hosts"));
    assert!(script.contains("/usr/sbin/chown -R 'alice:staff'"));
    assert!(script.contains("Application Support/Caddy"));
}

#[test]
fn sudoers_content_has_no_spaces_in_paths() {
    let content = build_sudoers_content("alice").unwrap();
    for line in content.lines().filter(|l| l.contains("NOPASSWD")) {
        let cmd_part = line.split("NOPASSWD:").nth(1).unwrap_or("");
        let helper = cmd_part.trim().split_whitespace().next().unwrap_or("");
        assert!(!helper.contains(' '), "helper path has space: {}", helper);
    }
}

#[test]
fn safe_name_accepts_typical() {
    assert!(is_safe_name("alice"));
    assert!(is_safe_name("john.doe"));
    assert!(is_safe_name("user-1"));
}

#[test]
fn safe_name_rejects_shell_metachars() {
    assert!(!is_safe_name(""));
    assert!(!is_safe_name("user space"));
    assert!(!is_safe_name("a;b"));
    assert!(!is_safe_name("a$b"));
}

#[test]
fn helper_script_errors_and_exact_text() {
    assert_eq!(
        build_helper_script("a b", "/d"),
        Err("USER에 허용되지 않는 문자: a b".to_string())
    );
    assert_eq!(
        build_helper_script("alice", "/d'x"),
        Err("Caddy 경로에 허용되지 않는 문자가 있습니다".to_string())
    );
    assert!(build_helper_script("alice", "/d\\x").is_err());
    assert!(!is_safe_name("é"));
    let s = build_helper_script("bob", "/c").unwrap();
    assert_eq!(
        s,
        "#!/bin/bash\nset -euo pipefail\ncase \"${1:-}\" in\nsync-hosts)\nexec /bin/cp '/tmp/perch-hosts-staging' /etc/hosts\n;;\nrepair-caddy)\nexec /usr/sbin/chown -R 'bob:staff' '/c'\n;;\n*)\necho \"perch-helper: unknown command: ${1:-}\" >&2\nexit 1\n;;\nesac\n"
    );
}

#[test]
fn sudoers_exact_text() {
    assert_eq!(
        build_sudoers_content("bob").unwrap(),
        "# Managed by Perch — do not edit manually\nbob ALL=(root) NOPASSWD: /usr/local/bin/perch-helper sync-hosts\nbob ALL=(root) NOPASSWD: /usr/local/bin/perch-helper repair-caddy\n"
    );
    assert!(build_sudoers_content("b;b").is_err());
}

#[test]
fn install_commands() {
    assert_eq!(
        install_file("/tmp/a", "/etc/b", "0440"),
        "/bin/cp '/tmp/a' '/etc/b' && /bin/chmod 0440 '/etc/b' && /usr/sbin/chown root:wheel '/etc/b'"
    );
    assert_eq!(staging_path("helper", 1234), "/tmp/perch-helper-1234.tmp");
    assert_eq!(staging_path("pam", 0), "/tmp/perch-pam-0.tmp");
    let with_pam = install_steps("/h", "/s", "/p", false, Operation::RepairCaddy);
    assert_eq!(with_pam.len(), 5);
    assert_eq!(with_pam[0], "/bin/mkdir -p /usr/local/bin");
    assert_eq!(with_pam[4], "/usr/local/bin/perch-helper repair-caddy");
    let without = install_steps("/h", "/s", "/p", true, Operation::SyncHosts);
    assert_eq!(without.len(), 4);
    assert_eq!(without[3], "/usr/local/bin/perch-helper sync-hosts");
    assert_eq!(
        admin_script_for_steps(&vec!["a".to_string(), "b".to_string()]),
        "do shell script \"a && b\" with administrator privileges"
    );
    assert_eq!(admin_script("x"), "do shell script \"x\" with administrator privileges");
    assert_eq!(
        uninstall_script(true),
        "/bin/rm -f '/usr/local/bin/perch-helper' '/etc/sudoers.d/perch' && /bin/rm -f '/etc/pam.d/sudo_local'"
    );
    assert_eq!(uninstall_script(false), "/bin/rm -f '/usr/local/bin/perch-helper' '/etc/sudoers.d/perch'");
}

#[test]
fn small_decisions() {
    assert!(is_installed(true, true));
    assert!(!is_installed(true, false));
    assert!(pam_has_tid("auth sufficient pam_tid.so\n"));
    assert!(!pam_has_tid("auth required pam_opendirectory.so\n"));
    assert_eq!(Operation::SyncHosts.as_str(), "sync-hosts");
    assert_eq!(Operation::RepairCaddy.as_str(), "repair-caddy");
    assert_eq!(
        admin_failure_message("execution error: User canceled. (-128)", "osascript failed: "),
        "사용자가 관리자 권한 요청을 취소했습니다"
    );
    assert_eq!(admin_failure_message("boom", "osascript failed: "), "osascript failed: boom");
}

#[test]
fn user_and_home_checks() {
    assert_eq!(
        user_and_home(Some("alice"), Some("/Users/alice")),
        Ok(("alice".to_string(), "/Users/alice".to_string()))
    );
    assert_eq!(user_and_home(None, Some("/h")), Err("USER not set".to_string()));
    assert_eq!(
        user_and_home(Some("a b"), Some("/h")),
        Err("USER에 허용되지 않는 문자: a b".to_string())
    );
    assert_eq!(user_and_home(Some("bob"), None), Err("HOME not set".to_string()));
}

#[test]
fn helper_invocation() {
    assert_eq!(
        helper_args(Operation::RepairCaddy),
        vec!["-n", "/usr/local/bin/perch-helper", "repair-caddy"]
    );
    assert_eq!(helper_outcome(true, "x"), Ok(()));
    assert_eq!(
        helper_outcome(false, "sudo: a password is required"),
        Err("sudo helper failed: sudo: a password is required".to_string())
    );
}

use perch::caddy_process::{
    current_pid, is_running, log_file_path, may_start, record_start, ADMIN_STOP_REQUEST, reload_outcome, spawn_failure_message, ChildProbe,
    caddy_binary, caddy_candidates, extract_failure_summary, is_stop_accepted, log_line,
    parse_pid, pid_file_path, reload_args, resolve_binary, resolve_caddy, run_args,
    session_header,
};

#[test]
fn prefers_error_line_over_tail() {
    let log = "\
--- caddy start (1) ---
[stderr] info: started admin
[stderr] Error: bind: address already in use
[stderr] info: shutdown
";
    assert_eq!(
        extract_failure_summary(log, 5).as_deref(),
        Some("[stderr] Error: bind: address already in use"),
    );
}

#[test]
fn falls_back_to_tail_when_no_error_marker() {
    let log = "\
--- caddy start (1) ---
[stderr] line1
[stderr] line2
[stderr] line3
";
    let out = extract_failure_summary(log, 2).unwrap();
    assert!(out.contains("line2"));
    assert!(out.contains("line3"));
    assert!(!out.contains("line1"));
}

#[test]
fn only_considers_latest_session() {
    let log = "\
--- caddy start (1) ---
[stderr] Error: old error
--- caddy start (2) ---
[stderr] info: running
[stderr] Error: new error
";
    let out = extract_failure_summary(log, 10).unwrap();
    assert!(out.contains("new error"));
    assert!(!out.contains("old error"));
}

#[test]
fn empty_input_returns_none() {
    assert_eq!(extract_failure_summary("", 5), None);
    assert_eq!(extract_failure_summary("\n\n", 5), None);
}

#[test]
fn tail_is_exact_and_zero_lines_is_none() {
    let log = "x\n--- caddy start (3) ---\na\nb\n";
    assert_eq!(extract_failure_summary(log, 2).as_deref(), Some("a\nb"));
    assert_eq!(extract_failure_summary(log, 20).as_deref(), Some("--- caddy start (3) ---\na\nb"));
    assert_eq!(extract_failure_summary(log, 0), None);
    assert_eq!(extract_failure_summary("  Error:  x  \n", 1).as_deref(), Some("Error:  x"));
}

#[test]
fn command_lines() {
    assert_eq!(run_args("/c/Caddyfile"), vec!["run", "--config", "/c/Caddyfile", "--adapter", "caddyfile"]);
    assert_eq!(
        reload_args("/c/Caddyfile"),
        vec!["reload", "--config", "/c/Caddyfile", "--adapter", "caddyfile", "--address", "localhost:2019"]
    );
}

#[test]
fn stop_reply_status() {
    assert!(is_stop_accepted("HTTP/1.1 200 OK\r\n"));
    assert!(is_stop_accepted("HTTP/1.0 200"));
    assert!(!is_stop_accepted("HTTP/1.1 500 Internal"));
    assert!(!is_stop_accepted(""));
}

#[test]
fn binary_lookup() {
    let c = caddy_candidates(Some("/usr/bin:/opt/x/"));
    assert_eq!(
        c,
        vec!["/usr/bin/caddy", "/opt/x/caddy", "/opt/homebrew/bin/caddy", "/usr/local/bin/caddy"]
    );
    assert_eq!(caddy_candidates(None), vec!["/opt/homebrew/bin/caddy", "/usr/local/bin/caddy"]);
    assert_eq!(caddy_candidates(Some("")), vec!["caddy", "/opt/homebrew/bin/caddy", "/usr/local/bin/caddy"]);
    assert_eq!(
        resolve_caddy(Some("/usr/bin"), &vec![false, false, true]).as_deref(),
        Some("/usr/local/bin/caddy")
    );
    assert_eq!(resolve_caddy(Some("/usr/bin"), &vec![false, false, false]), None);
    assert_eq!(resolve_binary(&vec!["a".to_string(), "b".to_string()], &vec![false]), None);
    assert_eq!(caddy_binary(None), "caddy");
    assert_eq!(caddy_binary(Some("/x/caddy".to_string())), "/x/caddy");
}

#[test]
fn pid_file() {
    assert_eq!(pid_file_path(Some("/app")).as_deref(), Some("/app/caddy.pid"));
    assert_eq!(pid_file_path(None), None);
    assert_eq!(parse_pid(" 4242\n"), Some(4242));
    assert_eq!(parse_pid("+7"), Some(7));
    assert_eq!(parse_pid("4294967295"), Some(u32::MAX));
    assert_eq!(parse_pid("4294967296"), None);
    assert_eq!(parse_pid("12a"), None);
    assert_eq!(parse_pid(""), None);
}

#[test]
fn log_format() {
    assert_eq!(log_file_path("/d/perch"), "/d/perch/caddy.log");
    assert_eq!(session_header(0), "--- caddy start (0) ---\n");
    assert_eq!(session_header(1700000000), "--- caddy start (1700000000) ---\n");
    assert_eq!(log_line("stderr", "Error: x"), "[stderr] Error: x\n");
}

#[test]
fn earlier_sessions_do_not_leak_into_summary() {
    let before = format!("{}{}", session_header(5), log_line("stderr", "Error: old"));
    let after = format!("{}{}", log_line("stdout", "ok"), log_line("stderr", "still running"));
    let whole = format!("{}{}{}", before, session_header(6), after);
    let latest = format!("{}{}", session_header(6), after);
    assert_eq!(extract_failure_summary(&whole, 20), extract_failure_summary(&latest, 20));
    assert_eq!(
        extract_failure_summary(&whole, 1).as_deref(),
        Some("[stderr] still running")
    );
}

#[test]
fn child_probe_decisions() {
    let running = ChildProbe::Running { pid: 77 };
    assert_eq!(may_start(&running), Err("Caddy is already running".to_string()));
    assert_eq!(may_start(&ChildProbe::NoChild), Ok(()));
    assert_eq!(may_start(&ChildProbe::Exited), Ok(()));
    assert_eq!(may_start(&ChildProbe::WaitFailed("boom".into())), Err("boom".to_string()));
    assert!(is_running(&running));
    assert!(!is_running(&ChildProbe::Exited));
    assert_eq!(current_pid(&running), Some(77));
    assert_eq!(current_pid(&ChildProbe::NoChild), None);
}

#[test]
fn reload_and_spawn_messages() {
    assert_eq!(reload_outcome(true, "ignored"), Ok(()));
    assert_eq!(
        reload_outcome(false, "adapt: bad"),
        Err("caddy reload failed: adapt: bad".to_string())
    );
    assert_eq!(
        spawn_failure_message("caddy", "No such file"),
        "failed to spawn caddy at caddy: No such file — is Caddy installed and in PATH?"
    );
}

#[test]
fn state_after_start() {
    let (probe, text) = record_start(4242);
    assert!(is_running(&probe));
    assert_eq!(current_pid(&probe), Some(4242));
    assert_eq!(text, "4242");
    assert_eq!(parse_pid(&text), Some(4242));
    assert!(ADMIN_STOP_REQUEST.starts_with("POST /stop HTTP/1.1\r\n"));
    assert!(ADMIN_STOP_REQUEST.ends_with("\r\n\r\n"));
}

use perch::caddy_supervisor::{
    cmdline_uses_bellboy_caddyfile, inspect, kill_args, orphan_pids, parse_pgrep_output, pgrep_outcome, ps_args,
    CaddySighting,
};

#[test]
fn parses_pgrep_lines() {
    assert_eq!(parse_pgrep_output("1234\n5678\n"), vec![1234, 5678]);
    assert_eq!(parse_pgrep_output(""), Vec::<u32>::new());
    assert_eq!(parse_pgrep_output("  42  \n\n"), vec![42]);
}

#[test]
fn classifies_bellboy_owned_via_caddyfile_path() {
    let bellboy_cf = "/Users/me/Library/Application Support/bellboy/Caddyfile";
    let bellboy_cmd =
        "/opt/homebrew/bin/caddy run --config /Users/me/Library/Application Support/bellboy/Caddyfile --adapter caddyfile";
    let brew_cmd = "/opt/homebrew/opt/caddy/bin/caddy run --config /opt/homebrew/etc/Caddyfile";

    assert!(cmdline_uses_bellboy_caddyfile(bellboy_cmd, bellboy_cf));
    assert!(!cmdline_uses_bellboy_caddyfile(brew_cmd, bellboy_cf));
}

#[test]
fn empty_path_is_never_bellboy_owned() {
    assert!(!cmdline_uses_bellboy_caddyfile("anything", ""));
}

fn kinds(s: &CaddySighting) -> (Vec<u32>, Vec<u32>) {
    match s {
        CaddySighting::Foreign { bellboy_owned, external } => (
            bellboy_owned.iter().map(|p| p.pid).collect(),
            external.iter().map(|p| p.pid).collect(),
        ),
        _ => (vec![], vec![]),
    }
}

#[test]
fn inspect_outcomes() {
    let cf = "/app/Caddyfile";
    let cmds = vec![
        "caddy run --config /app/Caddyfile".to_string(),
        "caddy run --config /etc/Caddyfile".to_string(),
        "caddy run --config /app/Caddyfile".to_string(),
    ];
    assert!(matches!(inspect(&vec![], &vec![], None, None, cf), CaddySighting::NotRunning));
    assert!(matches!(inspect(&vec![1], &vec![], Some(2), None, cf), CaddySighting::OursDead));
    assert!(matches!(inspect(&vec![5], &vec![], Some(5), None, cf), CaddySighting::OursAlive { pid: 5 }));
    assert!(matches!(inspect(&vec![5], &vec![], None, Some(5), cf), CaddySighting::OursAlive { pid: 5 }));
    assert!(matches!(inspect(&vec![], &vec![], None, Some(5), cf), CaddySighting::OursDead));
    let s = inspect(&vec![10, 11, 12], &cmds, None, Some(99), cf);
    assert_eq!(kinds(&s), (vec![10, 12], vec![11]));
    assert_eq!(orphan_pids(&s), vec![10, 12]);
    let s = inspect(&vec![10, 11, 12], &cmds, Some(11), None, cf);
    assert_eq!(kinds(&s), (vec![10, 12], vec![]));
    // A process whose command line is unknown counts as external.
    let s = inspect(&vec![7], &vec![], None, None, cf);
    assert_eq!(kinds(&s), (vec![], vec![7]));
    assert!(orphan_pids(&CaddySighting::OursDead).is_empty());
}

#[test]
fn signal_and_ps_arguments() {
    assert_eq!(kill_args(&vec![]), None);
    assert_eq!(
        kill_args(&vec![12, 3400]),
        Some(vec!["-TERM".to_string(), "12".to_string(), "3400".to_string()])
    );
    assert_eq!(ps_args(987), vec!["-o", "command=", "-p", "987"]);
}

#[test]
fn empty_caddyfile_path_offers_nothing_to_stop() {
    let pids = vec![10, 11];
    let cmds = vec!["caddy run --config /a".to_string(), "caddy run".to_string()];
    let s = inspect(&pids, &cmds, None, None, "");
    assert!(orphan_pids(&s).is_empty());
}

#[test]
fn pgrep_exit_status() {
    assert_eq!(pgrep_outcome(true, "12\n34\n"), Ok(vec![12, 34]));
    assert_eq!(pgrep_outcome(false, ""), Ok(vec![]));
    assert_eq!(pgrep_outcome(false, "usage: pgrep"), Err("pgrep failed".to_string()));
}

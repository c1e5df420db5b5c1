use perch::caddy_install::{brew_candidates, brew_path, install_outcome, status, tail};

#[test]
fn tail_returns_full_string_when_short() {
    assert_eq!(tail("  hello  ", 800), "hello");
}

#[test]
fn tail_truncates_long_string_with_ellipsis() {
    let s = "a".repeat(1000);
    let out = tail(&s, 800);
    assert!(out.starts_with('…'));
    assert_eq!(out.len(), '…'.len_utf8() + 800);
}

#[test]
fn tail_preserves_utf8_boundary() {
    let s = "가".repeat(500);
    let out = tail(&s, 800);
    assert!(out.starts_with('…'));
    assert!(out.trim_start_matches('…').chars().all(|c| c == '가'));
}

#[test]
fn tail_exact_cuts() {
    assert_eq!(tail("abcdef", 3), "…def");
    assert_eq!(tail("가나다", 7), "…나다");
    assert_eq!(tail("가나다", 9), "가나다");
    assert_eq!(tail("가나다", 2), "…");
    assert_eq!(tail("   ", 0), "");
}

#[test]
fn dependency_status_and_install_outcome() {
    let s = status(Some("/opt/homebrew/bin/caddy".to_string()), None);
    assert!(s.caddy_installed);
    assert_eq!(s.caddy_path.as_deref(), Some("/opt/homebrew/bin/caddy"));
    assert!(!s.homebrew_installed);
    let s = status(None, Some("/b".to_string()));
    assert!(!s.caddy_installed && s.caddy_path.is_none() && s.homebrew_installed);
    assert_eq!(install_outcome(true, false, "x"), Ok(()));
    assert_eq!(install_outcome(false, true, "x"), Ok(()));
    assert_eq!(install_outcome(false, false, "  oops \n"), Err("caddy 설치 실패:\noops".to_string()));
    assert_eq!(
        brew_candidates(Some("/bin")),
        vec!["/bin/brew", "/opt/homebrew/bin/brew", "/usr/local/bin/brew"]
    );
    assert_eq!(brew_path(None, &vec![false, true]).as_deref(), Some("/usr/local/bin/brew"));
}

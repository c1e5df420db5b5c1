use perch::node_env::{
    bundle_content, bundle_path, caddy_root_cert_path, is_enabled, plist_content, plist_path, strip_managed,
    zshenv_block, zshenv_path, zshenv_with_block, zshenv_without_block, ZSHENV_BLOCK_END,
    ZSHENV_BLOCK_START,
};

#[test]
fn block_contains_both_levers() {
    let b = zshenv_block("/tmp/ca.pem");
    assert!(b.starts_with(ZSHENV_BLOCK_START));
    assert!(b.trim_end().ends_with(ZSHENV_BLOCK_END));
    assert!(b.contains("export NODE_EXTRA_CA_CERTS=\"/tmp/ca.pem\""));
    assert!(b.contains("--use-system-ca"));
}

#[test]
fn strip_removes_own_block_and_is_idempotent() {
    let base = ". \"$HOME/.cargo/env\"";
    let once = format!("{base}\n\n{}", zshenv_block("/tmp/ca.pem"));
    assert_eq!(strip_managed(&once), base);
    let twice = format!("{once}\n\n{}", zshenv_block("/tmp/ca.pem"));
    assert_eq!(strip_managed(&twice), base);
}

#[test]
fn strip_migrates_legacy_single_line_marker() {
    let legacy = ". \"$HOME/.cargo/env\"\n\n# bellboy:node-tls\nexport NODE_EXTRA_CA_CERTS=\"/old/perch/ca-bundle.pem\"\n";
    let stripped = strip_managed(legacy);
    assert!(!stripped.contains("perch"));
    assert!(!stripped.contains("bellboy:node-tls"));
    assert!(stripped.contains(".cargo/env"));
}

#[test]
fn block_exact_text() {
    let b = zshenv_block("/x/ca.pem");
    let lines: Vec<&str> = b.lines().collect();
    assert_eq!(lines.len(), 10);
    assert_eq!(lines[2], "export NODE_EXTRA_CA_CERTS=\"/x/ca.pem\"");
    assert_eq!(lines[5], "case \":$NODE_OPTIONS:\" in");
    assert_eq!(lines[8], "esac");
    assert!(!b.ends_with('\n'));
}

#[test]
fn legacy_marker_without_export_keeps_next_line() {
    let text = "a\n# bellboy:node-tls\necho hi\n";
    assert_eq!(strip_managed(text), "a\necho hi");
}

#[test]
fn add_then_add_again_keeps_one_block() {
    let e = "export PATH=/bin\n\n\n";
    let once = zshenv_with_block(e, "/a.pem");
    let twice = zshenv_with_block(&once, "/b.pem");
    assert_eq!(twice, zshenv_with_block(e, "/b.pem"));
    assert_eq!(twice.matches(ZSHENV_BLOCK_START).count(), 1);
    assert_eq!(
        once,
        format!("export PATH=/bin\n\n{}\n", zshenv_block("/a.pem"))
    );
}

#[test]
fn remove_after_add() {
    let e = "export PATH=/bin";
    let added = zshenv_with_block(e, "/a.pem");
    assert_eq!(zshenv_without_block(&added), "export PATH=/bin\n");
    assert_eq!(zshenv_without_block(""), "");
    assert_eq!(zshenv_with_block("", "/a.pem"), format!("{}\n", zshenv_block("/a.pem")));
}

#[test]
fn bundle_and_plist_texts() {
    assert_eq!(bundle_content(Some("SYS"), Some("ROOT")), "SYS\n# Caddy local CA (managed by Bellboy)\nROOT");
    assert_eq!(bundle_content(None, Some("R")), "\n# Caddy local CA (managed by Bellboy)\nR");
    assert_eq!(bundle_content(Some("SYS"), None), "SYS");
    let p = plist_content("/b.pem");
    assert!(p.starts_with("<?xml version=\"1.0\" encoding=\"UTF-8\"?>\n"));
    assert!(p.contains("<string>io.bellboy.node-tls</string>"));
    assert!(p.contains("        <string>/b.pem</string>\n    </array>"));
    assert!(p.ends_with("</plist>\n"));
}

#[test]
fn node_env_paths() {
    assert_eq!(plist_path("/Users/me"), "/Users/me/Library/LaunchAgents/io.bellboy.node-tls.plist");
    assert_eq!(zshenv_path("/Users/me/"), "/Users/me/.zshenv");
    assert_eq!(bundle_path("/d"), "/d/ca-bundle.pem");
    assert_eq!(
        caddy_root_cert_path("/h"),
        "/h/Library/Application Support/Caddy/pki/authorities/local/root.crt"
    );
}

#[test]
fn enabled_only_with_home_and_plist() {
    assert!(is_enabled(true, true));
    assert!(!is_enabled(true, false));
    assert!(!is_enabled(false, false));
}

#[test]
fn strip_is_idempotent_on_crlf_file() {
    let base = ". \"$HOME/.cargo/env\"\r\nexport PATH=\"$PATH:/x\"\r\n";
    let with = zshenv_with_block(base, "/b.pem");
    let once = strip_managed(&with);
    assert_eq!(once, ". \"$HOME/.cargo/env\"\nexport PATH=\"$PATH:/x\"");
    assert_eq!(strip_managed(&once), once);
    assert_eq!(zshenv_without_block(&with), zshenv_without_block(base));
}

#[test]
fn stripped_text_has_no_marker_line() {
    let e = format!("a\n{}\nb\n# bellboy:node-tls\nexport NODE_EXTRA_CA_CERTS=\"/x\"\n", zshenv_block("/c.pem"));
    let out = strip_managed(&e);
    for l in out.lines() {
        let t = l.trim();
        assert!(t != ZSHENV_BLOCK_START && t != ZSHENV_BLOCK_END && t != "# bellboy:node-tls");
    }
    assert_eq!(out, "a\nb");
}

use perch::system_trust::{
    add_trusted_cert_applescript, escape_applescript_string, is_user_cancelled,
    root_crt_path_from_home, status, status_for_root_path, trust_caddy_root, CertificateTrustState,
};

#[test]
fn root_path_uses_caddy_local_ca_location() {
    let path = root_crt_path_from_home("/Users/me");
    assert_eq!(
        path,
        "/Users/me/Library/Application Support/Caddy/pki/authorities/local/root.crt"
    );
}

#[test]
fn user_cancel_detection_matches_osascript_errors() {
    assert!(is_user_cancelled("execution error: User canceled. (-128)"));
    assert!(is_user_cancelled("error -128"));
    assert!(!is_user_cancelled("permission denied"));
}

#[test]
fn applescript_escapes_certificate_path() {
    let script =
        add_trusted_cert_applescript("/Users/me/Library/Application Support/Caddy/root.crt");
    assert!(script.contains("quoted form of"));
    assert!(script.contains("/Users/me/Library/Application Support/Caddy/root.crt"));
}

#[test]
fn escaping_is_exact() {
    assert_eq!(escape_applescript_string("a\"b\\c"), "a\\\"b\\\\c");
    assert_eq!(
        add_trusted_cert_applescript("/x\"y"),
        "do shell script \"/usr/bin/security add-trusted-cert -d -r trustRoot -p ssl -k /Library/Keychains/System.keychain \" & quoted form of \"/x\\\"y\" with administrator privileges"
    );
}

#[test]
fn statuses() {
    let s = status_for_root_path("/r.crt", false, true);
    assert_eq!(s.state, CertificateTrustState::RootMissing);
    assert_eq!(s.root_path.as_deref(), Some("/r.crt"));
    assert_eq!(status_for_root_path("/r.crt", true, true).state, CertificateTrustState::Trusted);
    let u = status_for_root_path("/r.crt", true, false);
    assert_eq!(u.state, CertificateTrustState::Untrusted);
    assert!(u.message.contains("아직"));
    assert!(u.node_hint.contains("--use-system-ca"));
    assert!(status(None, true, true).is_err());
    let s = status(Some("/h"), true, false).unwrap();
    assert_eq!(
        s.root_path.as_deref(),
        Some("/h/Library/Application Support/Caddy/pki/authorities/local/root.crt")
    );
    assert_eq!(s.state, CertificateTrustState::Untrusted);
    let t = trust_caddy_root(Some("/h"), false, Err("never run".to_string()), false, false).unwrap();
    assert_eq!(t.state, CertificateTrustState::RootMissing);
    assert_eq!(
        trust_caddy_root(Some("/h"), true, Err("denied".to_string()), true, false).unwrap_err(),
        "denied"
    );
    let t = trust_caddy_root(Some("/h"), true, Ok(()), true, true).unwrap();
    assert_eq!(t.state, CertificateTrustState::Trusted);
    assert_eq!(trust_caddy_root(None, true, Ok(()), true, true).unwrap_err(), "HOME not set");
}

fn read_literal_body(t: &str) -> Option<String> {
    let mut out = String::new();
    let mut it = t.chars();
    while let Some(c) = it.next() {
        match c {
            '\\' => match it.next() {
                Some(n) if n == '\\' || n == '"' => out.push(n),
                _ => return None,
            },
            '"' => return None,
            _ => out.push(c),
        }
    }
    Some(out)
}

#[test]
fn escaped_path_reads_back_unchanged() {
    for s in ["", "/plain/path", "a\"b", "tail\\", "\\\"\\\"", "공백 있는/경로\\n"] {
        assert_eq!(read_literal_body(&escape_applescript_string(s)).as_deref(), Some(s));
    }
}

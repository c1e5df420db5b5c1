use perch::hosts::{merge_block, sync, MARKER_END, MARKER_START};
use perch::model::{enabled_domains, Config, Site};

#[test]
fn merge_adds_block_when_absent() {
    let current = "127.0.0.1\tlocalhost\n::1\tlocalhost\n";
    let domains = vec!["myapp.test".to_string(), "other.test".to_string()];
    let out = merge_block(current, &domains);
    assert!(out.contains("127.0.0.1\tlocalhost"));
    assert!(out.contains(MARKER_START));
    assert!(out.contains("127.0.0.1\tmyapp.test"));
    assert!(out.contains("127.0.0.1\tother.test"));
    assert!(out.contains(MARKER_END));
}

#[test]
fn merge_replaces_existing_block() {
    let current = format!(
        "127.0.0.1\tlocalhost\n\n{}\n127.0.0.1\told.test\n{}\n",
        MARKER_START, MARKER_END
    );
    let domains = vec!["new.test".to_string()];
    let out = merge_block(&current, &domains);
    assert!(!out.contains("old.test"));
    assert!(out.contains("new.test"));
}

#[test]
fn merge_removes_block_when_domains_empty() {
    let current = format!(
        "127.0.0.1\tlocalhost\n{}\n127.0.0.1\tgone.test\n{}\n",
        MARKER_START, MARKER_END
    );
    let out = merge_block(&current, &[]);
    assert!(!out.contains(MARKER_START));
    assert!(!out.contains("gone.test"));
    assert!(out.contains("127.0.0.1\tlocalhost"));
}

#[test]
fn merge_idempotent() {
    let current = "127.0.0.1\tlocalhost\n";
    let domains = vec!["a.test".to_string()];
    let once = merge_block(current, &domains);
    let twice = merge_block(&once, &domains);
    assert_eq!(once, twice);
}

#[test]
fn merge_exact_text() {
    let out = merge_block("127.0.0.1\tlocalhost\n\n\n", &["a.test".to_string()]);
    assert_eq!(
        out,
        format!(
            "127.0.0.1\tlocalhost\n\n{}\n127.0.0.1\ta.test\n::1\ta.test\n{}\n",
            MARKER_START, MARKER_END
        )
    );
}

#[test]
fn merge_keeps_lines_after_block_and_strips_crlf() {
    let current = format!("a\r\n{}\r\nx\r\n{}\r\nb", MARKER_START, MARKER_END);
    let out = merge_block(&current, &[]);
    assert_eq!(out, "a\nb\n");
}

#[test]
fn merge_unterminated_block_drops_rest() {
    let current = format!("a\n{}\nstale\nmore\n", MARKER_START);
    assert_eq!(merge_block(&current, &[]), "a\n");
}

#[test]
fn merge_of_empty_file_is_not_idempotent_on_first_pass() {
    // With nothing outside the block, the first merge starts with one blank
    // line and the second with two; from then on the text is stable.
    let d = vec!["a.test".to_string()];
    let once = merge_block("", &d);
    let twice = merge_block(&once, &d);
    let thrice = merge_block(&twice, &d);
    assert!(once.starts_with("\n#"));
    assert!(twice.starts_with("\n\n#"));
    assert_eq!(twice, thrice);
}

#[test]
fn merge_new_domains_replace_old() {
    let base = "127.0.0.1\tlocalhost\n";
    let first = merge_block(base, &["old.test".to_string()]);
    let second = merge_block(&first, &["new.test".to_string()]);
    assert_eq!(second, merge_block(base, &["new.test".to_string()]));
}

#[test]
fn sync_reports_no_change() {
    let current = "127.0.0.1\tlocalhost\n";
    let d = vec!["a.test".to_string()];
    let next = sync(current, &d).unwrap();
    assert_eq!(sync(&next, &d), None);
    assert_eq!(sync("x\n", &[]), None);
    assert_eq!(sync("x\n\n", &[]), Some("x\n".to_string()));
}

#[test]
fn enabled_domains_filters_disabled_sites() {
    let site = |d: &str, enabled: bool| Site {
        id: d.to_string(),
        domain: d.to_string(),
        upstream: "localhost:3000".to_string(),
        enabled,
        rules: vec![],
    };
    let cfg = Config { sites: vec![site("a.test", true), site("b.test", false), site("c.test", true)] };
    assert_eq!(enabled_domains(&cfg), vec!["a.test".to_string(), "c.test".to_string()]);
    assert!(enabled_domains(&Config::default()).is_empty());
}

#[test]
fn merge_idempotent_on_crlf_file() {
    let current = "127.0.0.1\tlocalhost\r\n::1\tlocalhost\r\n";
    let domains = vec!["a.test".to_string()];
    let once = merge_block(current, &domains);
    assert_eq!(once, format!("127.0.0.1\tlocalhost\n::1\tlocalhost\n\n{}\n127.0.0.1\ta.test\n::1\ta.test\n{}\n", MARKER_START, MARKER_END));
    assert_eq!(merge_block(&once, &domains), once);
}

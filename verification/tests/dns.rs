use perch::dns::{
    dig_args, first_ipv4, is_ipv4, query_outcome, resolve_external, resolve_next, ResolveStep,
};

#[test]
fn ipv4_detection() {
    assert!(is_ipv4("127.0.0.1"));
    assert!(is_ipv4("8.8.8.8"));
    assert!(!is_ipv4("example.com."));
    assert!(!is_ipv4("1.2.3"));
    assert!(!is_ipv4("1.2.3.4.5"));
    assert!(!is_ipv4(""));
    assert!(!is_ipv4("1.2.3.300"));
}

#[test]
fn first_ipv4_skips_cname() {
    let out = "example.com.\n1.2.3.4\n5.6.7.8\n";
    assert_eq!(first_ipv4(out).as_deref(), Some("1.2.3.4"));
}

#[test]
fn first_ipv4_empty() {
    assert_eq!(first_ipv4(""), None);
    assert_eq!(first_ipv4("\n\n"), None);
}

#[test]
fn ipv4_parts_are_digits_only() {
    assert!(!is_ipv4("+1.2.3.4"));
    assert!(!is_ipv4("1.2.+3.4"));
    assert!(is_ipv4("001.2.3.255"));
    assert!(!is_ipv4("1..3.4"));
    assert!(!is_ipv4("-1.2.3.4"));
    assert!(!is_ipv4("1.2.3.256"));
    assert!(!is_ipv4(" 1.2.3.4"));
    assert_eq!(first_ipv4("  9.9.9.9  \n").as_deref(), Some("9.9.9.9"));
}

#[test]
fn resolver_steps() {
    match resolve_external("") {
        ResolveStep::Done(Err(e)) => assert_eq!(e, "empty host"),
        _ => panic!("empty host must fail"),
    }
    match resolve_external("example.com") {
        ResolveStep::Query { resolver } => assert_eq!(resolver, "8.8.8.8"),
        _ => panic!("first resolver expected"),
    }
    match resolve_next(0, Err("timeout".to_string())) {
        ResolveStep::Query { resolver } => assert_eq!(resolver, "1.1.1.1"),
        _ => panic!("second resolver expected"),
    }
    match resolve_next(1, Err("timeout".to_string())) {
        ResolveStep::Done(Err(e)) => assert_eq!(e, "timeout"),
        _ => panic!("last error expected"),
    }
    match resolve_next(0, Ok("1.2.3.4".to_string())) {
        ResolveStep::Done(Ok(ip)) => assert_eq!(ip, "1.2.3.4"),
        _ => panic!("address expected"),
    }
}

#[test]
fn dig_outcomes() {
    assert_eq!(query_outcome("h", true, "0", "cname.\n4.3.2.1\n", ""), Ok("4.3.2.1".to_string()));
    assert_eq!(
        query_outcome("h", true, "0", "cname.\n", ""),
        Err("no A record returned for h".to_string())
    );
    assert_eq!(
        query_outcome("h", false, "exit status: 9", "", "boom"),
        Err("dig exited exit status: 9: boom".to_string())
    );
    assert_eq!(
        dig_args("example.com", "8.8.8.8"),
        vec!["+short", "+tries=1", "+time=2", "@8.8.8.8", "example.com", "A"]
    );
}

fn run_search(host: &str, answers: &[Result<String, String>]) -> (Vec<String>, Result<String, String>) {
    let mut asked = Vec::new();
    let mut step = resolve_external(host);
    let mut attempt = 0usize;
    loop {
        match step {
            ResolveStep::Done(r) => return (asked, r),
            ResolveStep::Query { resolver } => {
                asked.push(resolver);
                step = resolve_next(attempt, answers[attempt].clone());
                attempt += 1;
            }
        }
    }
}

#[test]
fn resolvers_asked_in_order_with_fallback() {
    let ok = |s: &str| Ok::<String, String>(s.to_string());
    let err = |s: &str| Err::<String, String>(s.to_string());
    assert_eq!(run_search("", &[]), (vec![], err("empty host")));
    assert_eq!(
        run_search("a.com", &[ok("1.2.3.4"), ok("5.6.7.8")]),
        (vec!["8.8.8.8".to_string()], ok("1.2.3.4"))
    );
    assert_eq!(
        run_search("a.com", &[err("timeout"), ok("5.6.7.8")]),
        (vec!["8.8.8.8".to_string(), "1.1.1.1".to_string()], ok("5.6.7.8"))
    );
    assert_eq!(
        run_search("a.com", &[err("first"), err("second")]),
        (vec!["8.8.8.8".to_string(), "1.1.1.1".to_string()], err("second"))
    );
}

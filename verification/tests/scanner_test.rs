use fatt::config::{ConfigError, ScanConfig};
use fatt::rules::{load_rules, Rule, RuleSet, Severity};
use fatt::scanner::{
    check_path, check_signature, plan_scan, DomainOutcome, DomainResult, DomainScan, EngineAction,
    PathCheck, Phase, ScanAction, ScanEngine, ScanEvent, ScanStart, DEFAULT_BATCH_SIZE,
};

#[test]
fn test_check_path() {
    // The light request is answered with 200: the path exists.
    assert_eq!(check_path(Some(200), true), PathCheck::Exists);
    // The light request is answered with 404: the path does not exist.
    assert_eq!(check_path(Some(404), true), PathCheck::Missing);
}

#[test]
fn test_check_signature() {
    let body = "<html><title>Admin Panel</title></html>";
    assert!(check_signature(200, Some(body), "<title>Admin Panel</title>"));
    assert!(!check_signature(200, Some(body), "login form"));
}

#[test]
fn path_checks_by_status() {
    for code in [200u16, 204, 299, 300, 301, 302, 399] {
        assert_eq!(check_path(Some(code), true), PathCheck::Exists);
        assert_eq!(check_path(Some(code), false), PathCheck::Exists);
    }
    for code in [0u16, 100, 199, 400, 401, 403, 404, 429, 500, 503, 599, u16::MAX] {
        assert_eq!(check_path(Some(code), true), PathCheck::Missing);
        assert_eq!(check_path(Some(code), false), PathCheck::Missing);
    }
    // A server that refuses the method is asked again with a full fetch.
    assert_eq!(check_path(Some(405), true), PathCheck::Retry);
    assert_eq!(check_path(Some(501), true), PathCheck::Retry);
    assert_eq!(check_path(Some(405), false), PathCheck::Missing);
    assert_eq!(check_path(Some(501), false), PathCheck::Missing);
    assert_eq!(check_path(None, true), PathCheck::Retry);
    assert_eq!(check_path(None, false), PathCheck::Missing);
}

#[test]
fn signature_checks() {
    assert!(check_signature(200, Some("abc"), ""));
    assert!(check_signature(299, Some("abc"), "bc"));
    assert!(!check_signature(300, Some("abc"), "bc"));
    assert!(!check_signature(199, Some("abc"), "bc"));
    assert!(!check_signature(404, Some("abc"), "abc"));
    assert!(!check_signature(200, None, "abc"));
    assert!(!check_signature(200, None, ""));
    assert!(!check_signature(200, Some("abc"), "abcd"));
    assert!(!check_signature(200, Some("Admin panel"), "Admin Panel"));
}

fn admin_rules() -> RuleSet {
    load_rules(vec![Rule::new(
        "Admin Panel",
        "/admin",
        "Admin Panel",
        "Admin panel detection",
        Severity::High,
    )])
}

fn url_of_action(action: &ScanAction) -> &str {
    match action {
        ScanAction::Head { url } | ScanAction::Get { url } | ScanAction::FetchBody { url } => url,
        other => panic!("no url in {:?}", other),
    }
}

#[test]
fn admin_panel_is_detected() {
    let scan = DomainScan::new("example.com", admin_rules());
    assert_eq!(scan.phase(), Phase::Pending);
    assert!(!scan.is_finished());

    let (scan, action) = scan.advance(ScanEvent::Start);
    assert!(matches!(action, ScanAction::Resolve { ref domain } if domain == "example.com"));
    assert_eq!(scan.phase(), Phase::Resolving);

    let (scan, action) = scan.advance(ScanEvent::Resolved { ip: Some("192.0.2.1".to_string()) });
    assert!(matches!(action, ScanAction::Head { .. }));
    assert_eq!(url_of_action(&action), "https://example.com/admin");
    assert_eq!(scan.phase(), Phase::Head { rule: 0 });

    let (scan, action) = scan.advance(ScanEvent::Status { code: 200 });
    assert!(matches!(action, ScanAction::FetchBody { .. }));
    assert_eq!(url_of_action(&action), "https://example.com/admin");

    let (scan, action) = scan.advance(ScanEvent::Body {
        code: 200,
        text: Some("<html><title>Admin Panel</title></html>".to_string()),
    });
    match action {
        ScanAction::Store { finding } => {
            assert_eq!(finding.domain, "example.com");
            assert_eq!(finding.rule_name, "Admin Panel");
            assert_eq!(finding.matched_path, "/admin");
            assert!(finding.detected);
        }
        other => panic!("unexpected: {:?}", other),
    }
    assert_eq!(scan.phase(), Phase::Store { rule: 0 });

    let (scan, action) = scan.advance(ScanEvent::Stored { ok: true });
    match action {
        ScanAction::Finish { outcome } => {
            assert_eq!(
                outcome,
                DomainOutcome { result: DomainResult::Scanned, tasks: 1, matches: 1 }
            );
        }
        other => panic!("unexpected: {:?}", other),
    }
    assert_eq!(scan.phase(), Phase::Done);
    assert!(scan.is_finished());
    assert_eq!(scan.matches(), 1);
    assert_eq!(scan.domain(), "example.com");
    assert_eq!(scan.findings().len(), 1);
    assert!(scan.findings()[0].detected);
    let findings = scan.into_findings();
    assert_eq!(findings.len(), 1);
}

#[test]
fn missing_path_is_not_fetched() {
    let scan = DomainScan::new("example.com", admin_rules());
    let (scan, _) = scan.advance(ScanEvent::Start);
    let (scan, _) = scan.advance(ScanEvent::Resolved { ip: Some("192.0.2.1".to_string()) });
    // The existence check is answered with 404: the finding is made at
    // once, and the page is never fetched.
    let (scan, action) = scan.advance(ScanEvent::Status { code: 404 });
    match action {
        ScanAction::Store { finding } => {
            assert_eq!(finding.rule_name, "Admin Panel");
            assert!(!finding.detected);
        }
        other => panic!("unexpected: {:?}", other),
    }
    let (scan, action) = scan.advance(ScanEvent::Stored { ok: true });
    assert!(matches!(
        action,
        ScanAction::Finish {
            outcome: DomainOutcome { result: DomainResult::Scanned, tasks: 1, matches: 0 }
        }
    ));
    assert_eq!(scan.matches(), 0);
    assert_eq!(scan.findings().len(), 1);
}

fn three_rules() -> RuleSet {
    load_rules(vec![
        Rule::new("Login Form", "login", "password", "Login form detection", Severity::Medium),
        Rule::new("Admin Panel", "/admin", "Admin Panel", "Admin panel detection", Severity::High),
        Rule::new("Not Found", "/not-found", "should-not-match", "Should not be found", Severity::Low),
    ])
}

#[test]
fn test_scan_domain() {
    // Three rules: on the first the page shows the signature, on the
    // second the light request fails and the page is fetched without the
    // signature in it, on the third the path is missing.
    let scan = DomainScan::new("http://127.0.0.1", three_rules());
    let (scan, action) = scan.advance(ScanEvent::Start);
    assert!(matches!(action, ScanAction::Resolve { ref domain } if domain == "127.0.0.1"));
    let (scan, action) = scan.advance(ScanEvent::Resolved { ip: Some("127.0.0.1".to_string()) });
    assert_eq!(url_of_action(&action), "http://127.0.0.1/admin");

    let (scan, action) = scan.advance(ScanEvent::Status { code: 200 });
    assert!(matches!(action, ScanAction::FetchBody { .. }));
    let (scan, action) = scan.advance(ScanEvent::Body {
        code: 200,
        text: Some("<html><title>Admin Panel</title></html>".to_string()),
    });
    assert!(matches!(action, ScanAction::Store { ref finding } if finding.detected));
    let (scan, action) = scan.advance(ScanEvent::Stored { ok: true });
    assert!(matches!(action, ScanAction::Head { .. }));
    assert_eq!(url_of_action(&action), "http://127.0.0.1/login");

    let (scan, action) = scan.advance(ScanEvent::RequestFailed);
    assert!(matches!(action, ScanAction::Get { .. }));
    assert_eq!(url_of_action(&action), "http://127.0.0.1/login");
    assert_eq!(scan.phase(), Phase::Get { rule: 1 });
    let (scan, action) = scan.advance(ScanEvent::Status { code: 200 });
    assert!(matches!(action, ScanAction::FetchBody { .. }));
    let (scan, action) = scan.advance(ScanEvent::Body {
        code: 200,
        text: Some("<html><form><input name='username'></form></html>".to_string()),
    });
    assert!(matches!(action, ScanAction::Store { ref finding } if !finding.detected));
    let (scan, action) = scan.advance(ScanEvent::Stored { ok: true });
    assert_eq!(url_of_action(&action), "http://127.0.0.1/not-found");

    let (scan, action) = scan.advance(ScanEvent::Status { code: 404 });
    assert!(matches!(action, ScanAction::Store { ref finding } if !finding.detected));
    let (scan, action) = scan.advance(ScanEvent::Stored { ok: true });
    assert!(matches!(
        action,
        ScanAction::Finish {
            outcome: DomainOutcome { result: DomainResult::Scanned, tasks: 3, matches: 1 }
        }
    ));

    // One finding for each rule, detected or not, in the order of the rules.
    let findings = scan.into_findings();
    assert_eq!(findings.len(), 3);
    assert_eq!(findings[0].rule_name, "Admin Panel");
    assert_eq!(findings[0].matched_path, "/admin");
    assert!(findings[0].detected);
    assert_eq!(findings[1].rule_name, "Login Form");
    assert_eq!(findings[1].matched_path, "login");
    assert!(!findings[1].detected);
    assert_eq!(findings[2].rule_name, "Not Found");
    assert!(!findings[2].detected);
    for finding in &findings {
        assert_eq!(finding.domain, "http://127.0.0.1");
    }
}

#[test]
fn unresolved_domain_skips_every_rule() {
    let scan = DomainScan::new("nowhere.invalid", three_rules());
    let (scan, _) = scan.advance(ScanEvent::Start);
    let (scan, action) = scan.advance(ScanEvent::Resolved { ip: None });
    assert!(matches!(
        action,
        ScanAction::Finish {
            outcome: DomainOutcome { result: DomainResult::Unresolved, tasks: 3, matches: 0 }
        }
    ));
    assert_eq!(scan.phase(), Phase::Unresolved);
    assert!(scan.is_finished());
    assert!(scan.findings().is_empty());
    // Nothing moves a scan that has ended.
    let (scan, action) = scan.advance(ScanEvent::Start);
    assert!(matches!(action, ScanAction::Unexpected));
    assert_eq!(scan.phase(), Phase::Unresolved);
}

#[test]
fn faults_of_cache_and_store_end_the_scan() {
    let scan = DomainScan::new("example.com", three_rules());
    let (scan, _) = scan.advance(ScanEvent::Start);
    let (scan, action) = scan.advance(ScanEvent::ResolveFailed);
    assert!(matches!(
        action,
        ScanAction::Finish {
            outcome: DomainOutcome { result: DomainResult::Failed, tasks: 3, matches: 0 }
        }
    ));
    assert_eq!(scan.phase(), Phase::Failed);

    let scan = DomainScan::new("example.com", three_rules());
    let (scan, _) = scan.advance(ScanEvent::Start);
    let (scan, _) = scan.advance(ScanEvent::Resolved { ip: Some("192.0.2.1".to_string()) });
    let (scan, _) = scan.advance(ScanEvent::Status { code: 200 });
    let (scan, _) = scan.advance(ScanEvent::Body { code: 200, text: Some("Admin Panel".to_string()) });
    let (scan, action) = scan.advance(ScanEvent::Stored { ok: false });
    assert!(matches!(
        action,
        ScanAction::Finish {
            outcome: DomainOutcome { result: DomainResult::Failed, tasks: 3, matches: 1 }
        }
    ));
    assert!(scan.is_finished());
}

#[test]
fn rate_limit_makes_the_scan_pause() {
    let scan = DomainScan::new("example.com", three_rules());
    let (scan, _) = scan.advance(ScanEvent::Start);
    let (scan, _) = scan.advance(ScanEvent::Resolved { ip: Some("192.0.2.1".to_string()) });
    let (scan, action) = scan.advance(ScanEvent::Status { code: 429 });
    assert!(matches!(action, ScanAction::Store { ref finding } if !finding.detected));
    let (scan, action) = scan.advance(ScanEvent::Stored { ok: true });
    assert!(matches!(action, ScanAction::Backoff));
    assert_eq!(scan.phase(), Phase::Backoff { rule: 0 });
    // The probe is not made again: the next rule follows the pause.
    let (scan, action) = scan.advance(ScanEvent::BackoffElapsed);
    assert!(matches!(action, ScanAction::Head { .. }));
    assert_eq!(url_of_action(&action), "https://example.com/login");
    assert_eq!(scan.phase(), Phase::Head { rule: 1 });

    // A server that refuses the light request is asked with a full fetch.
    let (scan, action) = scan.advance(ScanEvent::Status { code: 405 });
    assert!(matches!(action, ScanAction::Get { .. }));
    let (scan, action) = scan.advance(ScanEvent::Status { code: 405 });
    assert!(matches!(action, ScanAction::Store { ref finding } if !finding.detected));
    let (scan, action) = scan.advance(ScanEvent::Stored { ok: true });
    assert!(matches!(action, ScanAction::Head { .. }));

    // A page that cannot be read, or is not fetched, is no match.
    let (scan, _) = scan.advance(ScanEvent::Status { code: 301 });
    assert_eq!(scan.phase(), Phase::Body { rule: 2 });
    let (scan, action) = scan.advance(ScanEvent::Body { code: 200, text: None });
    assert!(matches!(action, ScanAction::Store { ref finding } if !finding.detected));
    let (scan, action) = scan.advance(ScanEvent::Stored { ok: true });
    assert!(matches!(
        action,
        ScanAction::Finish {
            outcome: DomainOutcome { result: DomainResult::Scanned, tasks: 3, matches: 0 }
        }
    ));
    assert_eq!(scan.findings().len(), 3);
}

#[test]
fn events_that_do_not_fit_change_nothing() {
    let scan = DomainScan::new("example.com", admin_rules());
    let (scan, action) = scan.advance(ScanEvent::Status { code: 200 });
    assert!(matches!(action, ScanAction::Unexpected));
    assert_eq!(scan.phase(), Phase::Pending);
    let (scan, _) = scan.advance(ScanEvent::Start);
    let (scan, action) = scan.advance(ScanEvent::Stored { ok: true });
    assert!(matches!(action, ScanAction::Unexpected));
    assert_eq!(scan.phase(), Phase::Resolving);
    let (scan, _) = scan.advance(ScanEvent::Resolved { ip: Some("192.0.2.1".to_string()) });
    let (scan, action) = scan.advance(ScanEvent::BackoffElapsed);
    assert!(matches!(action, ScanAction::Unexpected));
    assert_eq!(scan.phase(), Phase::Head { rule: 0 });
    let (scan, action) = scan.advance(ScanEvent::Body { code: 200, text: None });
    assert!(matches!(action, ScanAction::Unexpected));
    assert_eq!(scan.phase(), Phase::Head { rule: 0 });
    assert!(scan.findings().is_empty());
}

#[test]
fn a_scan_without_rules_is_done_once_resolved() {
    let scan = DomainScan::new("  HTTPS://Example.COM:8443/path ", RuleSet { rules: vec![] });
    let (scan, action) = scan.advance(ScanEvent::Start);
    assert!(matches!(action, ScanAction::Resolve { ref domain } if domain == "example.com"));
    let (scan, action) = scan.advance(ScanEvent::Resolved { ip: Some("192.0.2.1".to_string()) });
    assert!(matches!(
        action,
        ScanAction::Finish {
            outcome: DomainOutcome { result: DomainResult::Scanned, tasks: 0, matches: 0 }
        }
    ));
    assert_eq!(scan.phase(), Phase::Done);
}

fn ready(start: Result<ScanStart, ConfigError>) -> ScanEngine {
    match start {
        Ok(ScanStart::Ready(engine)) => engine,
        other => panic!("unexpected: {:?}", other),
    }
}

fn scanned(tasks: usize, matches: usize) -> DomainOutcome {
    DomainOutcome { result: DomainResult::Scanned, tasks, matches }
}

#[test]
fn two_unique_domains_are_processed() {
    let list = ["a.com", "a.com", "# comment", "", "b.com"].join("\n");
    let rules = three_rules();
    let config = ScanConfig::default();
    let mut engine = ready(plan_scan(&config, true, true, &rules, &list, DEFAULT_BATCH_SIZE));
    assert_eq!(engine.progress().total_domains, 2);
    assert_eq!(engine.progress().total_tasks, 6);
    assert_eq!(engine.batch_count(), 1);

    let mut launched = Vec::new();
    let summary = loop {
        let (next, action) = engine.poll();
        engine = next;
        match action {
            EngineAction::Launch { domain } => {
                launched.push(domain);
                let (next, accepted) = engine.report(scanned(3, 1));
                assert!(accepted);
                engine = next;
            }
            EngineAction::Wait => panic!("nothing is running"),
            EngineAction::BatchDone { batch, errors } => {
                assert_eq!(batch, 0);
                assert_eq!(errors, 0);
            }
            EngineAction::Finished { summary } => break summary,
        }
    };
    assert_eq!(launched, vec!["a.com".to_string(), "b.com".to_string()]);
    assert_eq!(summary.domains_scanned, 2);
    assert_eq!(summary.total_checks, 6);
    assert_eq!(summary.findings, 2);
    assert_eq!(summary.errors, 0);
    let progress = engine.progress();
    assert!(progress.complete);
    assert_eq!(progress.domains_percent, 100);
    assert_eq!(progress.tasks_percent, 100);
}

#[test]
fn planning_fails_fast_and_ends_early() {
    let rules = three_rules();
    let mut config = ScanConfig::default();
    assert!(matches!(
        plan_scan(&config, false, true, &rules, "a.com", 10),
        Err(ConfigError::InputFileMissing { .. })
    ));
    assert!(matches!(
        plan_scan(&config, true, false, &rules, "a.com", 10),
        Err(ConfigError::RulesFileMissing { .. })
    ));
    config.concurrency = 0;
    assert!(matches!(
        plan_scan(&config, true, true, &rules, "a.com", 10),
        Err(ConfigError::ZeroConcurrency)
    ));
    config.concurrency = 4;
    let none = RuleSet { rules: vec![] };
    assert!(matches!(plan_scan(&config, true, true, &none, "a.com", 10), Ok(ScanStart::NoRules)));
    assert!(matches!(plan_scan(&config, true, true, &none, "", 10), Ok(ScanStart::NoRules)));
    assert!(matches!(
        plan_scan(&config, true, true, &rules, "# nothing\n\n", 10),
        Ok(ScanStart::NoDomains)
    ));
    assert!(matches!(plan_scan(&config, true, true, &rules, "a.com", 10), Ok(ScanStart::Ready(_))));
}

#[test]
fn engine_keeps_to_batches_and_concurrency() {
    let list = "d1\nd2\nd3\nd4\nd5\nd6\nd7";
    let rules = three_rules();
    let mut config = ScanConfig::default();
    config.concurrency = 2;
    let engine = ready(plan_scan(&config, true, true, &rules, list, 3));
    assert_eq!(engine.batch_count(), 3);
    let start = engine.progress();
    assert_eq!(start.domains_done, 0);
    assert_eq!(start.total_domains, 7);
    assert_eq!(start.total_tasks, 21);
    assert_eq!(start.domains_percent, 0);
    assert!(!start.complete);

    // Two scans start, the third must wait.
    let (engine, action) = engine.poll();
    assert!(matches!(action, EngineAction::Launch { ref domain } if domain == "d1"));
    let (engine, action) = engine.poll();
    assert!(matches!(action, EngineAction::Launch { ref domain } if domain == "d2"));
    assert_eq!(engine.in_flight(), 2);
    let (engine, action) = engine.poll();
    assert!(matches!(action, EngineAction::Wait));
    assert_eq!(engine.in_flight(), 2);

    // An outcome that does not account for every rule is refused.
    let (engine, accepted) = engine.report(scanned(2, 0));
    assert!(!accepted);
    let (engine, accepted) = engine.report(scanned(3, 4));
    assert!(!accepted);
    assert_eq!(engine.in_flight(), 2);

    let (engine, accepted) = engine.report(scanned(3, 2));
    assert!(accepted);
    assert_eq!(engine.in_flight(), 1);
    let (engine, action) = engine.poll();
    assert!(matches!(action, EngineAction::Launch { ref domain } if domain == "d3"));

    // The batch is launched, but not through: the next batch must wait.
    let (engine, action) = engine.poll();
    assert!(matches!(action, EngineAction::Wait));
    let unresolved = DomainOutcome { result: DomainResult::Unresolved, tasks: 3, matches: 0 };
    let (engine, accepted) = engine.report(unresolved);
    assert!(accepted);
    let (engine, action) = engine.poll();
    assert!(matches!(action, EngineAction::Wait));
    let failed = DomainOutcome { result: DomainResult::Failed, tasks: 3, matches: 0 };
    let (engine, accepted) = engine.report(failed);
    assert!(accepted);
    assert_eq!(engine.in_flight(), 0);
    // No scan is running: a report is refused.
    let (engine, accepted) = engine.report(scanned(3, 0));
    assert!(!accepted);

    let (engine, action) = engine.poll();
    assert!(matches!(action, EngineAction::BatchDone { batch: 0, errors: 2 }));
    let progress = engine.progress();
    assert_eq!(progress.domains_done, 3);
    assert_eq!(progress.tasks_done, 9);
    assert_eq!(progress.domains_percent, 42);
    assert_eq!(progress.tasks_percent, 42);
    assert!(!progress.complete);

    // The rest runs through.
    let mut engine = engine;
    let mut launched = Vec::new();
    let mut batches = Vec::new();
    let summary = loop {
        let (next, action) = engine.poll();
        engine = next;
        match action {
            EngineAction::Launch { domain } => {
                launched.push(domain);
                assert!(engine.in_flight() <= 2);
            }
            EngineAction::Wait => {
                let (next, accepted) = engine.report(scanned(3, 0));
                assert!(accepted);
                engine = next;
            }
            EngineAction::BatchDone { batch, errors } => batches.push((batch, errors)),
            EngineAction::Finished { summary } => break summary,
        }
    };
    assert_eq!(launched, vec!["d4", "d5", "d6", "d7"]);
    assert_eq!(batches, vec![(1, 0), (2, 0)]);
    assert_eq!(summary.domains_scanned, 7);
    assert_eq!(summary.total_checks, 21);
    assert_eq!(summary.findings, 2);
    assert_eq!(summary.errors, 2);
    // Once finished, the engine stays finished.
    let (engine, action) = engine.poll();
    assert!(matches!(action, EngineAction::Finished { .. }));
    assert!(engine.progress().complete);
}

#[test]
fn batch_size_zero_makes_one_batch() {
    let rules = three_rules();
    let config = ScanConfig::default();
    let engine = ready(plan_scan(&config, true, true, &rules, "a\nb\nc", 0));
    assert_eq!(engine.batch_count(), 1);
    assert_eq!(engine.progress().total_domains, 3);
}

use fatt::rules::{add_rule, load_rules, remove_rule, Rule, RuleSet, Severity};

#[test]
fn test_severity_ordering() {
    assert!(Severity::Critical > Severity::High);
    assert!(Severity::High > Severity::Medium);
    assert!(Severity::Medium > Severity::Low);
    assert!(Severity::Low > Severity::Info);

    assert_eq!(Severity::Critical.to_value(), 5);
    assert_eq!(Severity::High.to_value(), 4);
    assert_eq!(Severity::Medium.to_value(), 3);
    assert_eq!(Severity::Low.to_value(), 2);
    assert_eq!(Severity::Info.to_value(), 1);
}

#[test]
fn test_rule_creation() {
    let rule = Rule::new(
        "Test Rule",
        "/test-path",
        "test-signature",
        "Test description",
        Severity::High,
    );

    assert_eq!(rule.name, "Test Rule");
    assert_eq!(rule.path, "/test-path");
    assert_eq!(rule.signature, "test-signature");
    assert_eq!(rule.description, Some("Test description".to_string()));
    assert_eq!(rule.severity, Some(Severity::High));
}

fn plain_rule(name: &str, path: &str, signature: &str) -> Rule {
    Rule {
        name: name.to_string(),
        path: path.to_string(),
        signature: signature.to_string(),
        description: None,
        severity: None,
    }
}

#[test]
fn test_load_rules_from_file() {
    // The rules as a rules file gives them, before they are ordered.
    let rules = vec![
        plain_rule("Test Rule 4", "/backup", "backup"),
        Rule::new("Test Rule 2", "/login", "<form", "Login form detection", Severity::Medium),
        Rule::new(
            "Test Rule 1",
            "/admin",
            "<title>Admin Panel</title>",
            "Admin panel detection",
            Severity::Critical,
        ),
        Rule::new("Test Rule 3", "/info", "phpinfo", "Info page detection", Severity::Low),
    ];

    let ruleset = load_rules(rules);

    assert_eq!(ruleset.rules.len(), 4);

    let first_rule = &ruleset.rules[0];
    assert_eq!(first_rule.name, "Test Rule 1");
    assert_eq!(first_rule.path, "/admin");
    assert_eq!(first_rule.signature, "<title>Admin Panel</title>");
    assert_eq!(first_rule.description, Some("Admin panel detection".to_string()));
    assert_eq!(first_rule.severity, Some(Severity::Critical));

    assert_eq!(ruleset.rules[0].severity, Some(Severity::Critical));
    assert_eq!(ruleset.rules[1].severity, Some(Severity::Medium));
    assert_eq!(ruleset.rules[2].severity, Some(Severity::Low));
    assert!(ruleset.rules[3].severity.is_none());
}

#[test]
fn test_ruleset_sort_by_severity() {
    let mut ruleset = RuleSet {
        rules: vec![
            Rule::new("Info Rule", "/path1", "sig1", "desc1", Severity::Info),
            Rule::new("Critical Rule", "/path2", "sig2", "desc2", Severity::Critical),
            Rule::new("Medium Rule", "/path3", "sig3", "desc3", Severity::Medium),
            Rule::new("High Rule", "/path4", "sig4", "desc4", Severity::High),
        ],
    };

    ruleset.sort_by_severity();

    assert_eq!(ruleset.rules[0].severity, Some(Severity::Critical));
    assert_eq!(ruleset.rules[1].severity, Some(Severity::High));
    assert_eq!(ruleset.rules[2].severity, Some(Severity::Medium));
    assert_eq!(ruleset.rules[3].severity, Some(Severity::Info));
}

fn names(set: &RuleSet) -> Vec<&str> {
    set.rules.iter().map(|r| r.name.as_str()).collect()
}

#[test]
fn sorting_is_stable_and_idempotent() {
    let mut set = RuleSet {
        rules: vec![
            plain_rule("n1", "/a", "x"),
            Rule::new("low1", "/b", "x", "d", Severity::Low),
            Rule::new("crit1", "/c", "x", "d", Severity::Critical),
            plain_rule("n2", "/d", "x"),
            Rule::new("low2", "/e", "x", "d", Severity::Low),
            Rule::new("info1", "/f", "x", "d", Severity::Info),
            Rule::new("crit2", "/g", "x", "d", Severity::Critical),
            Rule::new("high1", "/h", "x", "d", Severity::High),
            Rule::new("low3", "/i", "x", "d", Severity::Low),
            Rule::new("med1", "/j", "x", "d", Severity::Medium),
        ],
    };
    set.sort_by_severity();
    let once = vec![
        "crit1", "crit2", "high1", "med1", "low1", "low2", "low3", "info1", "n1", "n2",
    ];
    assert_eq!(names(&set), once);
    set.sort_by_severity();
    assert_eq!(names(&set), once);
}

#[test]
fn sorting_nothing_and_one() {
    let mut empty = RuleSet { rules: vec![] };
    empty.sort_by_severity();
    assert!(empty.rules.is_empty());

    let mut one = RuleSet { rules: vec![plain_rule("only", "/", "x")] };
    one.sort_by_severity();
    assert_eq!(names(&one), vec!["only"]);
    assert_eq!(one.rules[0].path, "/");
    assert_eq!(one.rules[0].signature, "x");
}

#[test]
fn severity_comparisons_follow_the_rank() {
    let all = [
        Severity::Info,
        Severity::Low,
        Severity::Medium,
        Severity::High,
        Severity::Critical,
    ];
    for a in all.iter() {
        for b in all.iter() {
            assert_eq!(a < b, a.to_value() < b.to_value());
            assert_eq!(a > b, a.to_value() > b.to_value());
            assert_eq!(a == b, a.to_value() == b.to_value());
            assert_eq!(a.partial_cmp(b), a.to_value().partial_cmp(&b.to_value()));
        }
    }
    assert_eq!(Severity::Critical.label(), "critical");
    assert_eq!(Severity::High.label(), "high");
    assert_eq!(Severity::Medium.label(), "medium");
    assert_eq!(Severity::Low.label(), "low");
    assert_eq!(Severity::Info.label(), "info");
}

#[test]
fn adding_rules_skips_names_that_are_taken() {
    let mut existing = RuleSet {
        rules: vec![
            Rule::new("a", "/a", "sa", "d", Severity::High),
            Rule::new("b", "/b", "sb", "d", Severity::Low),
        ],
    };
    let incoming = RuleSet {
        rules: vec![
            Rule::new("b", "/other", "so", "d", Severity::Critical),
            Rule::new("c", "/c", "sc", "d", Severity::Critical),
            Rule::new("c", "/c2", "sc2", "d", Severity::Info),
            plain_rule("d", "/d", "sd"),
        ],
    };
    let added = add_rule(&mut existing, incoming);
    assert_eq!(added, 2);
    assert_eq!(names(&existing), vec!["a", "b", "c", "d"]);
    assert_eq!(existing.rules[1].path, "/b");
    assert_eq!(existing.rules[2].path, "/c");
}

#[test]
fn removing_a_rule_by_name() {
    let mut set = RuleSet {
        rules: vec![
            Rule::new("a", "/a", "sa", "d", Severity::High),
            Rule::new("b", "/b", "sb", "d", Severity::Low),
            Rule::new("a", "/a2", "sa", "d", Severity::Low),
        ],
    };
    assert!(!remove_rule(&mut set, "zzz"));
    assert_eq!(names(&set), vec!["a", "b", "a"]);
    assert!(remove_rule(&mut set, "a"));
    assert_eq!(names(&set), vec!["b"]);
    assert!(!remove_rule(&mut set, "a"));
}

#[test]
fn clones_keep_every_field() {
    let rule = Rule::new("n", "/p", "s", "d", Severity::Medium);
    let copy = rule.clone();
    assert_eq!(copy.name, "n");
    assert_eq!(copy.path, "/p");
    assert_eq!(copy.signature, "s");
    assert_eq!(copy.description, Some("d".to_string()));
    assert_eq!(copy.severity, Some(Severity::Medium));
    let set = RuleSet { rules: vec![rule, plain_rule("m", "/q", "t")] };
    let copy = set.clone();
    assert_eq!(names(&copy), vec!["n", "m"]);
    assert_eq!(copy.rules[1].severity, None);
}

use fatt::db::{
    can_truncate, export_format, get_findings_count, get_unique_domains_count, insert_finding,
    named_format, record_finding, truncate_string, ExportFormat, FindingStore,
};
use fatt::rules::Severity;

#[test]
fn test_record_finding() {
    let mut store = FindingStore::new();

    let domain = "example.com";
    let rule_name = "test-rule";
    let matched_path = "/admin";
    let detected = true;

    let finding_id = insert_finding(&mut store, domain, rule_name, matched_path, detected).unwrap();
    assert!(finding_id > 0, "Finding ID should be positive");

    let count = store
        .rows()
        .iter()
        .filter(|row| row.domain == domain && row.rule_name == rule_name)
        .count();
    assert_eq!(count, 1, "One record should be found");

    let updated_id = insert_finding(&mut store, domain, rule_name, matched_path, false).unwrap();
    assert_eq!(finding_id, updated_id, "Update should return same record ID");

    let detected_value = store.get(domain, rule_name).unwrap().detected;
    assert!(!detected_value, "detected should be updated to 0");
}

#[test]
fn test_get_findings_count() {
    let mut store = FindingStore::new();

    for i in 0..5 {
        let domain = format!("example{}.com", i);
        let rule_name = format!("rule-{}", i);
        let severity = if i % 2 == 0 { Severity::High } else { Severity::Medium };
        record_finding(&mut store, &domain, "/admin", &rule_name, Some(severity)).unwrap();
    }

    let total_count = get_findings_count(&store, None);
    assert_eq!(total_count, 5, "Should have 5 total findings");

    let high_count = get_findings_count(&store, Some(Severity::High));
    assert_eq!(high_count, 5, "Should return all findings (severity ignored)");
}

#[test]
fn test_get_unique_domains_count() {
    let mut store = FindingStore::new();

    let domains = vec!["example.com", "example.com", "test.com", "test.com", "demo.com"];
    for (i, domain) in domains.iter().enumerate() {
        let rule_name = format!("rule-{}", i);
        record_finding(&mut store, domain, "/admin", &rule_name, Some(Severity::Medium)).unwrap();
    }

    let unique_count = get_unique_domains_count(&store);
    assert_eq!(unique_count, 3, "Should have 3 unique domains");
}

#[test]
fn second_write_to_a_pair_wins() {
    let mut store = FindingStore::new();
    assert_eq!(store.upsert("a.com", "r1", "/one", true, 100), Ok(1));
    assert_eq!(store.upsert("a.com", "r2", "/two", false, 101), Ok(2));
    assert_eq!(store.upsert("b.com", "r1", "/three", false, 102), Ok(3));
    assert_eq!(store.upsert("a.com", "r1", "/changed", false, 200), Ok(1));

    assert_eq!(store.rows().len(), 3);
    let same: Vec<_> = store
        .rows()
        .iter()
        .filter(|row| row.domain == "a.com" && row.rule_name == "r1")
        .collect();
    assert_eq!(same.len(), 1);
    let row = store.get("a.com", "r1").unwrap();
    assert_eq!(row.id, 1);
    assert_eq!(row.matched_path, "/changed");
    assert!(!row.detected);
    assert_eq!(row.scanned_at, 200);

    let untouched = store.get("a.com", "r2").unwrap();
    assert_eq!(untouched.id, 2);
    assert_eq!(untouched.matched_path, "/two");
    assert_eq!(untouched.scanned_at, 101);
    assert!(store.get("b.com", "r2").is_none());
    assert!(store.get("a.com", "").is_none());

    let ids: Vec<u64> = store.rows().iter().map(|row| row.id).collect();
    assert_eq!(ids, vec![1, 2, 3]);
    assert_eq!(get_unique_domains_count(&store), 2);
    assert_eq!(get_findings_count(&store, None), 3);
}

#[test]
fn rows_carry_the_time_of_the_write() {
    let mut store = FindingStore::new();
    assert_eq!(get_unique_domains_count(&store), 0);
    let id = record_finding(&mut store, "a.com", "/p", "rule", None).unwrap();
    assert_eq!(id, 1);
    let row = store.get("a.com", "rule").unwrap();
    assert!(row.detected);
    assert_eq!(row.matched_path, "/p");
    // Seconds since the epoch: the present is long after the year 2020.
    assert!(row.scanned_at > 1_600_000_000);
    let copy = row.clone();
    assert_eq!(copy.id, 1);
    assert_eq!(copy.domain, "a.com");
    assert_eq!(copy.scanned_at, row.scanned_at);
}

#[test]
fn truncation_cuts_to_the_width() {
    assert_eq!(truncate_string("short", 29), "short");
    assert_eq!(truncate_string("exactly-ten", 11), "exactly-ten");
    assert_eq!(truncate_string("exactly-ten!", 11), "exactly-...");
    assert_eq!(truncate_string("abcdef", 3), "...");
    assert_eq!(truncate_string("abcdef", 5), "ab...");
    assert_eq!(truncate_string("", 0), "");
    assert_eq!(
        truncate_string("a-very-long-domain-name.example.com", 29),
        "a-very-long-domain-name.ex..."
    );
    // Widths are in bytes: two bytes to each of these letters.
    assert_eq!(truncate_string("üüüüüü", 12), "üüüüüü");
    assert_eq!(truncate_string("üüüüüü", 11), "üüüü...");
}

#[test]
fn truncation_is_possible_between_characters() {
    assert!(can_truncate("short", 29));
    assert!(can_truncate("abcdef", 3));
    assert!(!can_truncate("abcdef", 2));
    assert!(!can_truncate("abcdef", 0));
    assert!(can_truncate("", 0));
    assert!(can_truncate("üüüüüü", 11));
    assert!(!can_truncate("üüüüüü", 10));
    assert!(can_truncate("üüüüüü", 9));
}

#[test]
fn export_formats_by_name() {
    assert_eq!(export_format("csv"), Some(ExportFormat::Csv));
    assert_eq!(export_format("CSV"), Some(ExportFormat::Csv));
    assert_eq!(export_format("Json"), Some(ExportFormat::Json));
    assert_eq!(export_format("xml"), None);
    assert_eq!(export_format(""), None);
    assert_eq!(export_format(" csv"), None);
    assert_eq!(named_format("csv"), Some(ExportFormat::Csv));
    assert_eq!(named_format("json"), Some(ExportFormat::Json));
    assert_eq!(named_format("CSV"), None);
}

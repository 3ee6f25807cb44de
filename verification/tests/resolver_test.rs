use fatt::resolver::{
    DnsResolver, DnsStats, Lookup, ResolverResult, Source, DEFAULT_TTL, NEGATIVE_TTL, TEST_ADDRESS,
};

fn answer_of(lookup: Lookup) -> Option<String> {
    match lookup {
        Lookup::Answer { ip } => ip,
        Lookup::Resolve => panic!("the resolver should not be asked"),
    }
}

#[test]
fn test_resolver_creation() {
    let resolver = DnsResolver::new_for_testing();
    assert!(resolver.is_test_resolver());
}

#[test]
fn test_resolver_lookup() {
    let mut resolver = DnsResolver::new_for_testing();
    assert!(resolver.is_test_resolver());

    let domain1 = "example.com";
    let domain2 = "test.example.org";

    let ip1 = answer_of(resolver.lookup(domain1));
    assert!(ip1.is_some(), "First lookup returned empty IP");
    assert_eq!(ip1.unwrap(), "192.0.2.1");

    let ip2 = answer_of(resolver.lookup(domain2));
    assert!(ip2.is_some(), "Second lookup returned empty IP");
    assert_eq!(ip2.unwrap(), "192.0.2.1");
}

#[test]
fn test_resolver_concurrency() {
    let mut resolver = DnsResolver::new_for_testing();

    let domains = vec!["domain1.com", "domain2.com", "domain3.com", "domain4.com", "domain5.com"];
    let mut results = Vec::new();
    for domain in &domains {
        results.push(resolver.lookup(domain));
    }

    assert_eq!(results.len(), domains.len());
    for result in results {
        assert!(matches!(result, Lookup::Answer { .. }));
    }
}

#[test]
fn test_resolver_cache() {
    let mut resolver = DnsResolver::new_for_testing();
    let domain = "cached-example.com";

    let ip1 = answer_of(resolver.lookup(domain));
    assert!(ip1.is_some(), "First lookup returned empty IP");

    let ip2 = answer_of(resolver.lookup(domain));
    assert!(ip2.is_some(), "Second lookup returned empty IP");

    assert_eq!(ip1, ip2);
    assert_eq!(resolver.stats().resolved, 1);
    assert_eq!(resolver.stats().cached, 1);
}

fn no_counts() -> DnsStats {
    DnsStats { resolved: 0, failed: 0, cached: 0, total: 0 }
}

#[test]
fn cache_round_trip_until_the_ttl() {
    let mut resolver = DnsResolver::new();
    assert!(!resolver.is_test_resolver());
    assert_eq!(resolver.stats(), no_counts());

    // Nothing is cached: the resolver must be asked, and nothing is counted.
    assert!(matches!(resolver.lookup_at("example.com", 1000), Lookup::Resolve));
    assert_eq!(resolver.stats(), no_counts());

    let made = resolver.complete_at("example.com", Ok("203.0.113.9".to_string()), 1000);
    assert_eq!(made.domain, "example.com");
    assert_eq!(made.ip, Some("203.0.113.9".to_string()));
    assert_eq!(made.error, None);
    assert_eq!(made.timestamp, 1000);
    assert_eq!(made.ttl, DEFAULT_TTL);
    assert_eq!(made.ttl, 3600);
    assert_eq!(resolver.stats(), DnsStats { resolved: 1, failed: 0, cached: 0, total: 1 });

    // Read back before the time to live is over.
    let entry = resolver.get_from_cache("example.com", 1000 + 3599).unwrap();
    assert_eq!(entry.ip, Some("203.0.113.9".to_string()));
    assert_eq!(entry.error, None);
    assert_eq!(entry.timestamp, 1000);
    assert_eq!(
        answer_of(resolver.lookup_at("example.com", 1000 + 3599)),
        Some("203.0.113.9".to_string())
    );
    assert_eq!(resolver.stats(), DnsStats { resolved: 1, failed: 0, cached: 1, total: 2 });

    // At the end of the time to live the entry is a miss.
    assert!(resolver.get_from_cache("example.com", 1000 + 3600).is_none());
    assert!(matches!(resolver.lookup_at("example.com", 1000 + 3600), Lookup::Resolve));
    assert_eq!(resolver.stats(), DnsStats { resolved: 1, failed: 0, cached: 1, total: 2 });

    // The key is the exact string.
    assert!(matches!(resolver.lookup_at("Example.com", 1001), Lookup::Resolve));
    assert_eq!(resolver.show_cache_status(), 1);
}

#[test]
fn failures_are_cached_for_a_short_while() {
    let mut resolver = DnsResolver::new();
    let made = resolver.complete_at("nowhere.invalid", Err("no such host".to_string()), 500);
    assert_eq!(made.ip, None);
    assert_eq!(made.error, Some("no such host".to_string()));
    assert_eq!(made.ttl, NEGATIVE_TTL);
    assert_eq!(made.ttl, 60);
    assert_eq!(resolver.stats(), DnsStats { resolved: 0, failed: 1, cached: 0, total: 1 });

    assert_eq!(answer_of(resolver.lookup_at("nowhere.invalid", 559)), None);
    assert_eq!(resolver.stats(), DnsStats { resolved: 0, failed: 1, cached: 1, total: 2 });
    let entry = resolver.get_from_cache("nowhere.invalid", 559).unwrap();
    assert_eq!(entry.error, Some("no such host".to_string()));
    assert!(matches!(resolver.lookup_at("nowhere.invalid", 560), Lookup::Resolve));

    // A later answer takes the place of the failure.
    resolver.complete_at("nowhere.invalid", Ok("198.51.100.1".to_string()), 600);
    assert_eq!(resolver.show_cache_status(), 1);
    assert_eq!(
        answer_of(resolver.lookup_at("nowhere.invalid", 601)),
        Some("198.51.100.1".to_string())
    );
}

#[test]
fn entries_with_no_ttl_are_not_kept() {
    let mut resolver = DnsResolver::new();
    resolver.add_to_cache(ResolverResult {
        domain: "a.com".to_string(),
        ip: Some("192.0.2.7".to_string()),
        error: None,
        timestamp: 10,
        ttl: 0,
    });
    assert_eq!(resolver.show_cache_status(), 0);
    assert!(resolver.get_from_cache("a.com", 10).is_none());

    resolver.add_to_cache(ResolverResult {
        domain: "a.com".to_string(),
        ip: Some("192.0.2.7".to_string()),
        error: None,
        timestamp: 10,
        ttl: 5,
    });
    resolver.add_to_cache(ResolverResult {
        domain: "b.com".to_string(),
        ip: None,
        error: Some("e".to_string()),
        timestamp: 10,
        ttl: 5,
    });
    assert_eq!(resolver.show_cache_status(), 2);
    assert!(resolver.get_from_cache("a.com", 14).is_some());
    assert!(resolver.get_from_cache("a.com", 15).is_none());
    // A clock that was set back does not spoil the entry.
    assert!(resolver.get_from_cache("a.com", 3).is_some());
    let domains: Vec<&str> = resolver.entries().iter().map(|e| e.domain.as_str()).collect();
    assert_eq!(domains, vec!["a.com", "b.com"]);
    // Adding to the cache counts nothing.
    assert_eq!(resolver.stats(), no_counts());
}

#[test]
fn freshness_of_an_entry() {
    let entry = ResolverResult {
        domain: "a.com".to_string(),
        ip: None,
        error: None,
        timestamp: 100,
        ttl: 10,
    };
    assert!(entry.is_fresh(100));
    assert!(entry.is_fresh(109));
    assert!(!entry.is_fresh(110));
    assert!(!entry.is_fresh(u64::MAX));
    assert!(entry.is_fresh(0));
    let never = ResolverResult { ttl: 0, ..entry.clone() };
    assert!(!never.is_fresh(100));
    assert!(!never.is_fresh(0));
    let always = ResolverResult { timestamp: 0, ttl: u64::MAX, ..entry.clone() };
    assert!(always.is_fresh(u64::MAX - 1));
    assert!(!always.is_fresh(u64::MAX));
}

#[test]
fn flushing_clears_entries_and_counters() {
    let mut resolver = DnsResolver::new_for_testing();
    assert_eq!(answer_of(resolver.lookup_at("a.com", 1)), Some(TEST_ADDRESS.to_string()));
    assert_eq!(answer_of(resolver.lookup_at("a.com", 2)), Some(TEST_ADDRESS.to_string()));
    assert_eq!(answer_of(resolver.lookup_at("b.com", 2)), Some(TEST_ADDRESS.to_string()));
    assert_eq!(resolver.stats(), DnsStats { resolved: 2, failed: 0, cached: 1, total: 3 });
    assert_eq!(resolver.show_cache_status(), 2);

    resolver.flush_cache();
    assert_eq!(resolver.show_cache_status(), 0);
    assert_eq!(resolver.stats(), no_counts());
    assert!(resolver.is_test_resolver());
    assert!(resolver.get_from_cache("a.com", 2).is_none());
}

#[test]
fn counters_stop_at_the_largest_value() {
    let full = DnsStats { resolved: u64::MAX, failed: 3, cached: u64::MAX - 1, total: u64::MAX };
    assert_eq!(
        full.count(Source::Resolved),
        DnsStats { resolved: u64::MAX, failed: 3, cached: u64::MAX - 1, total: u64::MAX }
    );
    assert_eq!(
        full.count(Source::Cache),
        DnsStats { resolved: u64::MAX, failed: 3, cached: u64::MAX, total: u64::MAX }
    );
    assert_eq!(
        full.count(Source::Failed),
        DnsStats { resolved: u64::MAX, failed: 4, cached: u64::MAX - 1, total: u64::MAX }
    );
}

#[test]
fn the_present_time_is_used() {
    let mut resolver = DnsResolver::new();
    let made = resolver.complete("example.com", Ok("192.0.2.55".to_string()));
    // Seconds since the epoch: the present is long after the year 2020.
    assert!(made.timestamp > 1_600_000_000);
    assert_eq!(answer_of(resolver.lookup("example.com")), Some("192.0.2.55".to_string()));
}

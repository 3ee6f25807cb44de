use fatt::config::{ConfigError, LogLevel, ScanConfig};

#[test]
fn test_scan_config_defaults() {
    let config = ScanConfig::default();

    assert_eq!(config.concurrency, 10);
    assert_eq!(config.http_timeout, 10);
    assert_eq!(config.connect_timeout, 5);
    assert_eq!(config.dns_timeout, 5);
    assert_eq!(config.input_file, "domains.txt");
    assert_eq!(config.rules_file, "rules.yaml");
    assert_eq!(config.db_path, "results.sqlite");
    assert!(!config.verbose);
    assert_eq!(config.verbosity, 0);
    assert!(!config.distributed);
    assert_eq!(config.output_file, Some("output.txt".to_string()));
    assert_eq!(config.dns_cache_size, 10000);
    assert!(!config.quiet);
    assert!(!config.dns_only);
}

#[test]
fn test_scan_config_custom() {
    let mut config = ScanConfig::default();
    config.concurrency = 20;
    config.http_timeout = 15;
    config.connect_timeout = 8;
    config.dns_timeout = 10;
    config.input_file = "custom-domains.txt".to_string();
    config.rules_file = "custom-rules.yaml".to_string();
    config.db_path = "custom-results.sqlite".to_string();
    config.verbose = true;
    config.verbosity = 2;
    config.distributed = true;
    config.output_file = Some("custom-output.txt".to_string());
    config.dns_cache_size = 5000;
    config.quiet = false;
    config.dns_only = false;

    assert_eq!(config.concurrency, 20);
    assert_eq!(config.http_timeout, 15);
    assert_eq!(config.connect_timeout, 8);
    assert_eq!(config.dns_timeout, 10);
    assert_eq!(config.input_file, "custom-domains.txt");
    assert_eq!(config.rules_file, "custom-rules.yaml");
    assert_eq!(config.db_path, "custom-results.sqlite");
    assert!(config.verbose);
    assert_eq!(config.verbosity, 2);
    assert!(config.distributed);
    assert_eq!(config.output_file, Some("custom-output.txt".to_string()));
    assert_eq!(config.dns_cache_size, 5000);
    assert!(!config.quiet);
    assert!(!config.dns_only);
}

#[test]
fn test_scan_config_validation() {
    // A concurrency of zero is refused once both files are found.
    let mut config = ScanConfig::default();
    config.concurrency = 0;

    let validation_result = config.validate(true, true);
    assert!(validation_result.is_err());
    assert!(validation_result.unwrap_err().message().contains("concurrency"));

    // A missing input file.
    let mut config = ScanConfig::default();
    config.input_file = "nonexistent-file.txt".to_string();

    let validation_result = config.validate(false, true);
    assert!(validation_result.is_err());
    assert!(validation_result.unwrap_err().message().contains("input file"));

    // Both files are there.
    let mut config = ScanConfig::default();
    config.input_file = "test-domains.txt".to_string();

    let validation_result = config.validate(true, true);
    assert!(validation_result.is_ok());
}

#[test]
fn test_config_log_output() {
    let mut config = ScanConfig::default();
    config.concurrency = 15;
    config.http_timeout = 20;
    config.input_file = "test-domains.txt".to_string();
    config.db_path = "test-results.sqlite".to_string();

    let lines = config.log_config();
    let contains = |text: &str| lines.iter().any(|line| line.message.contains(text));

    assert!(contains("Configuration:"));
    assert!(contains("input file: test-domains.txt"));
    assert!(contains("concurrency: 15"));
    assert!(contains("HTTP timeout: 20s"));
    assert!(contains("database: test-results.sqlite"));
}

#[test]
fn log_config_gives_every_line_in_order() {
    let config = ScanConfig::default();
    let lines = config.log_config();
    let messages: Vec<&str> = lines.iter().map(|line| line.message.as_str()).collect();
    assert_eq!(
        messages,
        vec![
            "Configuration:",
            "  input file: domains.txt",
            "  rules file: rules.yaml",
            "  concurrency: 10",
            "  DNS timeout: 5s",
            "  HTTP timeout: 10s",
            "  connect timeout: 5s",
            "  verbosity: 0",
            "  distributed: false",
            "  output file: Some(\"output.txt\")",
            "  database: results.sqlite",
            "  DNS cache size: 10000",
            "  quiet mode: false",
            "  DNS only: false",
            "  verbose: false",
            "Configuration validated successfully",
        ]
    );
    for line in &lines[..15] {
        assert_eq!(line.level, LogLevel::Info);
    }
    assert_eq!(lines[15].level, LogLevel::Debug);
}

#[test]
fn log_config_quotes_the_output_file() {
    let mut config = ScanConfig::new("in.txt".to_string(), "rules.yaml".to_string());
    assert_eq!(config.log_config()[9].message, "  output file: None");
    config.output_file = Some("a \"b\"\n".to_string());
    assert_eq!(config.log_config()[9].message, "  output file: Some(\"a \\\"b\\\"\\n\")");
    config.concurrency = usize::MAX;
    config.dns_timeout = 0;
    assert_eq!(
        config.log_config()[3].message,
        format!("  concurrency: {}", usize::MAX)
    );
    assert_eq!(config.log_config()[4].message, "  DNS timeout: 0s");
}

#[test]
fn new_config_has_the_usual_values() {
    let config = ScanConfig::new("in.txt".to_string(), "my-rules.yaml".to_string());
    assert_eq!(config.input_file, "in.txt");
    assert_eq!(config.rules_file, "my-rules.yaml");
    assert_eq!(config.concurrency, 50);
    assert_eq!(config.verbosity, 2);
    assert!(!config.distributed);
    assert_eq!(config.output_file, None);
    assert_eq!(config.db_path, "data/fatt.db");
    assert_eq!(config.dns_timeout, 5);
    assert_eq!(config.http_timeout, 10);
    assert_eq!(config.connect_timeout, 5);
    assert_eq!(config.dns_cache_size, 10000);
    assert!(!config.quiet);
    assert!(!config.dns_only);
    assert!(!config.verbose);
}

#[test]
fn validation_reports_the_first_fault() {
    let mut config = ScanConfig::default();
    config.concurrency = 0;

    match config.validate(false, false) {
        Err(ConfigError::InputFileMissing { path }) => assert_eq!(path, "domains.txt"),
        other => panic!("unexpected: {:?}", other),
    }
    match config.validate(true, false) {
        Err(ConfigError::RulesFileMissing { path }) => assert_eq!(path, "rules.yaml"),
        other => panic!("unexpected: {:?}", other),
    }
    assert!(matches!(config.validate(true, true), Err(ConfigError::ZeroConcurrency)));

    assert_eq!(
        config.validate(false, true).unwrap_err().message(),
        "input file does not exist: domains.txt"
    );
    assert_eq!(
        config.validate(true, false).unwrap_err().message(),
        "Rules file does not exist: rules.yaml"
    );
    assert_eq!(
        config.validate(true, true).unwrap_err().message(),
        "Invalid concurrency value: must be greater than 0"
    );
}

use fatt::text::{contains, is_whitespace, to_chars, to_text, trim};
use fatt::utils::{
    build_url, choose_url, chunk_vector, host_of, is_valid_domain, join_url, lookup_key,
    normalize_domain, random_backoff, read_domains, read_lines, unique,
};

#[test]
fn test_read_domains() {
    let domains = vec![
        "example.com",
        "test.com",
        "security.io",
        "   example.org  ",
        "# This is a comment",
        "",
        "duplicate.com",
        "duplicate.com",
    ];
    let mut content = String::new();
    for domain in &domains {
        content.push_str(domain);
        content.push('\n');
    }

    let result = read_domains(&content);

    assert_eq!(result.len(), 5);
    assert!(result.contains(&"example.com".to_string()));
    assert!(result.contains(&"test.com".to_string()));
    assert!(result.contains(&"security.io".to_string()));
    assert!(result.contains(&"example.org".to_string()));
    assert!(result.contains(&"duplicate.com".to_string()));
    assert!(!result.contains(&"# This is a comment".to_string()));
}

#[test]
fn test_chunk_vector() {
    let data = vec![1, 2, 3, 4, 5, 6, 7, 8, 9, 10];

    let chunks = chunk_vector(data.clone(), 3);
    assert_eq!(chunks.len(), 4);
    assert_eq!(chunks[0], vec![1, 2, 3]);
    assert_eq!(chunks[1], vec![4, 5, 6]);
    assert_eq!(chunks[2], vec![7, 8, 9]);
    assert_eq!(chunks[3], vec![10]);

    let chunks = chunk_vector(data.clone(), 10);
    assert_eq!(chunks.len(), 1);
    assert_eq!(chunks[0], data);

    let chunks = chunk_vector(data.clone(), 20);
    assert_eq!(chunks.len(), 1);
    assert_eq!(chunks[0], data);

    let empty: Vec<i32> = Vec::new();
    let chunks = chunk_vector(empty, 5);
    assert_eq!(chunks.len(), 0);
}

#[test]
fn test_is_valid_domain() {
    assert!(is_valid_domain("example.com"));
    assert!(is_valid_domain("sub.example.com"));
    assert!(is_valid_domain("sub-domain.example.co.uk"));
    assert!(is_valid_domain("xn--bcher-kva.example"));
    assert!(is_valid_domain("123.example.com"));

    assert!(!is_valid_domain(""));
    assert!(!is_valid_domain("example"));
    assert!(!is_valid_domain(".com"));
    assert!(!is_valid_domain("example..com"));
    assert!(!is_valid_domain("example.com."));
    assert!(!is_valid_domain("http://example.com"));
    assert!(!is_valid_domain("example.com/path"));
    assert!(!is_valid_domain("user@example.com"));
    assert!(!is_valid_domain(" example.com "));
}

#[test]
fn domain_labels_and_lengths() {
    let label63 = "a".repeat(63);
    let label64 = "a".repeat(64);
    assert!(is_valid_domain(&format!("{}.com", label63)));
    assert!(!is_valid_domain(&format!("{}.com", label64)));

    // 253 bytes are the most.
    let long = format!("{}.{}.{}.{}", label63, label63, label63, "b".repeat(61));
    assert_eq!(long.len(), 253);
    assert!(is_valid_domain(&long));
    let longer = format!("{}.{}.{}.{}", label63, label63, label63, "b".repeat(62));
    assert_eq!(longer.len(), 254);
    assert!(!is_valid_domain(&longer));

    // Hyphens stand inside a label only, unless it begins with xn--.
    assert!(!is_valid_domain("-example.com"));
    assert!(!is_valid_domain("example-.com"));
    assert!(is_valid_domain("xn--a-.com"));
    assert!(!is_valid_domain("exa_mple.com"));
    assert!(!is_valid_domain("exa mple.com"));
    assert!(!is_valid_domain("example.com\n"));
    assert!(!is_valid_domain("\texample.com"));

    // Letters and digits are those of Unicode; lengths are in bytes.
    assert!(is_valid_domain("bücher.example"));
    let wide = "ü".repeat(31);
    assert_eq!(wide.len(), 62);
    assert!(is_valid_domain(&format!("{}.com", wide)));
    let wider = "ü".repeat(32);
    assert_eq!(wider.len(), 64);
    assert!(!is_valid_domain(&format!("{}.com", wider)));
}

#[test]
fn read_domains_drops_repeats_comments_and_blanks() {
    let content = ["a.com", "a.com", "# comment", "", "b.com"].join("\n");
    assert_eq!(read_domains(&content), vec!["a.com".to_string(), "b.com".to_string()]);
}

#[test]
fn read_domains_keeps_first_seen_order() {
    let content = "c.com\r\n  a.com\t\n#x\n\n   \nb.com\na.com\nc.com\n  #not first\nd.com";
    assert_eq!(
        read_domains(content),
        vec!["c.com".to_string(), "a.com".to_string(), "b.com".to_string(), "d.com".to_string()]
    );
    assert_eq!(
        read_lines(content),
        vec![
            "c.com".to_string(),
            "a.com".to_string(),
            "b.com".to_string(),
            "a.com".to_string(),
            "c.com".to_string(),
            "d.com".to_string()
        ]
    );
    assert!(read_domains("").is_empty());
    assert!(read_domains("\n\n# only comments\n   \n").is_empty());
    assert_eq!(read_domains("one.example"), vec!["one.example".to_string()]);
    // A domain in another case is another string.
    assert_eq!(
        read_domains("A.com\na.com"),
        vec!["A.com".to_string(), "a.com".to_string()]
    );
}

#[test]
fn unique_keeps_the_first_of_equals() {
    let list: Vec<String> = ["x", "y", "x", "z", "y", "x"].iter().map(|s| s.to_string()).collect();
    assert_eq!(unique(list), vec!["x".to_string(), "y".to_string(), "z".to_string()]);
    assert!(unique(Vec::new()).is_empty());
}

#[test]
fn chunks_put_together_give_the_list() {
    for n in 0..25usize {
        let data: Vec<usize> = (0..n).collect();
        for k in 1..30usize {
            let chunks = chunk_vector(data.clone(), k);
            assert_eq!(chunks.len(), (n + k - 1) / k);
            for (j, chunk) in chunks.iter().enumerate() {
                if j + 1 < chunks.len() {
                    assert_eq!(chunk.len(), k);
                } else {
                    assert!(chunk.len() >= 1 && chunk.len() <= k);
                }
            }
            let joined: Vec<usize> = chunks.into_iter().flatten().collect();
            assert_eq!(joined, data);
        }
    }
}

#[test]
fn chunk_size_zero_gives_one_chunk() {
    let chunks = chunk_vector(vec![1, 2, 3], 0);
    assert_eq!(chunks, vec![vec![1, 2, 3]]);
    let empty: Vec<u8> = Vec::new();
    let chunks = chunk_vector(empty.clone(), 0);
    assert_eq!(chunks, vec![empty]);
}

#[test]
fn normalize_trims_and_lowers() {
    assert_eq!(normalize_domain("  ExAmple.COM \n"), "example.com");
    assert_eq!(normalize_domain("example.com"), "example.com");
    assert_eq!(normalize_domain("\u{3000}BÜCHER.example\u{a0}"), "bücher.example");
    assert_eq!(normalize_domain("   "), "");
    assert_eq!(normalize_domain(""), "");
}

#[test]
fn whitespace_is_that_of_the_standard_library() {
    let mut c = 0u32;
    while c <= 0x10ffff {
        if let Some(ch) = char::from_u32(c) {
            assert_eq!(is_whitespace(ch), ch.is_whitespace(), "U+{:04X}", c);
        }
        c += 1;
    }
}

#[test]
fn trim_is_that_of_the_standard_library() {
    let samples = [
        "",
        " ",
        "a",
        " a",
        "a ",
        "  a b  ",
        "\t\r\n x \u{2003}y\u{2028}",
        "\u{85}\u{1680}mid dle\u{202f}\u{205f}",
        "\u{feff}not space\u{200b}",
        "   \n\t  ",
    ];
    for s in samples.iter() {
        assert_eq!(to_text(&trim(&to_chars(s))), s.trim());
    }
}

#[test]
fn text_search() {
    let hay = to_chars("<html><title>Admin Panel</title></html>");
    assert!(contains(&hay, &to_chars("Admin Panel")));
    assert!(contains(&hay, &to_chars("<html>")));
    assert!(contains(&hay, &to_chars("</html>")));
    assert!(contains(&hay, &to_chars("")));
    assert!(!contains(&hay, &to_chars("admin panel")));
    assert!(!contains(&hay, &to_chars("</html> ")));
    assert!(contains(&to_chars(""), &to_chars("")));
    assert!(!contains(&to_chars(""), &to_chars("a")));
    assert!(contains(&to_chars("aaab"), &to_chars("aab")));
    assert!(!contains(&to_chars("ab"), &to_chars("abc")));
}

#[test]
fn urls_are_joined_with_one_slash() {
    assert_eq!(join_url("example.com", "/admin"), "https://example.com/admin");
    assert_eq!(join_url("example.com", "admin"), "https://example.com/admin");
    assert_eq!(join_url("example.com", ""), "https://example.com/");
    assert_eq!(join_url("http://example.com", "/admin"), "http://example.com/admin");
    assert_eq!(join_url("https://example.com", "admin"), "https://example.com/admin");
    assert_eq!(join_url("http://example.com/", "/admin"), "http://example.com/admin");
    assert_eq!(join_url("example.com/some/path?q=1#frag", "/x"), "https://example.com/x");
    assert_eq!(join_url("example.com:8443", "/x"), "https://example.com/x");
    assert_eq!(join_url("http://example.com:8080/old", "x"), "http://example.com/x");
    assert_eq!(join_url("example.com?q", "/x"), "https://example.com/x");
    assert_eq!(join_url("example.com#f", "/x"), "https://example.com/x");
    assert_eq!(join_url("", "/x"), "https:///x");
}

#[test]
fn host_is_the_bare_name() {
    assert_eq!(host_of("example.com"), "example.com");
    assert_eq!(host_of("http://example.com/path"), "example.com");
    assert_eq!(host_of("https://example.com:8443/path?x=1#y"), "example.com");
    assert_eq!(host_of("example.com:80"), "example.com");
    assert_eq!(host_of("https://"), "");
    assert_eq!(lookup_key("  HTTP://Example.COM:8080/Path "), "example.com");
    assert_eq!(lookup_key("Example.com"), "example.com");
}

#[test]
fn build_url_normalizes() {
    assert_eq!(build_url("  Example.COM ", "/admin"), "https://example.com/admin");
    assert_eq!(build_url("HTTP://Example.com", "admin"), "http://example.com/admin");
    // The parser's form: a space in the path is escaped.
    assert_eq!(build_url("example.com", "/a b"), "https://example.com/a%20b");
    // The parser's form: dots in the path are resolved.
    assert_eq!(build_url("example.com", "/a/../b"), "https://example.com/b");
    // A text that the parser refuses stays as it was joined.
    assert_eq!(build_url("exa mple.com", "/x"), "https://exa mple.com/x");
}

#[test]
fn choose_url_prefers_the_parsed_form() {
    assert_eq!(choose_url("joined".to_string(), Some("parsed".to_string())), "parsed");
    assert_eq!(choose_url("joined".to_string(), None), "joined");
}

#[test]
fn backoff_stays_in_its_window() {
    assert_eq!(random_backoff(7, 7), 7);
    assert_eq!(random_backoff(0, 0), 0);
    assert_eq!(random_backoff(u64::MAX, u64::MAX), u64::MAX);
    let mut seen = Vec::new();
    for _ in 0..300 {
        let d = random_backoff(100, 1_000_000);
        assert!(d >= 100 && d <= 1_000_000);
        if !seen.contains(&d) {
            seen.push(d);
        }
    }
    assert!(seen.len() > 1);
    for _ in 0..100 {
        let d = random_backoff(0, u64::MAX);
        let _ = d;
        let e = random_backoff(3, 4);
        assert!(e == 3 || e == 4);
    }
}

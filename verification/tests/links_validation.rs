use md_editor::links::{
    extract_markdown_links, heading_slugs, is_external_link, is_ignored_link,
    normalize_link_target, parse_external_host_port, plan_link_checks, slugify_heading,
    split_link_and_anchor, validate_links, LinkCheck, LinkProbe,
};

#[test]
fn slugification_determinism() {
    assert_eq!(slugify_heading("Hello, World!"), "hello-world");
    assert_eq!(slugify_heading("Hello, World!"), slugify_heading("Hello, World!"));
    assert_eq!(slugify_heading("  Spaced   out_name "), "spaced-out-name");
    assert_eq!(slugify_heading("Trailing---"), "trailing");
    // Punctuation-only headings slugify to nothing.
    assert_eq!(slugify_heading("!!! ???"), "");
}

#[test]
fn heading_slugs_skip_empty_and_non_headings() {
    let md = "# Real Heading\n\nplain text\n####### seven\n## !!!\n### Another One\n";
    let slugs = heading_slugs(md);
    assert!(slugs.iter().any(|s| s == "real-heading"));
    assert!(slugs.iter().any(|s| s == "another-one"));
    // The punctuation-only heading contributed no slug at all.
    assert!(slugs.iter().all(|s| !s.is_empty()));
    assert!(!slugs.iter().any(|s| s == "seven"));
    assert_eq!(slugs.len(), 2);
}

#[test]
fn link_splitting_and_normalization() {
    assert_eq!(split_link_and_anchor("#intro"), ("".to_string(), Some("intro".to_string())));
    assert_eq!(
        split_link_and_anchor("doc.md#part"),
        ("doc.md".to_string(), Some("part".to_string()))
    );
    assert_eq!(split_link_and_anchor("doc.md"), ("doc.md".to_string(), None));
    assert_eq!(normalize_link_target("  <./a.md>  "), "./a.md");
    assert_eq!(normalize_link_target("./a.md \"a title\""), "./a.md");
    assert_eq!(normalize_link_target("'quoted.md'"), "quoted.md");
    assert!(is_external_link("https://example.com"));
    assert!(is_external_link("http://example.com"));
    assert!(!is_external_link("ftp://example.com"));
    assert!(is_ignored_link("mailto:a@b.c"));
    assert!(is_ignored_link("tel:123"));
    assert!(is_ignored_link("javascript:void(0)"));
}

#[test]
fn extracts_inline_and_auto_links_per_line() {
    let md = "intro [a](./a.md) and ![img](img.png \"t\")\nsee <https://x.example> too\nno links";
    let links = extract_markdown_links(md);
    let pairs: Vec<(u32, &str)> = links.iter().map(|l| (l.line, l.target.as_str())).collect();
    assert_eq!(pairs, vec![(1, "./a.md"), (1, "img.png"), (2, "https://x.example")]);
}

#[test]
fn extraction_ignores_malformed_links() {
    let md = "[no paren]\n[empty]()\n![half](open\n<notaurl>\n<https://ws here>";
    let links = extract_markdown_links(md);
    assert_eq!(links.len(), 0);
}

#[test]
fn validate_links_flags_missing_local_target() {
    let doc = "/w/doc.md";
    let md = "[broken](./missing.md)";
    let checks = plan_link_checks(doc, md, false).expect("plan");
    assert_eq!(checks.len(), 1);
    match &checks[0] {
        LinkCheck::Local { target_path, anchor, .. } => {
            assert_eq!(target_path, "/w/./missing.md");
            assert!(anchor.is_none());
        },
        _ => panic!("expected a local check"),
    }
    let probes = vec![LinkProbe::Local { exists: false, content: None }];
    let report = validate_links(doc, md, false, &probes).expect("validate");
    assert!(!report.checked_external);
    assert_eq!(report.issues.len(), 1);
    assert_eq!(report.issues[0].severity, "error");
    assert_eq!(report.issues[0].link, "./missing.md");
    assert_eq!(report.issues[0].message, "Target file does not exist");
}

#[test]
fn anchors_resolve_against_the_documents_own_headings() {
    let doc = "/w/doc.md";
    let md = "## Real Heading\n\n[ok](#real-heading)\n[bad](#nope)\n";
    let probes = vec![
        LinkProbe::Local { exists: true, content: None },
        LinkProbe::Local { exists: true, content: None },
    ];
    let report = validate_links(doc, md, false, &probes).expect("validate");
    assert_eq!(report.issues.len(), 1);
    assert_eq!(report.issues[0].line, 4);
    assert_eq!(report.issues[0].severity, "error");
    assert_eq!(report.issues[0].message, "Anchor was not found in target document");
}

#[test]
fn anchors_in_other_documents_use_their_content() {
    let doc = "/w/doc.md";
    let md = "[other](./other.md#their-section)";
    let checks = plan_link_checks(doc, md, false).expect("plan");
    match &checks[0] {
        LinkCheck::Local { read_target_for_anchors, target_is_document, anchor, .. } => {
            assert!(*read_target_for_anchors);
            assert!(!*target_is_document);
            assert_eq!(anchor.as_deref(), Some("their-section"));
        },
        _ => panic!("expected a local check"),
    }
    let good = vec![LinkProbe::Local {
        exists: true,
        content: Some("# Their Section\nbody".to_string()),
    }];
    let report = validate_links(doc, md, false, &good).expect("validate");
    assert_eq!(report.issues.len(), 0);
    let bad = vec![LinkProbe::Local {
        exists: true,
        content: Some("# Something Else".to_string()),
    }];
    let report = validate_links(doc, md, false, &bad).expect("validate");
    assert_eq!(report.issues.len(), 1);
}

#[test]
fn external_links_warn_only_when_probed_unreachable() {
    let doc = "/w/doc.md";
    let md = "[site](https://example.com) and [gone](https://dead.example)";
    // Without external checking, externals are not planned at all.
    let checks = plan_link_checks(doc, md, false).expect("plan");
    assert_eq!(checks.len(), 0);
    let report = validate_links(doc, md, false, &vec![]).expect("validate");
    assert_eq!(report.issues.len(), 0);
    // With external checking, each URL is probed; failures warn.
    let checks = plan_link_checks(doc, md, true).expect("plan");
    assert_eq!(checks.len(), 2);
    let probes = vec![
        LinkProbe::External { reachable: true },
        LinkProbe::External { reachable: false },
    ];
    let report = validate_links(doc, md, true, &probes).expect("validate");
    assert!(report.checked_external);
    assert_eq!(report.issues.len(), 1);
    assert_eq!(report.issues[0].severity, "warning");
    assert_eq!(report.issues[0].link, "https://dead.example");
    assert_eq!(
        report.issues[0].message,
        "External URL did not respond to a quick reachability check"
    );
}

#[test]
fn ignored_schemes_produce_no_checks() {
    let doc = "/w/doc.md";
    let md = "[m](mailto:a@b.c) [t](tel:123) [j](javascript:void(0))";
    let checks = plan_link_checks(doc, md, true).expect("plan");
    assert_eq!(checks.len(), 0);
}

#[test]
fn rootless_documents_cannot_be_validated() {
    let error = validate_links("/", "[x](./a.md)", false, &vec![]).expect_err("no parent");
    assert_eq!(error.message, "Document path has no parent");
}

#[test]
fn parses_external_hosts_and_ports() {
    assert_eq!(
        parse_external_host_port("https://example.com/path?q=1#f"),
        Some(("example.com".to_string(), 443))
    );
    assert_eq!(
        parse_external_host_port("http://example.com"),
        Some(("example.com".to_string(), 80))
    );
    assert_eq!(
        parse_external_host_port("http://user:pw@host.example:8080/x"),
        Some(("host.example".to_string(), 8080))
    );
    assert_eq!(parse_external_host_port("HTTPS://up.example/"), Some(("up.example".to_string(), 443)));
    assert_eq!(parse_external_host_port("http://[::1]:9000/x"), Some(("::1".to_string(), 9000)));
    assert_eq!(parse_external_host_port("http://[::1]/x"), Some(("::1".to_string(), 80)));
    // A port that does not parse falls back to the default, keeping the colon.
    assert_eq!(
        parse_external_host_port("http://host.example:notaport/"),
        Some(("host.example:notaport".to_string(), 80))
    );
    assert_eq!(parse_external_host_port("no-scheme-here"), None);
}

#[test]
fn empty_documents_validate_cleanly() {
    let checks = plan_link_checks("/w/doc.md", "", true).expect("plan");
    assert_eq!(checks.len(), 0);
    let report = validate_links("/w/doc.md", "", true, &vec![]).expect("validate");
    assert!(report.issues.is_empty());
    assert!(report.checked_external);
}

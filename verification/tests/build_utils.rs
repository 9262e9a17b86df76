use coast_daemon::builds::{
    builds_to_prune, parse_ttl_to_seconds, prune_candidate, prune_candidate_from_fields, PruneCandidate,
};
use coast_daemon::json::JsonField;
use coast_daemon::shell::shell_single_quote;

fn manifest(timestamp: &str, coastfile_type: Option<&str>, arch: Option<&str>) -> String {
    let kind = match coastfile_type {
        Some(t) => format!("\"{t}\""),
        None => "null".to_string(),
    };
    let arch = match arch {
        Some(a) => format!("\"{a}\""),
        None => "null".to_string(),
    };
    format!("{{\"build_timestamp\":\"{timestamp}\",\"coastfile_type\":{kind},\"arch\":{arch}}}")
}

/// The builds pruned from a listing of `(directory name, manifest)` pairs.
fn pruned(listing: &[(String, String)], keep: usize, in_use: &[&str], kind: Option<&str>) -> Vec<String> {
    let candidates: Vec<PruneCandidate> = listing
        .iter()
        .filter_map(|(name, manifest)| prune_candidate(name, manifest, kind))
        .collect();
    let in_use: Vec<String> = in_use.iter().map(|s| s.to_string()).collect();
    builds_to_prune(&candidates, keep, &in_use)
}

fn kept(pruned: &[String], name: &str) -> bool {
    !pruned.iter().any(|p| p == name)
}

#[test]
fn test_shell_single_quote_escapes_embedded_quotes() {
    assert_eq!(shell_single_quote("abc"), "'abc'");
    assert_eq!(shell_single_quote("it's"), "'it'\\''s'");
    assert_eq!(shell_single_quote(""), "''");
}

#[test]
fn test_parse_ttl_to_seconds_supports_suffixes() {
    assert_eq!(parse_ttl_to_seconds("45"), Some(45));
    assert_eq!(parse_ttl_to_seconds("45s"), Some(45));
    assert_eq!(parse_ttl_to_seconds("2m"), Some(120));
    assert_eq!(parse_ttl_to_seconds("3h"), Some(10800));
    assert_eq!(parse_ttl_to_seconds("1d"), Some(86400));
    assert_eq!(parse_ttl_to_seconds(""), None);
    assert_eq!(parse_ttl_to_seconds("bad"), None);
}

#[test]
fn test_auto_prune_builds_keeps_newest_and_preserves_in_use() {
    let listing = vec![
        ("build-old".to_string(), manifest("2024-01-01T00:00:00Z", None, None)),
        ("build-mid".to_string(), manifest("2024-02-01T00:00:00Z", None, None)),
        ("build-new".to_string(), manifest("2024-03-01T00:00:00Z", None, None)),
    ];
    let pruned = pruned(&listing, 2, &["build-old"], None);

    assert!(kept(&pruned, "build-old"));
    assert!(kept(&pruned, "build-mid"));
    assert!(kept(&pruned, "build-new"));
}

#[test]
fn test_auto_prune_builds_filters_by_coastfile_type() {
    let listing = vec![
        ("default-old".to_string(), manifest("2024-01-01T00:00:00Z", None, None)),
        ("default-new".to_string(), manifest("2024-03-01T00:00:00Z", None, None)),
        ("dev-old".to_string(), manifest("2024-01-15T00:00:00Z", Some("dev"), None)),
        ("dev-new".to_string(), manifest("2024-04-01T00:00:00Z", Some("dev"), None)),
    ];
    let pruned = pruned(&listing, 1, &[], Some("dev"));

    assert!(kept(&pruned, "default-old"));
    assert!(kept(&pruned, "default-new"));
    assert!(!kept(&pruned, "dev-old"));
    assert!(kept(&pruned, "dev-new"));
}

#[test]
fn test_auto_prune_builds_remote_type() {
    let mut listing = Vec::new();
    for i in 1..=7 {
        listing.push((
            format!("remote-build-{i:02}"),
            manifest(&format!("2024-0{i}-01T00:00:00Z"), Some("remote"), None),
        ));
    }
    listing.push(("local-build-01".to_string(), manifest("2024-01-15T00:00:00Z", None, None)));

    let pruned = pruned(&listing, 5, &[], Some("remote"));

    assert!(!kept(&pruned, "remote-build-01"), "oldest remote pruned");
    assert!(!kept(&pruned, "remote-build-02"), "2nd oldest remote pruned");
    assert!(kept(&pruned, "remote-build-03"), "3rd oldest kept");
    assert!(kept(&pruned, "remote-build-07"), "newest kept");
    assert!(kept(&pruned, "local-build-01"), "local build untouched");
}

#[test]
fn test_auto_prune_builds_partitions_by_arch() {
    let mut listing = Vec::new();
    for i in 1..=7 {
        listing.push((
            format!("x86-build-{i:02}"),
            manifest(&format!("2024-0{i}-01T00:00:00Z"), Some("remote"), Some("x86_64")),
        ));
    }
    for i in 1..=3 {
        listing.push((
            format!("arm-build-{i:02}"),
            manifest(&format!("2024-0{i}-01T00:00:00Z"), Some("remote"), Some("aarch64")),
        ));
    }

    let pruned = pruned(&listing, 5, &[], Some("remote"));

    assert!(!kept(&pruned, "x86-build-01"), "oldest x86 pruned");
    assert!(!kept(&pruned, "x86-build-02"), "2nd oldest x86 pruned");
    assert!(kept(&pruned, "x86-build-03"), "3rd oldest x86 kept (within keep=5)");
    assert!(kept(&pruned, "x86-build-07"), "newest x86 kept");

    assert!(kept(&pruned, "arm-build-01"), "oldest aarch64 kept (only 3 total, under keep=5)");
    assert!(kept(&pruned, "arm-build-02"), "2nd aarch64 kept");
    assert!(kept(&pruned, "arm-build-03"), "newest aarch64 kept");
}

#[test]
fn prune_skips_latest_links_and_invalid_manifests() {
    assert!(prune_candidate("latest", &manifest("2024-01-01T00:00:00Z", None, None), None).is_none());
    assert!(prune_candidate("latest-dev", &manifest("2024-01-01T00:00:00Z", Some("dev"), None), Some("dev")).is_none());
    assert!(prune_candidate("b1", "not json", None).is_none());
    let c = prune_candidate("b1", &manifest("2024-01-01T00:00:00Z", None, Some("x86_64")), None).unwrap();
    assert_eq!(c.name, "b1");
    assert_eq!(c.arch.as_deref(), Some("x86_64"));
    assert_eq!(c.timestamp, "2024-01-01T00:00:00Z");
}

#[test]
fn prune_lists_in_listing_order() {
    let listing = vec![
        ("c".to_string(), manifest("2024-03-01T00:00:00Z", None, None)),
        ("a".to_string(), manifest("2024-01-01T00:00:00Z", None, None)),
        ("b".to_string(), manifest("2024-02-01T00:00:00Z", None, None)),
    ];
    assert_eq!(pruned(&listing, 0, &[], None), vec!["c", "a", "b"]);
    assert_eq!(pruned(&listing, 1, &["a"], None), vec!["b"]);
}

#[test]
fn ttl_edge_cases() {
    assert_eq!(parse_ttl_to_seconds("  10m  "), Some(600));
    assert_eq!(parse_ttl_to_seconds("10 m"), Some(600));
    assert_eq!(parse_ttl_to_seconds("-5s"), Some(-5));
    assert_eq!(parse_ttl_to_seconds("+7"), Some(7));
    assert_eq!(parse_ttl_to_seconds("s"), None);
    assert_eq!(parse_ttl_to_seconds("1x"), None);
}

#[test]
fn prune_candidate_from_manifest_fields() {
    let text = |s: &str| JsonField::Text(s.to_string());
    let c = prune_candidate_from_fields("b1", text("dev"), text("arm64"), text("20240101"), Some("dev")).unwrap();
    assert_eq!((c.name.as_str(), c.arch.as_deref(), c.timestamp.as_str()), ("b1", Some("arm64"), "20240101"));
    let c = prune_candidate_from_fields("b2", JsonField::Missing, JsonField::Other, JsonField::Missing, None).unwrap();
    assert_eq!((c.arch, c.timestamp.as_str()), (None, ""));
    assert!(prune_candidate_from_fields("b3", JsonField::Missing, JsonField::Missing, JsonField::Missing, Some("dev")).is_none());
    assert!(prune_candidate_from_fields("b4", text("dev"), JsonField::Missing, JsonField::Missing, None).is_none());
    assert!(prune_candidate_from_fields("b5", JsonField::Invalid, JsonField::Invalid, JsonField::Invalid, None).is_none());
    assert!(prune_candidate_from_fields("latest-dev", text("dev"), JsonField::Missing, JsonField::Missing, Some("dev")).is_none());
}

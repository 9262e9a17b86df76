use coast_daemon::secrets::{
    base64_encode_bytes, filter_declared_resolved_secrets, inject_parts, keystore_paths, merge_secrets,
    resolved_secret_path, secret_progress_label, InjectTarget, SecretExtraction, SecretOutcome,
    StoredSecret,
};

fn make_stored_secret(name: &str, extractor: &str) -> StoredSecret {
    StoredSecret {
        secret_name: name.to_string(),
        extractor: extractor.to_string(),
        inject_type: "env".to_string(),
        inject_target: name.to_string(),
        value: b"value".to_vec(),
    }
}

fn stored_secret(name: &str, inject_type: &str, inject_target: &str, value: &[u8]) -> StoredSecret {
    StoredSecret {
        secret_name: name.to_string(),
        extractor: "manual".to_string(),
        inject_type: inject_type.to_string(),
        inject_target: inject_target.to_string(),
        value: value.to_vec(),
    }
}

#[test]
fn test_merge_secrets_no_base_no_overrides() {
    let base: Vec<StoredSecret> = vec![];
    let overrides: Vec<StoredSecret> = vec![];
    let declared: Option<Vec<String>> = None;

    let result = merge_secrets(&base, &overrides, &declared);
    assert!(result.is_empty());
}

#[test]
fn test_merge_secrets_two_base_no_overrides() {
    let base = vec![make_stored_secret("API_KEY", "aws-extractor"), make_stored_secret("DB_PASSWORD", "vault-extractor")];
    let overrides: Vec<StoredSecret> = vec![];
    let declared: Option<Vec<String>> = None;

    let result = merge_secrets(&base, &overrides, &declared);

    assert_eq!(result.len(), 2);
    assert!(!result[0].is_override);
    assert!(!result[1].is_override);
    assert!(result.iter().any(|s| s.name == "API_KEY"));
    assert!(result.iter().any(|s| s.name == "DB_PASSWORD"));
}

#[test]
fn test_merge_secrets_base_filtered_by_declared() {
    let base = vec![
        make_stored_secret("API_KEY", "aws-extractor"),
        make_stored_secret("DB_PASSWORD", "vault-extractor"),
        make_stored_secret("EXTRA_SECRET", "manual"),
    ];
    let overrides: Vec<StoredSecret> = vec![];
    let declared: Option<Vec<String>> = Some(vec!["API_KEY".to_string(), "DB_PASSWORD".to_string()]);

    let result = merge_secrets(&base, &overrides, &declared);

    assert_eq!(result.len(), 2);
    assert!(result.iter().any(|s| s.name == "API_KEY"));
    assert!(result.iter().any(|s| s.name == "DB_PASSWORD"));
    assert!(!result.iter().any(|s| s.name == "EXTRA_SECRET"));
}

#[test]
fn test_merge_secrets_override_replaces_base() {
    let base = vec![make_stored_secret("API_KEY", "aws-extractor")];
    let overrides = vec![make_stored_secret("API_KEY", "manual")];
    let declared: Option<Vec<String>> = None;

    let result = merge_secrets(&base, &overrides, &declared);

    assert_eq!(result.len(), 1);
    assert_eq!(result[0].name, "API_KEY");
    assert!(result[0].is_override);
    assert_eq!(result[0].extractor, "manual");
}

#[test]
fn test_merge_secrets_override_for_new_name() {
    let base = vec![make_stored_secret("API_KEY", "aws-extractor")];
    let overrides = vec![make_stored_secret("NEW_SECRET", "manual")];
    let declared: Option<Vec<String>> = None;

    let result = merge_secrets(&base, &overrides, &declared);

    assert_eq!(result.len(), 2);
    let api_key = result.iter().find(|s| s.name == "API_KEY").unwrap();
    assert!(!api_key.is_override);
    let new_secret = result.iter().find(|s| s.name == "NEW_SECRET").unwrap();
    assert!(new_secret.is_override);
}

#[test]
fn test_merge_secrets_declared_none_includes_all_base() {
    let base = vec![
        make_stored_secret("SECRET_A", "extractor-a"),
        make_stored_secret("SECRET_B", "extractor-b"),
        make_stored_secret("SECRET_C", "extractor-c"),
    ];
    let overrides: Vec<StoredSecret> = vec![];
    let declared: Option<Vec<String>> = None;

    let result = merge_secrets(&base, &overrides, &declared);

    assert_eq!(result.len(), 3);
    assert!(result.iter().all(|s| !s.is_override));
}

#[test]
fn merged_listing_shows_inject_spec_and_keeps_override_last() {
    let base = vec![make_stored_secret("A", "x"), make_stored_secret("B", "y")];
    let overrides = vec![make_stored_secret("A", "manual")];
    let result = merge_secrets(&base, &overrides, &None);
    let names: Vec<&str> = result.iter().map(|s| s.name.as_str()).collect();
    assert_eq!(names, vec!["B", "A"]);
    assert_eq!(result[1].inject, "env:A");
    assert!(result[1].is_override);
}

#[test]
fn test_filter_declared_resolved_secrets_keeps_only_declared_names() {
    let secrets = vec![
        stored_secret("api_key", "env", "API_KEY", b"secret123"),
        stored_secret("gcp_creds", "file", "/run/secrets/gcp.json", b"{\"key\":\"value\"}"),
    ];
    let declared_names = vec!["api_key".to_string()];

    let resolved = filter_declared_resolved_secrets(&secrets, &declared_names);

    assert_eq!(resolved.len(), 1);
    assert_eq!(resolved[0].name, "api_key");
    assert_eq!(resolved[0].inject_type, "env");
    assert_eq!(resolved[0].inject_target, "API_KEY");
    assert_eq!(resolved[0].value, b"secret123");
}

#[test]
fn test_base64_encode_empty() {
    assert_eq!(base64_encode_bytes(b""), "");
}

#[test]
fn test_base64_encode_hello() {
    assert_eq!(base64_encode_bytes(b"Hello"), "SGVsbG8=");
}

#[test]
fn test_base64_encode_padding_two_bytes() {
    assert_eq!(base64_encode_bytes(b"ab"), "YWI=");
}

#[test]
fn test_base64_encode_no_padding() {
    assert_eq!(base64_encode_bytes(b"abc"), "YWJj");
}

#[test]
fn test_base64_encode_single_byte() {
    assert_eq!(base64_encode_bytes(b"a"), "YQ==");
}

#[test]
fn test_base64_encode_binary_data() {
    assert_eq!(base64_encode_bytes(&[0x00, 0xFF, 0x80]), "AP+A");
}

#[test]
fn test_base64_encode_longer_string() {
    assert_eq!(base64_encode_bytes(b"Hello, World!"), "SGVsbG8sIFdvcmxkIQ==");
}

#[test]
fn base64_uses_url_unsafe_alphabet() {
    assert_eq!(base64_encode_bytes(&[0xfb, 0xff]), "+/8=");
}

#[test]
fn extraction_tally_counts_and_warns() {
    let mut out = SecretExtraction::new();
    out.record("A", "env", SecretOutcome::Stored);
    out.record("B", "vault", SecretOutcome::StoreFailed("disk full".to_string()));
    out.record("C", "aws", SecretOutcome::ExtractFailed("no creds".to_string()));
    out.keystore_unavailable("locked");
    out.clear_failed("proj", "busy");
    assert_eq!(out.secrets_extracted, 1);
    assert_eq!(
        out.warnings,
        vec![
            "Failed to store secret 'B': disk full".to_string(),
            "Failed to extract secret 'C' using extractor 'aws': no creds".to_string(),
            "Failed to open keystore: locked. Secrets will not be stored.".to_string(),
            "Failed to clear old secrets for 'proj': busy".to_string(),
        ]
    );
}

#[test]
fn secret_paths_and_labels() {
    assert_eq!(resolved_secret_path("/home/me/app", "secrets/a.txt"), "/home/me/app/secrets/a.txt");
    assert_eq!(resolved_secret_path("/home/me/app", "/etc/a.txt"), "/etc/a.txt");
    assert_eq!(secret_progress_label("file", "API_KEY"), "file -> API_KEY");
    let (kind, target) = inject_parts(&InjectTarget::File("/run/x".to_string()));
    assert_eq!((kind, target.as_str()), ("file", "/run/x"));
    let (kind, target) = inject_parts(&InjectTarget::Env("TOKEN".to_string()));
    assert_eq!((kind, target.as_str()), ("env", "TOKEN"));
}

#[test]
fn keystore_paths_join_under_the_home() {
    let (db, key) = keystore_paths("/home/u");
    assert_eq!(db, "/home/u/.coast/keystore.db");
    assert_eq!(key, "/home/u/.coast/keystore.key");
    assert_eq!(keystore_paths("/home/u/").0, "/home/u/.coast/keystore.db");
    assert_eq!(keystore_paths("").0, ".coast/keystore.db");
}

#[test]
fn record_all_counts_or_warns_each_secret() {
    let mut tally = SecretExtraction::new();
    tally.record_all(vec![
        ("db".to_string(), "env".to_string(), SecretOutcome::Stored),
        ("api".to_string(), "file".to_string(), SecretOutcome::ExtractFailed("missing".to_string())),
        ("key".to_string(), "env".to_string(), SecretOutcome::StoreFailed("locked".to_string())),
        ("tok".to_string(), "env".to_string(), SecretOutcome::Stored),
    ]);
    assert_eq!(tally.secrets_extracted, 2);
    assert_eq!(
        tally.warnings,
        vec![
            "Failed to extract secret 'api' using extractor 'file': missing".to_string(),
            "Failed to store secret 'key': locked".to_string(),
        ]
    );
    assert_eq!(tally.secrets_extracted + tally.warnings.len(), 4);
}

#[test]
fn base64_length_alphabet_and_padding() {
    let bytes: Vec<u8> = (0u8..=200).collect();
    for n in 0..8usize {
        let text = base64_encode_bytes(&bytes[..n]);
        assert_eq!(text.len(), 4 * ((n + 2) / 3));
        let pad = (3 - n % 3) % 3;
        let (body, tail) = text.split_at(text.len() - pad);
        assert!(body.chars().all(|c| c.is_ascii_alphanumeric() || c == '+' || c == '/'));
        assert!(tail.chars().all(|c| c == '='));
    }
    assert_eq!(base64_encode_bytes(&[0x00, 0xFF, 0x80]), "AP+A");
    assert_eq!(base64_encode_bytes(b"a"), "YQ==");
}

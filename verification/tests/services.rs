use codlet::plugin_services::secrets::{
    bound_credential, commit_put, commit_remove, credential_metadata, list_credentials, normalize_origin,
    put_precheck, put_target, reference_from_random, remove_target, validate_label, validate_reference,
    CredentialDocument, PutTarget, SecretValue,
};
use codlet::plugin_services::storage::{
    changes, check_state_size, transaction, StorageDocument, StorageEntry, StorageOperation, TransactionInput, MAX_CHANGES,
};
use codlet::plugin_services::{expected_owner_document, hash_hex, PluginServices, ServiceCode, ServiceOwner};

fn empty() -> StorageDocument {
    StorageDocument { schema: 1, revision: 0, config: vec![], entries: vec![], changes: vec![] }
}

fn entry(key: &str, value: &str) -> StorageEntry {
    StorageEntry { key: key.into(), value: value.into() }
}

fn set(key: &str, value: &str) -> StorageOperation {
    StorageOperation::SetValue { key: key.into(), value: value.into() }
}

fn value_of(d: &StorageDocument, key: &str) -> Option<String> {
    d.entries.iter().find(|e| e.key == key).map(|e| e.value.clone())
}

#[test]
fn transaction_is_atomic_cas_and_namespaces_config_with_kv() {
    let first = transaction(
        empty(),
        TransactionInput {
            expected_revision: 0,
            config: Some(vec![entry("enabled", "true")]),
            operations: vec![set("token.mode", r#"{"kind":"test"}"#), set("count", "1")],
        },
    )
    .unwrap();
    assert_eq!(first.revision, 1);
    assert_eq!(first.config[0].value, "true");
    assert_eq!(value_of(&first, "token.mode").as_deref(), Some(r#"{"kind":"test"}"#));
    let conflict = transaction(
        first.clone(),
        TransactionInput {
            expected_revision: 0,
            config: None,
            operations: vec![StorageOperation::Remove { key: "count".into() }],
        },
    )
    .unwrap_err();
    assert_eq!(conflict.code.as_str(), "storage_conflict");
    assert_eq!(conflict.revision, Some(1));
    assert_eq!(value_of(&first, "count").as_deref(), Some("1"));
}

#[test]
fn bounded_change_cursor_requires_snapshot_after_history_rolls_over() {
    let mut document = empty();
    for revision in 0..=(MAX_CHANGES as u64) {
        document = transaction(
            document,
            TransactionInput {
                expected_revision: revision,
                config: None,
                operations: vec![set("value", &revision.to_string())],
            },
        )
        .unwrap();
    }
    let old = changes(&document, 0, 10).unwrap();
    assert!(old.reset_required);
    assert_eq!(old.revision, MAX_CHANGES as u64 + 1);
    let recent = changes(&document, MAX_CHANGES as u64, 10).unwrap();
    assert!(!recent.reset_required);
    assert_eq!(recent.changes.len(), 1);
}

#[test]
fn unchanged_transactions_keep_the_revision_and_changes_page_in_order() {
    let d = transaction(
        empty(),
        TransactionInput { expected_revision: 0, config: None, operations: vec![set("b", "1"), set("a", "2")] },
    )
    .unwrap();
    assert_eq!(d.revision, 1);
    assert_eq!(d.changes[0].keys, vec!["a".to_string(), "b".to_string()]);
    let same = transaction(
        d.clone(),
        TransactionInput { expected_revision: 1, config: None, operations: vec![set("a", "2")] },
    )
    .unwrap();
    assert_eq!(same.revision, 1);
    assert_eq!(same.changes.len(), 1);
    let page = changes(&d, 0, 5).unwrap();
    assert_eq!(page.cursor, 1);
    assert_eq!(changes(&d, 2, 5).unwrap_err().code, ServiceCode::InvalidCursor);
    assert_eq!(changes(&d, 0, 0).unwrap_err().code, ServiceCode::InvalidParams);
    let bad = transaction(
        d,
        TransactionInput { expected_revision: 1, config: None, operations: vec![set("bad key", "1")] },
    )
    .unwrap_err();
    assert_eq!(bad.code, ServiceCode::InvalidParams);
    let none = transaction(empty(), TransactionInput { expected_revision: 0, config: None, operations: vec![] });
    assert_eq!(none.unwrap_err().code, ServiceCode::InvalidParams);
}

#[test]
fn secret_debug_output_is_redacted_and_origins_reject_paths_and_userinfo() {
    let services = PluginServices::new("/home/u/.codlet/config.json", b"/home/u/.codlet/config.json");
    let owner = owner();
    let origin = put_precheck("https://api.example.test", None, "do-not-render").unwrap();
    let reference = reference_from_random(&[7u8; 24]);
    let d = commit_put(empty_credentials(), PutTarget::Fresh, reference.clone(), origin, None);
    let record = expected_owner_document(&owner);
    let value = services
        .resolve_credential(&owner, &reference, "https://api.example.test", Some(&record), &d, Some(b"do-not-render".to_vec()))
        .ok()
        .unwrap();
    assert_eq!(value.as_str(), "do-not-render");
    let rendered = value.redacted();
    assert_eq!(rendered, "SecretValue([REDACTED])");
    assert!(!rendered.contains("do-not-render"));
    for origin in ["https://api.example.test/path", "https://user@api.example.test", "file:///tmp/secret"] {
        assert_eq!(normalize_origin(origin).unwrap_err().code, ServiceCode::InvalidParams);
    }
}

#[test]
fn origins_normalise_websocket_schemes_ports_and_case() {
    assert_eq!(normalize_origin("https://API.Example.test").unwrap(), "https://api.example.test");
    assert_eq!(normalize_origin("wss://api.example.test:443/").unwrap(), "https://api.example.test");
    assert_eq!(normalize_origin("ws://api.example.test:8080").unwrap(), "http://api.example.test:8080");
    assert!(normalize_origin("https://api.example.test/?q=1").is_err());
    assert!(normalize_origin("https://api.example.test/#f").is_err());
    assert!(normalize_origin(&format!("https://{}.test", "a".repeat(2050))).is_err());
}

fn owner() -> ServiceOwner {
    ServiceOwner { plugin_id: "dev.secrets".into(), source_identity: "local:/stable/plugin".into() }
}

fn empty_credentials() -> CredentialDocument {
    CredentialDocument { schema: 1, revision: 0, credentials: vec![] }
}

#[test]
fn credential_metadata_uses_cas_and_origin_binding_is_immutable() {
    let origin = put_precheck("https://api.example.test/", Some("Work"), "s3cret").unwrap();
    assert_eq!(origin, "https://api.example.test");
    let d = empty_credentials();
    let target = put_target(&d, 0, None, &origin).unwrap();
    assert_eq!(target, PutTarget::Fresh);
    let reference = reference_from_random(&[7u8; 24]);
    assert!(validate_reference(&reference).is_ok());
    let d = commit_put(d, target, reference.clone(), origin.clone(), Some("Work".into()));
    assert_eq!(d.revision, 1);
    let m = credential_metadata(&d, &reference).unwrap();
    assert_eq!((m.created_revision, m.updated_revision), (1, 1));
    let stale = put_target(&d, 0, Some(&reference), &origin).unwrap_err();
    assert_eq!(stale.code, ServiceCode::CredentialConflict);
    assert_eq!(stale.revision, Some(1));
    let other = put_target(&d, 1, Some(&reference), "https://other.example.test").unwrap_err();
    assert_eq!(other.code, ServiceCode::CredentialOriginImmutable);
    let again = put_target(&d, 1, Some(&reference), &origin).unwrap();
    assert_eq!(again, PutTarget::Existing(0));
    let d = commit_put(d, again, reference.clone(), origin.clone(), None);
    let m = credential_metadata(&d, &reference).unwrap();
    assert_eq!((m.created_revision, m.updated_revision), (1, 2));
    assert_eq!(bound_credential(&d, &reference, &origin).unwrap(), 0);
    assert_eq!(
        bound_credential(&d, &reference, "https://other.example.test").unwrap_err().code,
        ServiceCode::CredentialOriginMismatch
    );
    assert_eq!(list_credentials(&d, Some("https://other.example.test")).unwrap().len(), 0);
    assert_eq!(list_credentials(&d, None).unwrap().len(), 1);
    let index = remove_target(&d, 2, &reference).unwrap();
    let d = commit_remove(d, index);
    assert_eq!(d.revision, 3);
    assert_eq!(credential_metadata(&d, &reference).unwrap_err().code, ServiceCode::CredentialNotFound);
}

#[test]
fn credential_inputs_are_bounded() {
    assert!(validate_reference(&format!("cred_{}", "0".repeat(48))).is_ok());
    assert!(validate_reference(&format!("cred_{}", "A".repeat(48))).is_err());
    assert!(validate_reference("cred_1").is_err());
    assert!(validate_label(None).is_ok());
    assert!(validate_label(Some("  ")).is_err());
    assert!(validate_label(Some("a\u{7}b")).is_err());
    assert!(validate_label(Some(&"x".repeat(129))).is_err());
    assert!(validate_label(Some(&"x".repeat(128))).is_ok());
    assert_eq!(put_precheck("https://api.example.test", None, "").unwrap_err().code, ServiceCode::InvalidParams);
    assert!(put_precheck("https://api.example.test", None, &"s".repeat(2049)).is_err());
    let full = CredentialDocument { schema: 2, revision: 0, credentials: vec![] };
    assert_eq!(put_target(&full, 0, None, "https://a.test").unwrap_err().code, ServiceCode::StorageCorrupt);
    assert_eq!(
        reference_from_random(&[0xab; 24]),
        format!("cred_{}", "ab".repeat(24))
    );
}

#[test]
fn owner_records_keep_only_a_hash_of_the_source_identity() {
    let document = expected_owner_document(&owner());
    assert_eq!(document.schema, 1);
    assert_eq!(document.plugin_id, "dev.secrets");
    assert_eq!(document.source_identity_hash.len(), 64);
    assert!(!document.source_identity_hash.contains("stable"));
    assert_eq!(hash_hex(b"abc"), "ba7816bf8f01cfea414140de5dae2223b00361a396177a9cb410ff61f20015ad");
    assert!(owner().validate().is_ok());
    let mut bad = owner();
    bad.source_identity = String::new();
    assert_eq!(bad.validate().unwrap_err().code, ServiceCode::InvalidOwner);
}

#[test]
fn metadata_never_contains_secret_and_resolve_enforces_owner_and_origin() {
    let services = PluginServices::new("/home/u/.codlet/config.json", b"/home/u/.codlet/config.json");
    let owner = owner();
    let origin = put_precheck("wss://api.example.test", Some("API token"), "never-print-this").unwrap();
    let reference = reference_from_random(&[9u8; 24]);
    let d = commit_put(empty_credentials(), PutTarget::Fresh, reference.clone(), origin, Some("API token".into()));
    let listed = list_credentials(&d, None).unwrap();
    assert!(!format!("{listed:?}").contains("never-print-this"));
    assert_eq!(listed[0].origin, "https://api.example.test");
    let secret = b"never-print-this".to_vec();
    let record = expected_owner_document(&owner);
    assert_eq!(
        services
            .resolve_credential(&owner, &reference, "https://api.example.test", Some(&record), &d, Some(secret.clone()))
            .ok()
            .unwrap()
            .as_str(),
        "never-print-this"
    );
    assert_eq!(
        services
            .resolve_credential(&owner, &reference, "https://other.example.test", Some(&record), &d, Some(secret.clone()))
            .err()
            .unwrap()
            .code,
        ServiceCode::CredentialOriginMismatch
    );
    let other = ServiceOwner { plugin_id: "dev.other-plugin".into(), source_identity: owner.source_identity.clone() };
    assert_eq!(
        services
            .resolve_credential(&other, &reference, "https://api.example.test", None, &empty_credentials(), None)
            .err()
            .unwrap()
            .code,
        ServiceCode::CredentialNotFound
    );
    let index = remove_target(&d, 1, &reference).unwrap();
    let removed = commit_remove(d, index);
    assert_eq!(
        services
            .resolve_credential(&owner, &reference, "https://api.example.test", Some(&record), &removed, Some(secret.clone()))
            .err()
            .unwrap()
            .code,
        ServiceCode::CredentialNotFound
    );
}

#[test]
fn resolve_refuses_foreign_namespaces_and_unusable_system_credentials() {
    let services = PluginServices::new("/home/u/.codlet/config.json", b"/home/u/.codlet/config.json");
    assert_eq!(services.root(), "/home/u/.codlet/config.json.plugin-services");
    let prefix = services.credential_prefix(&owner(), None).unwrap();
    let scope = hash_hex(b"/home/u/.codlet/config.json");
    assert_eq!(prefix, format!("Codlet/{}/dev.secrets/{}", &scope[..32], hash_hex(b"local:/stable/plugin")));
    let origin = put_precheck("https://api.example.test", None, "s3cret").unwrap();
    let reference = reference_from_random(&[9u8; 24]);
    let d = commit_put(empty_credentials(), PutTarget::Fresh, reference.clone(), origin.clone(), None);
    let record = expected_owner_document(&owner());
    let code = |r: Result<SecretValue, codlet::plugin_services::ServiceError>| r.err().unwrap().code;
    assert_eq!(
        code(services.resolve_credential(&owner(), "not-a-reference", &origin, None, &d, Some(b"x".to_vec()))),
        ServiceCode::InvalidParams
    );
    let stranger = ServiceOwner { plugin_id: "dev.secrets".into(), source_identity: "local:/other/plugin".into() };
    assert_eq!(
        code(services.resolve_credential(&stranger, &reference, &origin, Some(&record), &d, Some(b"x".to_vec()))),
        ServiceCode::SourceIdentityChanged
    );
    assert_eq!(
        code(services.resolve_credential(&owner(), &reference, &origin, None, &d, None)),
        ServiceCode::CredentialUnavailable
    );
    assert_eq!(
        code(services.resolve_credential(&owner(), &reference, &origin, None, &d, Some(vec![0xff, 0xfe]))),
        ServiceCode::CredentialUnavailable
    );
}

fn serialized_size(d: &StorageDocument) -> u64 {
    let mut entries = serde_json::Map::new();
    for e in &d.entries {
        entries.insert(e.key.clone(), serde_json::from_str(&e.value).unwrap());
    }
    let mut document = serde_json::Map::new();
    document.insert("schema".into(), serde_json::Value::from(d.schema));
    document.insert("revision".into(), serde_json::Value::from(d.revision));
    document.insert("entries".into(), serde_json::Value::Object(entries));
    serde_json::to_vec(&serde_json::Value::Object(document)).unwrap().len() as u64
}

#[test]
fn oversized_commit_leaves_the_previous_document_intact() {
    let kept = transaction(
        empty(),
        TransactionInput { expected_revision: 0, config: None, operations: vec![set("kept", "1")] },
    )
    .unwrap();
    assert!(check_state_size(serialized_size(&kept)).is_ok());
    let large = format!("\"{}\"", "x".repeat(120 * 1024));
    let operations: Vec<StorageOperation> = (0..7).map(|index| set(&format!("large-{index}"), &large)).collect();
    let candidate = transaction(kept.clone(), TransactionInput { expected_revision: 1, config: None, operations }).unwrap();
    let refused = check_state_size(serialized_size(&candidate)).unwrap_err();
    assert_eq!(refused.code.as_str(), "quota_exceeded");
    // The refused candidate is never written: the document stays as it was.
    assert_eq!(kept.revision, 1);
    assert_eq!(kept.entries.len(), 1);
    assert_eq!(value_of(&kept, "kept").as_deref(), Some("1"));
}

#[test]
fn changed_source_cannot_inherit_metadata_or_system_secret() {
    let services = PluginServices::new("/home/u/.codlet/config.json", b"/home/u/.codlet/config.json");
    let owner = owner();
    let origin = put_precheck("https://api.example.test", None, "source-bound").unwrap();
    let reference = reference_from_random(&[5u8; 24]);
    let d = commit_put(empty_credentials(), PutTarget::Fresh, reference.clone(), origin, None);
    let record = expected_owner_document(&owner);
    let changed = ServiceOwner { plugin_id: owner.plugin_id.clone(), source_identity: "github:another/repository".into() };
    let refused = services
        .resolve_credential(&changed, &reference, "https://api.example.test", Some(&record), &d, Some(b"source-bound".to_vec()))
        .err()
        .unwrap();
    assert_eq!(refused.code, ServiceCode::SourceIdentityChanged);
    assert_eq!(refused.code.as_str(), "source_identity_changed");
    assert_eq!(d.credentials.len(), 1);
}

use api_server::audit::{
    hmac_sha256_hex, unsigned_message_text, verify_chain, AuditEventCategory, AuditEventInput,
    AuditIntegrityStatus, AuditLogError, AuditLogQuery, AuditLogStore, constant_time_eq,
    default_audit_limit,
};

#[test]
fn test_append_creates_sequenced_hmac_signed_event() {
    let mut store = AuditLogStore::new(vec![7; 32]);
    let event = store.append(
        AuditEventInput::new(AuditEventCategory::Commitment, "ip.commit.requested".to_string())
            .ip_id(Some(1))
            .detail("commitment_hash".to_string(), Some("\"deadbeef\"".to_string())),
    );

    assert_eq!(event.sequence, 1);
    assert_eq!(event.previous_signature, "0");
    assert!(!event.signature.is_empty());
    assert_eq!(event.details, "{\"commitment_hash\":\"deadbeef\"}");
}

#[test]
fn test_query_filters_by_category_ip_and_success() {
    let mut store = AuditLogStore::new(vec![9; 32]);
    let actor_hash = store.hash_identifier("GOWNER");
    store.append(
        AuditEventInput::new(AuditEventCategory::Commitment, "ip.commit.requested".to_string())
            .actor_hash(Some(actor_hash.clone()))
            .ip_id(Some(1))
            .success(false),
    );
    store.append(
        AuditEventInput::new(AuditEventCategory::Swap, "swap.accept.requested".to_string())
            .swap_id(Some(2))
            .success(true),
    );

    let mut filter = AuditLogQuery::default();
    filter.category = Some(AuditEventCategory::Commitment);
    filter.ip_id = Some(1);
    filter.success = Some(false);
    let response = store.query(&filter);

    assert_eq!(response.total_count, 1);
    assert_eq!(response.events.len(), 1);
    assert_eq!(response.events[0].event_type, "ip.commit.requested");
    assert_eq!(response.events[0].actor_hash.as_deref(), Some(actor_hash.as_str()));
    assert_eq!(response.integrity, AuditIntegrityStatus::Valid);
}

#[test]
fn test_query_limits_and_reports_has_more() {
    let mut store = AuditLogStore::new(vec![11; 32]);
    store.append(AuditEventInput::new(AuditEventCategory::Admin, "admin.action".to_string()));
    store.append(AuditEventInput::new(AuditEventCategory::Admin, "admin.action".to_string()));

    let mut filter = AuditLogQuery::default();
    filter.limit = 1;
    filter.offset = 0;
    let response = store.query(&filter);

    assert_eq!(response.total_count, 2);
    assert_eq!(response.events.len(), 1);
    assert!(response.has_more);
}

#[test]
fn test_tamper_detection_finds_modified_details() {
    let mut store = AuditLogStore::new(vec![13; 32]);
    let mut event = store.append(
        AuditEventInput::new(AuditEventCategory::Admin, "admin.action".to_string())
            .detail("action".to_string(), Some("\"register\"".to_string())),
    );
    assert!(verify_chain(&[13; 32], &[event.clone()]));

    event.details = "{\"action\":\"tamper\"}".to_string();
    let events = vec![event];

    assert!(!verify_chain(&[13; 32], &events));
}

#[test]
fn test_tamper_detection_finds_sequence_gap() {
    let mut store = AuditLogStore::new(vec![17; 32]);
    let mut first = store.append(AuditEventInput::new(AuditEventCategory::Admin, "admin.action".to_string()));
    let second = store.append(AuditEventInput::new(AuditEventCategory::Admin, "admin.action".to_string()));
    assert!(verify_chain(&[17; 32], &[first.clone(), second.clone()]));

    first.sequence = 99;
    let events = vec![first, second];

    assert!(!verify_chain(&[17; 32], &events));
}

#[test]
fn test_hash_identifier_is_stable_without_exposing_input() {
    let store = AuditLogStore::new(vec![19; 32]);
    let hashed = store.hash_identifier("GOWNER@example.invalid");

    assert_eq!(hashed.len(), 64);
    assert!(!hashed.contains("GOWNER"));
    assert_eq!(hashed, store.hash_identifier("GOWNER@example.invalid"));
    assert_ne!(hashed, store.hash_identifier("GOTHER@example.invalid"));
}

// ── Further cases ────────────────────────────────────────────────────────────

#[test]
fn hmac_matches_rfc_4231_vector() {
    let key = [0x0bu8; 20];
    assert_eq!(
        hmac_sha256_hex(&key, "Hi There"),
        "b0344c61d8db38535ca8afceaf0bf12b881dc200c9833da726e9376c2e32cff7"
    );
}

#[test]
fn canonical_message_escapes_and_orders_fields() {
    let mut store = AuditLogStore::new(vec![3; 32]);
    let event = store.append_at(
        AuditEventInput::new(AuditEventCategory::Swap, "a\"b\n\u{1}".to_string())
            .request_id(Some(String::new()))
            .trace_id(Some("t-1".to_string()))
            .status_code(Some(201))
            .detail("z".to_string(), Some("1".to_string()))
            .detail("a".to_string(), Some("[true]".to_string()))
            .detail("z".to_string(), Some("2".to_string())),
        -5,
    );
    assert_eq!(event.request_id, None);
    assert_eq!(
        unsigned_message_text(&event),
        "{\"sequence\":1,\"timestamp\":-5,\"category\":\"swap\",\"event_type\":\"a\\\"b\\n\\u0001\",\"actor_hash\":null,\"ip_id\":null,\"swap_id\":null,\"request_id\":null,\"trace_id\":\"t-1\",\"success\":true,\"status_code\":201,\"details\":{\"a\":[true],\"z\":2},\"previous_signature\":\"0\"}"
    );
}

#[test]
fn chain_links_and_pagination() {
    let mut store = AuditLogStore::new(vec![5; 32]);
    let mut events = Vec::new();
    for i in 0..5u64 {
        events.push(store.append(
            AuditEventInput::new(AuditEventCategory::Admin, "admin.action".to_string()).ip_id(Some(i)),
        ));
    }
    assert_eq!(store.len(), 5);
    for i in 1..5 {
        assert_eq!(events[i].previous_signature, events[i - 1].signature);
        assert_eq!(events[i].sequence, i as u64 + 1);
    }
    assert!(verify_chain(&[5; 32], &events));
    let mut swapped = events.clone();
    swapped.swap(1, 2);
    assert!(!verify_chain(&[5; 32], &swapped));

    let mut filter = AuditLogQuery::default();
    filter.offset = 3;
    filter.limit = 0;
    let page = store.query(&filter);
    assert_eq!(page.events.len(), 1);
    assert_eq!(page.events[0].sequence, 4);
    assert!(page.has_more);

    filter.offset = 10;
    let page = store.query(&filter);
    assert_eq!(page.events.len(), 0);
    assert!(!page.has_more);
    assert_eq!(page.total_count, 5);

    let mut filter = AuditLogQuery::default();
    filter.min_sequence = Some(2);
    filter.max_sequence = Some(3);
    let page = store.query(&filter);
    assert_eq!(page.total_count, 2);

    store.clear();
    assert_eq!(store.len(), 0);
    assert_eq!(store.query(&AuditLogQuery::default()).integrity, AuditIntegrityStatus::Empty);
}

#[test]
fn empty_key_gets_random_key_and_defaults() {
    let a = AuditLogStore::new(Vec::new());
    let b = AuditLogStore::new(Vec::new());
    assert_eq!(a.hash_identifier("x").len(), 64);
    assert_ne!(a.hash_identifier("x"), b.hash_identifier("x"));
    assert_eq!(default_audit_limit(), 50);
    assert_eq!(AuditLogQuery::default().limit, 50);
    assert_eq!(AuditLogError::LockPoisoned.message(), "audit log lock poisoned");
    assert_eq!(AuditLogError::Serialization.message(), "audit log serialization failed");
}

#[test]
fn constant_time_comparison() {
    assert!(constant_time_eq(b"abc", b"abc"));
    assert!(!constant_time_eq(b"abc", b"abd"));
    assert!(!constant_time_eq(b"abc", b"ab"));
    assert!(constant_time_eq(b"", b""));
}

#[test]
fn successive_appends_link_and_keep_the_chain_valid() {
    let mut store = AuditLogStore::new(vec![3; 32]);
    let first = store.append(AuditEventInput::new(AuditEventCategory::Admin, "a".to_string()));
    let second = store.append(AuditEventInput::new(AuditEventCategory::Swap, "b".to_string()));
    assert_eq!(first.sequence, 1);
    assert_eq!(second.sequence, 2);
    assert_eq!(second.previous_signature, first.signature);
    for signature in [&first.signature, &second.signature] {
        assert_eq!(signature.len(), 64);
        assert!(signature.bytes().all(|b| b.is_ascii_digit() || (b'a'..=b'f').contains(&b)));
    }
    assert_eq!(store.len(), 2);
    let response = store.query(&AuditLogQuery::default());
    assert_eq!(response.integrity, AuditIntegrityStatus::Valid);
    assert!(verify_chain(&[3; 32], &response.events));
}

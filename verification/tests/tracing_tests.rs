use api_server::tracing_middleware::{extract_or_generate_trace_id, new_trace_context, TRACE_ID_HEADER};

#[test]
fn test_trace_id_generation() {
    let headers = axum::http::HeaderMap::new();
    let trace_id = extract_or_generate_trace_id(headers.get(TRACE_ID_HEADER).and_then(|v| v.to_str().ok()));
    assert!(!trace_id.is_empty());
    assert!(uuid::Uuid::parse_str(&trace_id).is_ok());
}

#[test]
fn test_trace_id_extraction() {
    let mut headers = axum::http::HeaderMap::new();
    let original_id = "550e8400-e29b-41d4-a716-446655440000";
    headers.insert(TRACE_ID_HEADER, original_id.parse().unwrap());

    let trace_id = extract_or_generate_trace_id(headers.get(TRACE_ID_HEADER).and_then(|v| v.to_str().ok()));
    assert_eq!(trace_id, original_id);
}

#[test]
fn fresh_ids_differ() {
    let a = extract_or_generate_trace_id(None);
    let b = extract_or_generate_trace_id(None);
    assert_eq!(a.len(), 36);
    assert_ne!(a, b);
    let context = new_trace_context(a.clone());
    assert_eq!(context.trace_id, a);
    assert!(uuid::Uuid::parse_str(&context.request_id).is_ok());
}

fn is_v4_text(s: &str) -> bool {
    let b = s.as_bytes();
    b.len() == 36
        && b.iter().enumerate().all(|(i, c)| {
            if i == 8 || i == 13 || i == 18 || i == 23 {
                *c == b'-'
            } else {
                c.is_ascii_digit() || (b'a'..=b'f').contains(c)
            }
        })
        && b[14] == b'4'
        && matches!(b[19], b'8' | b'9' | b'a' | b'b')
}

#[test]
fn fresh_ids_are_version_4() {
    for _ in 0..20 {
        assert!(is_v4_text(&extract_or_generate_trace_id(None)));
        assert!(is_v4_text(&new_trace_context(String::from("t")).request_id));
    }
}

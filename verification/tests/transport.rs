use polymarket_rs::error::ClobError;
use polymarket_rs::http::{
    api_error, build_url, contains_header_name, default_headers, is_success_status, merge_headers,
    Header,
};

fn header(name: &str, value: &str) -> Header {
    Header { name: name.to_string(), value: value.to_string() }
}

#[test]
fn default_header_set_is_fixed() {
    let defaults = default_headers();
    assert_eq!(defaults.len(), 4);
    assert_eq!(defaults[0].name, "User-Agent");
    assert_eq!(defaults[0].value, "py_clob_client");
    assert_eq!(defaults[1].name, "Accept");
    assert_eq!(defaults[1].value, "*/*");
    assert_eq!(defaults[2].name, "Connection");
    assert_eq!(defaults[2].value, "keep-alive");
    assert_eq!(defaults[3].name, "Content-Type");
    assert_eq!(defaults[3].value, "application/json");
}

#[test]
fn call_header_overrides_default_without_duplication() {
    let defaults = default_headers();
    let overrides = vec![header("User-Agent", "custom-agent")];
    let merged = merge_headers(&defaults, &overrides);
    let agents: Vec<&Header> = merged.iter().filter(|h| h.name == "User-Agent").collect();
    assert_eq!(agents.len(), 1);
    assert_eq!(agents[0].value, "custom-agent");
    // The other defaults are untouched.
    assert!(merged.iter().any(|h| h.name == "Accept" && h.value == "*/*"));
    assert!(merged.iter().any(|h| h.name == "Connection" && h.value == "keep-alive"));
    assert!(merged.iter().any(|h| h.name == "Content-Type" && h.value == "application/json"));
    assert_eq!(merged.len(), 4);
}

#[test]
fn fresh_call_header_is_added_beside_defaults() {
    let defaults = default_headers();
    let overrides = vec![header("X-Request-Tag", "pricing-probe")];
    let merged = merge_headers(&defaults, &overrides);
    assert_eq!(merged.len(), 5);
    assert!(merged.iter().any(|h| h.name == "X-Request-Tag" && h.value == "pricing-probe"));
    assert!(merged.iter().any(|h| h.name == "User-Agent" && h.value == "py_clob_client"));
}

#[test]
fn merge_without_overrides_keeps_defaults() {
    let defaults = default_headers();
    let merged = merge_headers(&defaults, &Vec::new());
    assert_eq!(merged.len(), 4);
    for (kept, original) in merged.iter().zip(default_headers().iter()) {
        assert_eq!(kept.name, original.name);
        assert_eq!(kept.value, original.value);
    }
}

#[test]
fn contains_header_name_finds_names() {
    let defaults = default_headers();
    assert!(contains_header_name(&defaults, &"Accept".to_string()));
    assert!(!contains_header_name(&defaults, &"X-Request-Tag".to_string()));
}

#[test]
fn success_statuses_are_the_2xx_range() {
    assert!(is_success_status(200));
    assert!(is_success_status(204));
    assert!(is_success_status(299));
    assert!(!is_success_status(199));
    assert!(!is_success_status(300));
    assert!(!is_success_status(404));
    assert!(!is_success_status(500));
}

#[test]
fn non_success_body_becomes_api_error_verbatim() {
    let err = api_error(404, Some("not found".to_string()));
    match err {
        ClobError::Api { status, message } => {
            assert_eq!(status, 404);
            assert_eq!(message, "not found");
        }
        other => panic!("expected Api, got {:?}", other),
    }
}

#[test]
fn unreadable_error_body_degrades_to_placeholder() {
    let err = api_error(500, None);
    match err {
        ClobError::Api { status, message } => {
            assert_eq!(status, 500);
            assert_eq!(message, "Unknown error");
        }
        other => panic!("expected Api, got {:?}", other),
    }
}

#[test]
fn error_kinds_are_distinguishable() {
    let transport = ClobError::Transport("connection refused".to_string());
    let api = ClobError::Api { status: 404, message: "not found".to_string() };
    let domain = ClobError::InvalidOrder("no liquidity".to_string());
    assert!(matches!(transport, ClobError::Transport(_)));
    assert!(matches!(api, ClobError::Api { .. }));
    assert!(matches!(domain, ClobError::InvalidOrder(_)));
    assert_ne!(transport, domain);
}

#[test]
fn url_is_base_plus_path_verbatim() {
    let url = build_url("https://clob.example.org", "/book?token_id=7");
    assert_eq!(url, "https://clob.example.org/book?token_id=7");
    let odd = build_url("https://clob.example.org/", "no-leading-slash");
    assert_eq!(odd, "https://clob.example.org/no-leading-slash");
}

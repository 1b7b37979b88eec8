use rust_webhooks::dimensions::webhook_dimensions;
use rust_webhooks::sensitive::{
    is_sensitive_key, load_sensitive_keys_config, SensitiveKeysConfig, DEFAULT_SENSITIVE_HEADERS,
    DEFAULT_SENSITIVE_QUERY_KEYS,
};
use rust_webhooks::settings::resolve_ttl_seconds;
use rust_webhooks::reply::Body;

#[test]
fn webhook_dimensions_extracts_tenant_app_event() {
    let (tenant, app, event) = webhook_dimensions("/api/webhooks/tenantA/appB/eventC");

    assert_eq!(tenant.as_deref(), Some("tenantA"));
    assert_eq!(app.as_deref(), Some("appB"));
    assert_eq!(event.as_deref(), Some("eventC"));
}

#[test]
fn webhook_dimensions_handles_tenant_app_without_event() {
    let (tenant, app, event) = webhook_dimensions("/api/webhooks/tenantA/appB");

    assert_eq!(tenant.as_deref(), Some("tenantA"));
    assert_eq!(app.as_deref(), Some("appB"));
    assert_eq!(event, None);
}

#[test]
fn webhook_dimensions_ignores_extra_segments() {
    let (tenant, app, event) = webhook_dimensions("/api/webhooks/t/a/e/extra/path");

    assert_eq!(tenant.as_deref(), Some("t"));
    assert_eq!(app.as_deref(), Some("a"));
    assert_eq!(event.as_deref(), Some("e"));
}

#[test]
fn webhook_dimensions_handles_base_path() {
    let (tenant, app, event) = webhook_dimensions("/api/webhooks");

    assert_eq!(tenant, None);
    assert_eq!(app, None);
    assert_eq!(event, None);
}

#[test]
fn webhook_dimensions_skips_empty_segments_and_repeated_prefixes() {
    let (tenant, app, event) = webhook_dimensions("//api/webhooksapi/webhooks//x//y");
    assert_eq!(tenant.as_deref(), Some("x"));
    assert_eq!(app.as_deref(), Some("y"));
    assert_eq!(event, None);

    let (tenant, app, event) = webhook_dimensions("/api/webhooks/");
    assert_eq!((tenant, app, event), (None, None, None));

    let (tenant, app, event) = webhook_dimensions("");
    assert_eq!((tenant, app, event), (None, None, None));

    let (tenant, _, _) = webhook_dimensions("/other/path");
    assert_eq!(tenant.as_deref(), Some("other"));

    let (tenant, app, _) = webhook_dimensions("/api/webhooks/té/ünï");
    assert_eq!(tenant.as_deref(), Some("té"));
    assert_eq!(app.as_deref(), Some("ünï"));
}

#[test]
fn webhook_dimensions_follow_the_documented_path_shape() {
    for (t, a, e, rest) in [("shopify", "orders", "paid", ""), ("T1", "A-2", "e.3", "/more/things"), ("x", "y", "z", "/")] {
        let path = format!("/api/webhooks/{t}/{a}/{e}{rest}");
        let (tenant, app, event) = webhook_dimensions(&path);
        assert_eq!(tenant.as_deref(), Some(t));
        assert_eq!(app.as_deref(), Some(a));
        assert_eq!(event.as_deref(), Some(e));
    }
}

#[test]
fn resolve_ttl_uses_default_when_absent() {
    let ttl = resolve_ttl_seconds(None, 300).expect("ttl should resolve from default");
    assert_eq!(ttl, 300);
}

#[test]
fn resolve_ttl_prefers_request_value() {
    let ttl = resolve_ttl_seconds(Some(45), 300).expect("ttl should resolve from request");
    assert_eq!(ttl, 45);
}

#[test]
fn resolve_ttl_rejects_non_positive_values() {
    let err = resolve_ttl_seconds(Some(0), 300).expect_err("ttl=0 must fail");
    assert_eq!(err.status, 400);
}

#[test]
fn resolve_ttl_error_names_the_rule() {
    let err = resolve_ttl_seconds(Some(-5), 300).expect_err("negative ttl must fail");
    assert!(matches!(err.body, Body::Error(ref m) if m == "ttl_seconds must be greater than 0"));
    let err = resolve_ttl_seconds(None, 0).expect_err("a zero default must fail");
    assert_eq!(err.status, 400);
    assert_eq!(resolve_ttl_seconds(Some(i64::MAX), 1).unwrap(), i64::MAX);
}

#[test]
fn sensitive_key_matching_supports_exact_suffix_and_contains() {
    let config = SensitiveKeysConfig {
        exact_matches: vec!["authorization".to_string()],
        contains: vec!["secret".to_string()],
        suffix: vec!["token".to_string()],
    };

    assert!(is_sensitive_key("authorization", &config));
    assert!(is_sensitive_key("refresh_token", &config));
    assert!(is_sensitive_key("my_secret_value", &config));
    assert!(!is_sensitive_key("x-request-id", &config));
}

#[test]
fn sensitive_key_matching_ignores_key_case() {
    let config = load_sensitive_keys_config(None, DEFAULT_SENSITIVE_HEADERS);
    assert!(is_sensitive_key("Authorization", &config));
    assert!(is_sensitive_key("X-API-KEY", &config));
    assert!(!is_sensitive_key("X-Request-Id", &config));
    assert!(!is_sensitive_key("authorization2", &config));
}

#[test]
fn default_lists_are_exact_lowercase_keys() {
    let headers = load_sensitive_keys_config(None, DEFAULT_SENSITIVE_HEADERS);
    assert_eq!(headers.exact_matches.len(), 14);
    assert!(headers.contains.is_empty());
    assert!(headers.suffix.is_empty());
    assert_eq!(headers.exact_matches[0], "authorization");
    assert_eq!(headers.exact_matches[13], "x-amz-security-token");

    let query = load_sensitive_keys_config(None, DEFAULT_SENSITIVE_QUERY_KEYS);
    assert_eq!(query.exact_matches.len(), 16);
    assert!(is_sensitive_key("password", &query));
    assert!(is_sensitive_key("JWT", &query));
    assert!(!is_sensitive_key("page", &query));
}

#[test]
fn configured_patterns_follow_the_documented_forms() {
    let config = load_sensitive_keys_config(
        Some(" Authorization , *Token, *SECRET*, x-*, ,**both**,*".to_string()),
        DEFAULT_SENSITIVE_HEADERS,
    );
    assert_eq!(config.exact_matches, vec!["authorization".to_string()]);
    assert_eq!(config.suffix, vec!["token".to_string(), "x-".to_string()]);
    assert_eq!(config.contains, vec!["secret".to_string(), "both".to_string(), String::new()]);

    let config = load_sensitive_keys_config(Some("*token".to_string()), "");
    assert!(is_sensitive_key("refresh_token", &config));
    assert!(is_sensitive_key("X_TOKEN", &config));
    assert!(!is_sensitive_key("token_id", &config));

    let config = load_sensitive_keys_config(Some("*secret*".to_string()), "");
    assert!(is_sensitive_key("my_secret_value", &config));
    assert!(!is_sensitive_key("secre", &config));

    let config = load_sensitive_keys_config(Some("custom-token".to_string()), "");
    assert!(is_sensitive_key("Custom-Token", &config));
    assert!(!is_sensitive_key("x-custom-token", &config));
}

#[test]
fn configured_entries_are_trimmed_of_unicode_whitespace() {
    let config = load_sensitive_keys_config(Some("\u{3000}\tApi-Key\u{a0}\n".to_string()), "");
    assert_eq!(config.exact_matches, vec!["api-key".to_string()]);
    let config = load_sensitive_keys_config(Some(String::new()), DEFAULT_SENSITIVE_HEADERS);
    assert!(config.exact_matches.is_empty() && config.contains.is_empty() && config.suffix.is_empty());
}

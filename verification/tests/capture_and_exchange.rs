use rust_webhooks::capture::capture_webhook;
use rust_webhooks::exchange::{
    expects_event, new_exchange, step, Action, Event, Exchange, JsonShape, Outcome, Phase, Request, StoreCommand, StoreResult,
};
use rust_webhooks::redact::{headers_to_json, query_to_json, HeaderFields, QueryFields};
use rust_webhooks::reply::{Body, Reply};
use rust_webhooks::sensitive::{load_sensitive_keys_config, SensitiveKeysConfig, DEFAULT_SENSITIVE_HEADERS, DEFAULT_SENSITIVE_QUERY_KEYS};

fn header_values<'a>(fields: &'a HeaderFields, name: &str) -> Option<&'a Vec<String>> {
    fields.names.iter().position(|n| n == name).map(|i| &fields.values[i])
}

fn query_value<'a>(fields: &'a QueryFields, name: &str) -> Option<&'a String> {
    fields.names.iter().position(|n| n == name).map(|i| &fields.values[i])
}

fn no_patterns() -> SensitiveKeysConfig {
    SensitiveKeysConfig { exact_matches: vec![], contains: vec![], suffix: vec![] }
}

#[test]
fn headers_are_grouped_redacted_and_filtered() {
    let config = load_sensitive_keys_config(None, DEFAULT_SENSITIVE_HEADERS);
    let headers = vec![
        ("content-type".to_string(), b"application/json".to_vec()),
        ("authorization".to_string(), b"Bearer abc".to_vec()),
        ("x-trace".to_string(), b"one".to_vec()),
        ("x-trace".to_string(), b"two\tthree".to_vec()),
        ("x-binary".to_string(), vec![0x80, 0x41]),
        ("x-control".to_string(), vec![0x41, 0x7f]),
        ("x-trace".to_string(), vec![0x01]),
    ];
    let fields = headers_to_json(&headers, &config);
    assert_eq!(fields.names.len(), 3);
    assert_eq!(header_values(&fields, "content-type").unwrap(), &vec!["application/json".to_string()]);
    assert_eq!(header_values(&fields, "authorization").unwrap(), &vec!["[REDACTED]".to_string()]);
    assert_eq!(header_values(&fields, "x-trace").unwrap(), &vec!["one".to_string(), "two\tthree".to_string()]);
    assert!(header_values(&fields, "x-binary").is_none());
    assert!(header_values(&fields, "x-control").is_none());
}

#[test]
fn query_parameters_are_redacted_and_last_value_wins() {
    let config = load_sensitive_keys_config(None, DEFAULT_SENSITIVE_QUERY_KEYS);
    let query = vec![
        ("source".to_string(), "test".to_string()),
        ("Token".to_string(), "abc".to_string()),
        ("page".to_string(), "1".to_string()),
        ("page".to_string(), "2".to_string()),
    ];
    let fields = query_to_json(&query, &config);
    assert_eq!(fields.names.len(), 3);
    assert_eq!(query_value(&fields, "source").unwrap(), "test");
    assert_eq!(query_value(&fields, "Token").unwrap(), "[REDACTED]");
    assert_eq!(query_value(&fields, "page").unwrap(), "2");
    let plain = query_to_json(&query, &no_patterns());
    assert_eq!(query_value(&plain, "Token").unwrap(), "abc");
}

#[test]
fn capture_builds_the_stored_record() {
    let headers_config = load_sensitive_keys_config(None, DEFAULT_SENSITIVE_HEADERS);
    let query_config = load_sensitive_keys_config(None, DEFAULT_SENSITIVE_QUERY_KEYS);
    let body = b"{\"order_id\":123,\"status\":\"paid\"}";
    let record = capture_webhook(
        "POST".to_string(),
        "/api/webhooks/shopify/orders".to_string(),
        &vec![("x-app".to_string(), b"demo".to_vec()), ("cookie".to_string(), b"k=v".to_vec())],
        &vec![("source".to_string(), "test".to_string()), ("api_key".to_string(), "k".to_string())],
        body,
        &headers_config,
        &query_config,
    );
    assert_eq!(record.method, "POST");
    assert_eq!(record.path, "/api/webhooks/shopify/orders");
    assert_eq!(record.tenant.as_deref(), Some("shopify"));
    assert_eq!(record.app.as_deref(), Some("orders"));
    assert_eq!(record.event, None);
    assert_eq!(record.body_text.as_deref(), Some("{\"order_id\":123,\"status\":\"paid\"}"));
    assert_eq!(record.body_base64, "eyJvcmRlcl9pZCI6MTIzLCJzdGF0dXMiOiJwYWlkIn0=");
    assert_eq!(header_values(&record.headers, "cookie").unwrap(), &vec!["[REDACTED]".to_string()]);
    assert_eq!(header_values(&record.headers, "x-app").unwrap(), &vec!["demo".to_string()]);
    assert_eq!(query_value(&record.query_params, "api_key").unwrap(), "[REDACTED]");

    let binary = capture_webhook(
        "PUT".to_string(),
        "/api/webhooks".to_string(),
        &vec![],
        &vec![],
        &[0xff, 0xfe, 0x00],
        &headers_config,
        &query_config,
    );
    assert_eq!(binary.body_text, None);
    assert_eq!(binary.body_base64, "//4A");
    assert_eq!(binary.tenant, None);

    let unicode = capture_webhook("GET".to_string(), "/".to_string(), &vec![], &vec![], "héllo".as_bytes(), &headers_config, &query_config);
    assert_eq!(unicode.body_text.as_deref(), Some("héllo"));
}

fn run(request: Request, events: &[Event]) -> (Vec<Action>, Exchange) {
    let mut ex = new_exchange(request, 300);
    let mut actions = Vec::new();
    let mut queue = vec![Event::Begin];
    queue.extend(events.iter().map(|e| match e {
        Event::Begin => Event::Begin,
        Event::ExpiryFinished(ok) => Event::ExpiryFinished(*ok),
        Event::StoreFinished(StoreResult::Row) => Event::StoreFinished(StoreResult::Row),
        Event::StoreFinished(StoreResult::NoRow) => Event::StoreFinished(StoreResult::NoRow),
        Event::StoreFinished(StoreResult::Failed) => Event::StoreFinished(StoreResult::Failed),
    }));
    for event in queue {
        let (next, action) = step(ex, event);
        ex = next;
        actions.push(action);
        if matches!(ex.phase, Phase::Done) {
            break;
        }
    }
    (actions, ex)
}

fn reply_of(action: &Action) -> &Reply {
    match action {
        Action::Respond(r) => r,
        Action::Run(c) => panic!("expected a reply, got {c:?}"),
    }
}

fn error_text(reply: &Reply) -> &str {
    match &reply.body {
        Body::Error(m) => m,
        other => panic!("expected an error body, got {other:?}"),
    }
}

#[test]
fn receive_expires_then_claims_with_resolved_ttl() {
    let request = Request::Receive { tenant: "t".to_string(), app: "a".to_string(), event: None, ttl_seconds: Some(45) };
    let (actions, ex) = run(request, &[Event::ExpiryFinished(true), Event::StoreFinished(StoreResult::Row)]);
    assert!(matches!(actions[0], Action::Run(StoreCommand::ExpireStaleClaims)));
    match &actions[1] {
        Action::Run(StoreCommand::ClaimNext { tenant, app, event, ttl_seconds }) => {
            assert_eq!((tenant.as_str(), app.as_str(), event.is_none(), *ttl_seconds), ("t", "a", true, 45));
        },
        other => panic!("unexpected {other:?}"),
    }
    let reply = reply_of(&actions[2]);
    assert_eq!(reply.status, 200);
    assert!(matches!(reply.body, Body::Record));
    assert!(matches!(ex.phase, Phase::Done));

    let request = Request::Receive { tenant: "t".to_string(), app: "a".to_string(), event: Some("e".to_string()), ttl_seconds: None };
    let (actions, _) = run(request, &[Event::ExpiryFinished(true), Event::StoreFinished(StoreResult::NoRow)]);
    assert!(matches!(actions[1], Action::Run(StoreCommand::ClaimNext { ttl_seconds: 300, .. })));
    let reply = reply_of(&actions[2]);
    assert_eq!(reply.status, 204);
    assert!(matches!(reply.body, Body::Empty));
}

#[test]
fn receive_refuses_a_non_positive_ttl_after_expiry() {
    let request = Request::Receive { tenant: "t".to_string(), app: "a".to_string(), event: None, ttl_seconds: Some(0) };
    let (actions, _) = run(request, &[Event::ExpiryFinished(true)]);
    let reply = reply_of(&actions[1]);
    assert_eq!(reply.status, 400);
    assert_eq!(error_text(reply), "ttl_seconds must be greater than 0");
}

#[test]
fn failed_expiry_is_answered_500() {
    let request = Request::Peek { tenant: "t".to_string(), app: "a".to_string(), event: None };
    let (actions, _) = run(request, &[Event::ExpiryFinished(false)]);
    let reply = reply_of(&actions[1]);
    assert_eq!(reply.status, 500);
    assert_eq!(error_text(reply), "failed to update ttl status");
}

#[test]
fn peek_reads_without_claiming() {
    let request = Request::Peek { tenant: "t".to_string(), app: "a".to_string(), event: Some("e".to_string()) };
    let (actions, _) = run(request, &[Event::ExpiryFinished(true), Event::StoreFinished(StoreResult::Failed)]);
    assert!(matches!(actions[1], Action::Run(StoreCommand::PeekNext { .. })));
    let reply = reply_of(&actions[2]);
    assert_eq!(reply.status, 500);
    assert_eq!(error_text(reply), "failed to peek webhook");
}

fn complete(outcome: &str, result: Option<JsonShape>, extra: Option<JsonShape>) -> Request {
    Request::Complete {
        outcome: outcome.to_string(),
        substatus: Some("retry-transient".to_string()),
        result,
        extra_properties: extra,
    }
}

#[test]
fn completion_validates_outcome_and_objects() {
    let (actions, _) = run(complete("SUCCESS", Some(JsonShape::Object), None), &[Event::ExpiryFinished(true), Event::StoreFinished(StoreResult::Row)]);
    assert!(matches!(actions[1], Action::Run(StoreCommand::Complete { outcome: Outcome::Success, substatus: None })));
    assert_eq!(reply_of(&actions[2]).status, 200);

    let (actions, _) = run(complete("Failed", None, None), &[Event::ExpiryFinished(true), Event::StoreFinished(StoreResult::NoRow)]);
    match &actions[1] {
        Action::Run(StoreCommand::Complete { outcome: Outcome::Failed, substatus: Some(s) }) => assert_eq!(s, "retry-transient"),
        other => panic!("unexpected {other:?}"),
    }
    let reply = reply_of(&actions[2]);
    assert_eq!(reply.status, 404);
    assert_eq!(error_text(reply), "webhook not found or not in 'received' state");

    let (actions, _) = run(complete("done", None, None), &[Event::ExpiryFinished(true)]);
    let reply = reply_of(&actions[1]);
    assert_eq!(reply.status, 400);
    assert_eq!(error_text(reply), "outcome must be either 'success' or 'failed'");

    let (actions, _) = run(complete("success", Some(JsonShape::Other), None), &[Event::ExpiryFinished(true)]);
    assert_eq!(error_text(reply_of(&actions[1])), "result must be a JSON object");

    let (actions, _) = run(complete("success", None, Some(JsonShape::Other)), &[Event::ExpiryFinished(true)]);
    assert_eq!(error_text(reply_of(&actions[1])), "extra_properties must be a JSON object");

    let (actions, _) = run(complete("failed", None, None), &[Event::ExpiryFinished(true), Event::StoreFinished(StoreResult::Failed)]);
    assert_eq!(error_text(reply_of(&actions[2])), "failed to complete webhook");
}

#[test]
fn check_in_extends_the_claim() {
    let request = Request::CheckIn { ttl_seconds: None, status_text: Some("working".to_string()), intermediate_status: None };
    let (actions, _) = run(request, &[Event::ExpiryFinished(true), Event::StoreFinished(StoreResult::NoRow)]);
    match &actions[1] {
        Action::Run(StoreCommand::CheckIn { ttl_seconds, status_text, intermediate_status }) => {
            assert_eq!(*ttl_seconds, 300);
            assert_eq!(status_text.as_deref(), Some("working"));
            assert!(intermediate_status.is_none());
        },
        other => panic!("unexpected {other:?}"),
    }
    assert_eq!(reply_of(&actions[2]).status, 404);

    let request = Request::CheckIn { ttl_seconds: Some(-1), status_text: None, intermediate_status: None };
    let (actions, _) = run(request, &[Event::ExpiryFinished(true)]);
    assert_eq!(reply_of(&actions[1]).status, 400);

    let request = Request::CheckIn { ttl_seconds: Some(10), status_text: None, intermediate_status: None };
    let (actions, _) = run(request, &[Event::ExpiryFinished(true), Event::StoreFinished(StoreResult::Failed)]);
    assert_eq!(error_text(reply_of(&actions[2])), "failed to check in webhook");
}

#[test]
fn operator_endpoints_only_read() {
    let (actions, _) = run(Request::OperatorStatus, &[Event::StoreFinished(StoreResult::Row)]);
    assert!(matches!(actions[0], Action::Run(StoreCommand::StatusSummary)));
    assert_eq!(reply_of(&actions[1]).status, 200);
    let (actions, _) = run(Request::OperatorStatus, &[Event::StoreFinished(StoreResult::Failed)]);
    assert_eq!(error_text(reply_of(&actions[1])), "failed to fetch operator status");

    let (actions, _) = run(Request::WebhookStatus, &[Event::StoreFinished(StoreResult::NoRow)]);
    assert!(matches!(actions[0], Action::Run(StoreCommand::WebhookStatus)));
    let reply = reply_of(&actions[1]);
    assert_eq!(reply.status, 404);
    assert_eq!(error_text(reply), "webhook not found");
    let (actions, _) = run(Request::WebhookStatus, &[Event::StoreFinished(StoreResult::Failed)]);
    assert_eq!(error_text(reply_of(&actions[1])), "failed to fetch webhook status");
}

#[test]
fn active_webhooks_require_tenant_with_app() {
    let request = Request::ActiveWebhooks { tenant_filter: None, app_filter: Some("orders".to_string()) };
    let (actions, _) = run(request, &[]);
    let reply = reply_of(&actions[0]);
    assert_eq!(reply.status, 400);
    assert_eq!(error_text(reply), "tenant is required when app is provided");

    let request = Request::ActiveWebhooks { tenant_filter: Some("t".to_string()), app_filter: None };
    let (actions, _) = run(request, &[Event::StoreFinished(StoreResult::Row)]);
    assert!(matches!(actions[0], Action::Run(StoreCommand::ActiveStreams { .. })));
    assert_eq!(reply_of(&actions[1]).status, 200);

    let request = Request::ActiveWebhooks { tenant_filter: None, app_filter: None };
    let (actions, _) = run(request, &[Event::StoreFinished(StoreResult::Failed)]);
    assert_eq!(error_text(reply_of(&actions[1])), "failed to fetch active webhooks");
}

#[test]
fn capture_is_accepted_or_answered_500() {
    let (actions, _) = run(Request::Capture, &[Event::StoreFinished(StoreResult::Row)]);
    assert!(matches!(actions[0], Action::Run(StoreCommand::InsertCaptured)));
    let reply = reply_of(&actions[1]);
    assert_eq!(reply.status, 202);
    assert!(matches!(reply.body, Body::Record));
    let (actions, _) = run(Request::Capture, &[Event::StoreFinished(StoreResult::Failed)]);
    let reply = reply_of(&actions[1]);
    assert_eq!(reply.status, 500);
    assert_eq!(error_text(reply), "failed to persist webhook");
}

#[test]
fn events_are_accepted_only_in_their_phase() {
    let ex = new_exchange(Request::OperatorStatus, 300);
    assert!(expects_event(&ex, &Event::Begin));
    assert!(!expects_event(&ex, &Event::ExpiryFinished(true)));
    let (ex, _) = step(ex, Event::Begin);
    assert!(expects_event(&ex, &Event::StoreFinished(StoreResult::Row)));
    assert!(!expects_event(&ex, &Event::Begin));
    let (ex, _) = step(ex, Event::StoreFinished(StoreResult::Row));
    assert!(!expects_event(&ex, &Event::StoreFinished(StoreResult::Row)));
}

#[test]
fn outcomes_are_stored_as_lowercase_statuses() {
    assert_eq!(Outcome::Success.status_text(), "success");
    assert_eq!(Outcome::Failed.status_text(), "failed");
}

//! The record stored for a captured webhook request.
use vstd::prelude::*;
use vstd::utf8::{decode_utf8, valid_utf8};
use crate::base64::{base64_encode, encode_base64};
use crate::dimensions::{opt_text, path_dimension, webhook_dimensions};
use crate::redact::{headers_to_json, query_to_json, HeaderFields, QueryFields};
use crate::sensitive::SensitiveKeysConfig;

verus! {

/// Calls `String::from_utf8`: the text is given exactly when the bytes are
/// valid UTF-8, and then it is the characters they encode.
#[verifier::external_body]
fn utf8_text(bytes: &[u8]) -> (r: Option<String>)
    ensures
        r is Some <==> valid_utf8(bytes@),
        r matches Some(text) ==> text@ == decode_utf8(bytes@),
{
    match String::from_utf8(bytes.to_vec()) {
        Ok(text) => Some(text),
        Err(_) => None,
    }
}

/// What is stored for a captured request, besides its id and arrival time.
#[derive(Debug)]
pub struct CapturedWebhook {
    /// The HTTP method, as sent.
    pub method: String,
    /// The request path.
    pub path: String,
    /// The first path segment after `api/webhooks`.
    pub tenant: Option<String>,
    /// The second path segment after `api/webhooks`.
    pub app: Option<String>,
    /// The third path segment after `api/webhooks`.
    pub event: Option<String>,
    /// The query parameters, sensitive values redacted.
    pub query_params: QueryFields,
    /// The headers, sensitive values redacted.
    pub headers: HeaderFields,
    /// The body, when it is valid UTF-8.
    pub body_text: Option<String>,
    /// The raw body in base64.
    pub body_base64: String,
}

/// Builds the stored record of a captured request: its method and path, the
/// tenant, app and event read from the path, the redacted headers and query
/// parameters, the body as text when it is UTF-8, and the raw body in base64.
pub fn capture_webhook(
    method: String,
    path: String,
    headers: &Vec<(String, Vec<u8>)>,
    query: &Vec<(String, String)>,
    body: &[u8],
    sensitive_headers: &SensitiveKeysConfig,
    sensitive_query_keys: &SensitiveKeysConfig,
) -> (r: CapturedWebhook)
    ensures
        r.method == method,
        r.path == path,
        opt_text(r.tenant) == path_dimension(path@, 0),
        opt_text(r.app) == path_dimension(path@, 1),
        opt_text(r.event) == path_dimension(path@, 2),
        r.headers.holds(headers@, sensitive_headers.lists()),
        r.query_params.holds(query@, sensitive_query_keys.lists()),
        r.body_text is Some <==> valid_utf8(body@),
        r.body_text matches Some(text) ==> text@ == decode_utf8(body@),
        r.body_base64@ == base64_encode(body@),
{
    let (tenant, app, event) = webhook_dimensions(path.as_str());
    let headers_json = headers_to_json(headers, sensitive_headers);
    let query_json = query_to_json(query, sensitive_query_keys);
    let text = utf8_text(body);
    let body_base64 = encode_base64(body);
    CapturedWebhook {
        method,
        path,
        tenant,
        app,
        event,
        query_params: query_json,
        headers: headers_json,
        body_text: text,
        body_base64,
    }
}

} // verus!

//! What each endpoint decides, as a step function from the state of one
//! request/response exchange and the last store event to the next state and
//! action. The caller performs each action against the store and hands back
//! what happened.
use vstd::prelude::*;
use crate::reply::{error_reply, is_empty_reply, is_error_reply, is_record_reply, Body, Reply};
use crate::settings::{resolve_ttl_seconds, resolved_ttl, ttl_error_message};
use crate::text::{ascii_lower, chars_equal, chars_of, lowercase_ascii};

verus! {

/// Whether a JSON value is an object.
#[derive(Debug)]
pub enum JsonShape {
    /// A JSON object.
    Object,
    /// Any other JSON value.
    Other,
}

/// A request the service answers, with what its decisions read.
#[derive(Debug)]
pub enum Request {
    /// Capture an incoming webhook.
    Capture,
    /// Look at the next new webhook of a stream without claiming it.
    Peek { tenant: String, app: String, event: Option<String> },
    /// Claim the next new webhook of a stream.
    Receive { tenant: String, app: String, event: Option<String>, ttl_seconds: Option<i64> },
    /// Finish a received webhook.
    Complete {
        outcome: String,
        substatus: Option<String>,
        result: Option<JsonShape>,
        extra_properties: Option<JsonShape>,
    },
    /// Extend the claim on a received webhook.
    CheckIn { ttl_seconds: Option<i64>, status_text: Option<String>, intermediate_status: Option<String> },
    /// Counts of webhooks by lifecycle state.
    OperatorStatus,
    /// The lifecycle state of one webhook.
    WebhookStatus,
    /// The active streams, optionally of one tenant (and app).
    ActiveWebhooks { tenant_filter: Option<String>, app_filter: Option<String> },
}

/// How a received webhook finished.
#[derive(Debug)]
pub enum Outcome {
    /// It was handled.
    Success,
    /// It was not handled.
    Failed,
}

impl Outcome {
    /// The lifecycle status a webhook finished with this outcome is stored under.
    pub fn status_text(&self) -> (r: String)
        ensures
            r@ == (match self {
                Outcome::Success => "success"@,
                Outcome::Failed => "failed"@,
            }),
    {
        match self {
            Outcome::Success => "success".to_owned(),
            Outcome::Failed => "failed".to_owned(),
        }
    }
}

/// An operation on the webhook store.
#[derive(Debug)]
pub enum StoreCommand {
    /// Store the captured webhook as new and active.
    InsertCaptured,
    /// Mark received webhooks whose claim has run out as expired.
    ExpireStaleClaims,
    /// Read the oldest new, active webhook of the stream.
    PeekNext { tenant: String, app: String, event: Option<String> },
    /// Claim the oldest new, active webhook of the stream for `ttl_seconds`.
    ClaimNext { tenant: String, app: String, event: Option<String>, ttl_seconds: i64 },
    /// Finish the received, active webhook.
    Complete { outcome: Outcome, substatus: Option<String> },
    /// Extend the claim on the received, active webhook to `ttl_seconds`.
    CheckIn { ttl_seconds: i64, status_text: Option<String>, intermediate_status: Option<String> },
    /// Count the webhooks by lifecycle state.
    StatusSummary,
    /// Read the lifecycle state of the webhook.
    WebhookStatus,
    /// List the active streams that have new webhooks.
    ActiveStreams { tenant_filter: Option<String>, app_filter: Option<String> },
}

/// What a store operation came back with.
#[derive(Debug)]
pub enum StoreResult {
    /// It succeeded and gave a record (or, for a list, its records).
    Row,
    /// It succeeded and no record matched.
    NoRow,
    /// It failed.
    Failed,
}

/// An event of the exchange.
#[derive(Debug)]
pub enum Event {
    /// The request has arrived.
    Begin,
    /// The expiry of stale claims has run; whether it succeeded.
    ExpiryFinished(bool),
    /// The request's own store operation has run.
    StoreFinished(StoreResult),
}

/// What the caller is to do next.
#[derive(Debug)]
pub enum Action {
    /// Run this store operation, then report what came back.
    Run(StoreCommand),
    /// Send this reply; the exchange is over.
    Respond(Reply),
}

/// Where an exchange stands.
#[derive(Debug)]
pub enum Phase {
    /// Nothing has happened yet.
    Start,
    /// Stale claims are being expired.
    Expiring,
    /// The request's own store operation is running.
    Storing,
    /// The reply has been decided.
    Done,
}

/// One request/response exchange.
#[derive(Debug)]
pub struct Exchange {
    /// The request being answered.
    pub request: Request,
    /// The claim time-to-live used when the request names none.
    pub default_ttl_seconds: i64,
    /// Where the exchange stands.
    pub phase: Phase,
}

/// The consumer endpoints first expire stale claims.
pub open spec fn expires_first(req: Request) -> bool {
    req is Peek || req is Receive || req is Complete || req is CheckIn
}

/// The message of the reply to an expiry that failed.
pub open spec fn expiry_error_message() -> Seq<char> {
    "failed to update ttl status"@
}

/// The message of the reply to a completion whose outcome is neither
/// `success` nor `failed`.
pub open spec fn outcome_error_message() -> Seq<char> {
    "outcome must be either 'success' or 'failed'"@
}

/// The store operation a request asks for, or the status and message of the
/// reply that refuses it.
pub open spec fn command_for(req: Request, default_ttl_seconds: i64) -> Result<StoreCommand, (u16, Seq<char>)> {
    match req {
        Request::Capture => Ok(StoreCommand::InsertCaptured),
        Request::Peek { tenant, app, event } => Ok(StoreCommand::PeekNext { tenant, app, event }),
        Request::Receive { tenant, app, event, ttl_seconds } => match resolved_ttl(ttl_seconds, default_ttl_seconds) {
            Some(t) => Ok(StoreCommand::ClaimNext { tenant, app, event, ttl_seconds: t }),
            None => Err((400u16, ttl_error_message())),
        },
        Request::Complete { outcome, substatus, result, extra_properties } => {
            let o = ascii_lower(outcome@);
            if o != "success"@ && o != "failed"@ {
                Err((400u16, outcome_error_message()))
            } else if result matches Some(JsonShape::Other) {
                Err((400u16, "result must be a JSON object"@))
            } else if extra_properties matches Some(JsonShape::Other) {
                Err((400u16, "extra_properties must be a JSON object"@))
            } else if o == "success"@ {
                Ok(StoreCommand::Complete { outcome: Outcome::Success, substatus: None })
            } else {
                Ok(StoreCommand::Complete { outcome: Outcome::Failed, substatus })
            }
        },
        Request::CheckIn { ttl_seconds, status_text, intermediate_status } => match resolved_ttl(ttl_seconds, default_ttl_seconds) {
            Some(t) => Ok(StoreCommand::CheckIn { ttl_seconds: t, status_text, intermediate_status }),
            None => Err((400u16, ttl_error_message())),
        },
        Request::OperatorStatus => Ok(StoreCommand::StatusSummary),
        Request::WebhookStatus => Ok(StoreCommand::WebhookStatus),
        Request::ActiveWebhooks { tenant_filter, app_filter } => if tenant_filter is None && app_filter is Some {
            Err((400u16, "tenant is required when app is provided"@))
        } else {
            Ok(StoreCommand::ActiveStreams { tenant_filter, app_filter })
        },
    }
}

/// The message of the reply when the request's store operation fails.
pub open spec fn failure_message(req: Request) -> Seq<char> {
    match req {
        Request::Capture => "failed to persist webhook"@,
        Request::Peek { .. } => "failed to peek webhook"@,
        Request::Receive { .. } => "failed to receive webhook"@,
        Request::Complete { .. } => "failed to complete webhook"@,
        Request::CheckIn { .. } => "failed to check in webhook"@,
        Request::OperatorStatus => "failed to fetch operator status"@,
        Request::WebhookStatus => "failed to fetch webhook status"@,
        Request::ActiveWebhooks { .. } => "failed to fetch active webhooks"@,
    }
}

/// The message of the reply when a completion or check-in finds no webhook
/// in the `received` state.
pub open spec fn not_received_message() -> Seq<char> {
    "webhook not found or not in 'received' state"@
}

/// The reply to the outcome of the request's store operation: the record
/// (202 for a capture, 200 otherwise); when nothing matched, 204 for a peek
/// or receive, 404 for a completion, check-in or status lookup, and an
/// empty list for the stream listing; 500 when the operation failed (and for
/// a summary that found no row).
pub open spec fn is_final_reply(req: Request, result: StoreResult, r: Reply) -> bool {
    match result {
        StoreResult::Failed => is_error_reply(r, 500, failure_message(req)),
        StoreResult::Row => is_record_reply(r, if req is Capture { 202u16 } else { 200u16 }),
        StoreResult::NoRow => match req {
            Request::Capture => is_record_reply(r, 202),
            Request::Peek { .. } => is_empty_reply(r, 204),
            Request::Receive { .. } => is_empty_reply(r, 204),
            Request::Complete { .. } => is_error_reply(r, 404, not_received_message()),
            Request::CheckIn { .. } => is_error_reply(r, 404, not_received_message()),
            Request::OperatorStatus => is_error_reply(r, 500, failure_message(req)),
            Request::WebhookStatus => is_error_reply(r, 404, "webhook not found"@),
            Request::ActiveWebhooks { .. } => is_record_reply(r, 200),
        },
    }
}

/// `next` runs the request's own store operation, or refuses the request.
pub open spec fn follows_command(ex: Exchange, next: (Exchange, Action)) -> bool {
    match command_for(ex.request, ex.default_ttl_seconds) {
        Ok(c) => next.0.phase is Storing && next.1 == Action::Run(c),
        Err((status, message)) => {
            &&& next.0.phase is Done
            &&& next.1 matches Action::Respond(r) && is_error_reply(r, status, message)
        },
    }
}

/// The event can happen in the exchange's current phase.
pub open spec fn expects(ex: Exchange, event: Event) -> bool {
    match ex.phase {
        Phase::Start => event is Begin,
        Phase::Expiring => event is ExpiryFinished,
        Phase::Storing => event is StoreFinished,
        Phase::Done => false,
    }
}

/// The next state and action of an exchange after an event.
pub open spec fn is_step(ex: Exchange, event: Event, next: (Exchange, Action)) -> bool {
    &&& next.0.request == ex.request
    &&& next.0.default_ttl_seconds == ex.default_ttl_seconds
    &&& match event {
        Event::Begin => if expires_first(ex.request) {
            next.0.phase is Expiring && next.1 == Action::Run(StoreCommand::ExpireStaleClaims)
        } else {
            follows_command(ex, next)
        },
        Event::ExpiryFinished(ok) => if !ok {
            &&& next.0.phase is Done
            &&& next.1 matches Action::Respond(r) && is_error_reply(r, 500, expiry_error_message())
        } else {
            follows_command(ex, next)
        },
        Event::StoreFinished(result) => {
            &&& next.0.phase is Done
            &&& next.1 matches Action::Respond(r) && is_final_reply(ex.request, result, r)
        },
    }
}

/// A copy of an optional string.
fn copy_opt(o: &Option<String>) -> (r: Option<String>)
    ensures
        r == *o,
{
    match o {
        Some(s) => Some(s.clone()),
        None => None,
    }
}

/// Whether an optional JSON value is present and not an object.
fn shape_is_other(o: &Option<JsonShape>) -> (r: bool)
    ensures
        r == (*o matches Some(JsonShape::Other)),
{
    match o {
        Some(JsonShape::Other) => true,
        _ => false,
    }
}

/// The store operation a request asks for, or the reply that refuses it.
fn plan(req: &Request, default_ttl_seconds: i64) -> (r: Result<StoreCommand, Reply>)
    ensures
        match command_for(*req, default_ttl_seconds) {
            Ok(c) => r == Ok::<StoreCommand, Reply>(c),
            Err((status, message)) => r matches Err(reply) && is_error_reply(reply, status, message),
        },
{
    match req {
        Request::Capture => Ok(StoreCommand::InsertCaptured),
        Request::Peek { tenant, app, event } => Ok(
            StoreCommand::PeekNext { tenant: tenant.clone(), app: app.clone(), event: copy_opt(event) },
        ),
        Request::Receive { tenant, app, event, ttl_seconds } => match resolve_ttl_seconds(*ttl_seconds, default_ttl_seconds) {
            Ok(t) => Ok(
                StoreCommand::ClaimNext {
                    tenant: tenant.clone(),
                    app: app.clone(),
                    event: copy_opt(event),
                    ttl_seconds: t,
                },
            ),
            Err(reply) => Err(reply),
        },
        Request::Complete { outcome, substatus, result, extra_properties } => {
            let lower = lowercase_ascii(&chars_of(outcome.as_str()));
            let success = chars_of("success");
            let failed = chars_of("failed");
            let is_success = chars_equal(&lower, &success);
            let is_failed = chars_equal(&lower, &failed);
            if !is_success && !is_failed {
                Err(error_reply(400, "outcome must be either 'success' or 'failed'"))
            } else if shape_is_other(result) {
                Err(error_reply(400, "result must be a JSON object"))
            } else if shape_is_other(extra_properties) {
                Err(error_reply(400, "extra_properties must be a JSON object"))
            } else if is_success {
                Ok(StoreCommand::Complete { outcome: Outcome::Success, substatus: None })
            } else {
                Ok(StoreCommand::Complete { outcome: Outcome::Failed, substatus: copy_opt(substatus) })
            }
        },
        Request::CheckIn { ttl_seconds, status_text, intermediate_status } => match resolve_ttl_seconds(*ttl_seconds, default_ttl_seconds) {
            Ok(t) => Ok(
                StoreCommand::CheckIn {
                    ttl_seconds: t,
                    status_text: copy_opt(status_text),
                    intermediate_status: copy_opt(intermediate_status),
                },
            ),
            Err(reply) => Err(reply),
        },
        Request::OperatorStatus => Ok(StoreCommand::StatusSummary),
        Request::WebhookStatus => Ok(StoreCommand::WebhookStatus),
        Request::ActiveWebhooks { tenant_filter, app_filter } => if tenant_filter.is_none() && app_filter.is_some() {
            Err(error_reply(400, "tenant is required when app is provided"))
        } else {
            Ok(StoreCommand::ActiveStreams { tenant_filter: copy_opt(tenant_filter), app_filter: copy_opt(app_filter) })
        },
    }
}

/// The reply to the outcome of the request's store operation.
fn final_reply(req: &Request, result: &StoreResult) -> (r: Reply)
    ensures
        is_final_reply(*req, *result, r),
{
    match result {
        StoreResult::Failed => {
            let message = match req {
                Request::Capture => "failed to persist webhook",
                Request::Peek { .. } => "failed to peek webhook",
                Request::Receive { .. } => "failed to receive webhook",
                Request::Complete { .. } => "failed to complete webhook",
                Request::CheckIn { .. } => "failed to check in webhook",
                Request::OperatorStatus => "failed to fetch operator status",
                Request::WebhookStatus => "failed to fetch webhook status",
                Request::ActiveWebhooks { .. } => "failed to fetch active webhooks",
            };
            error_reply(500, message)
        },
        StoreResult::Row => {
            let status: u16 = match req {
                Request::Capture => 202,
                _ => 200,
            };
            Reply { status, body: Body::Record }
        },
        StoreResult::NoRow => match req {
            Request::Capture => Reply { status: 202, body: Body::Record },
            Request::Peek { .. } => Reply { status: 204, body: Body::Empty },
            Request::Receive { .. } => Reply { status: 204, body: Body::Empty },
            Request::Complete { .. } => error_reply(404, "webhook not found or not in 'received' state"),
            Request::CheckIn { .. } => error_reply(404, "webhook not found or not in 'received' state"),
            Request::OperatorStatus => error_reply(500, "failed to fetch operator status"),
            Request::WebhookStatus => error_reply(404, "webhook not found"),
            Request::ActiveWebhooks { .. } => Reply { status: 200, body: Body::Record },
        },
    }
}

/// Whether the event can happen in the exchange's current phase.
pub fn expects_event(exchange: &Exchange, event: &Event) -> (r: bool)
    ensures
        r == expects(*exchange, *event),
{
    match (&exchange.phase, event) {
        (Phase::Start, Event::Begin) => true,
        (Phase::Expiring, Event::ExpiryFinished(_)) => true,
        (Phase::Storing, Event::StoreFinished(_)) => true,
        _ => false,
    }
}

/// Starts an exchange for a request.
pub fn new_exchange(request: Request, default_ttl_seconds: i64) -> (ex: Exchange)
    ensures
        ex.request == request,
        ex.default_ttl_seconds == default_ttl_seconds,
        ex.phase is Start,
{
    Exchange { request, default_ttl_seconds, phase: Phase::Start }
}

/// Advances an exchange by one event: consumer endpoints first expire stale
/// claims (a failure there is answered 500), then validate the request and
/// run its store operation, and the outcome of that operation decides the
/// reply.
pub fn step(exchange: Exchange, event: Event) -> (next: (Exchange, Action))
    requires
        expects(exchange, event),
    ensures
        is_step(exchange, event, next),
{
    let Exchange { request, default_ttl_seconds, phase: _ } = exchange;
    let action = match event {
        Event::Begin => {
            let expire = match &request {
                Request::Peek { .. } | Request::Receive { .. } | Request::Complete { .. } | Request::CheckIn { .. } => true,
                _ => false,
            };
            if expire {
                (Phase::Expiring, Action::Run(StoreCommand::ExpireStaleClaims))
            } else {
                match plan(&request, default_ttl_seconds) {
                    Ok(c) => (Phase::Storing, Action::Run(c)),
                    Err(r) => (Phase::Done, Action::Respond(r)),
                }
            }
        },
        Event::ExpiryFinished(ok) => {
            if !ok {
                (Phase::Done, Action::Respond(error_reply(500, "failed to update ttl status")))
            } else {
                match plan(&request, default_ttl_seconds) {
                    Ok(c) => (Phase::Storing, Action::Run(c)),
                    Err(r) => (Phase::Done, Action::Respond(r)),
                }
            }
        },
        Event::StoreFinished(result) => (Phase::Done, Action::Respond(final_reply(&request, &result))),
    };
    let (phase, act) = action;
    (Exchange { request, default_ttl_seconds, phase }, act)
}

/// Store operations that change no webhook.
pub open spec fn is_read_only(c: StoreCommand) -> bool {
    c is StatusSummary || c is WebhookStatus || c is ActiveStreams || c is PeekNext
}

/// Requests of the operator endpoints.
pub open spec fn is_operator_request(req: Request) -> bool {
    req is OperatorStatus || req is WebhookStatus || req is ActiveWebhooks
}

/// The operator endpoints are read-only: no step of their exchanges runs a
/// store operation that changes a webhook's lifecycle state.
pub proof fn lemma_operator_requests_read_only(ex: Exchange, event: Event, next: (Exchange, Action))
    requires
        is_operator_request(ex.request),
        is_step(ex, event, next),
    ensures
        next.1 matches Action::Run(c) ==> is_read_only(c),
{
}

/// How many more events an exchange in this phase waits for at most.
pub open spec fn remaining_events(p: Phase) -> int {
    match p {
        Phase::Start => 3,
        Phase::Expiring => 2,
        Phase::Storing => 1,
        Phase::Done => 0,
    }
}

/// Every step moves an exchange closer to its end, and a step ends it
/// exactly when it replies: an exchange is answered after at most three
/// events, and only once.
pub proof fn lemma_exchange_progress(ex: Exchange, event: Event, next: (Exchange, Action))
    requires
        expects(ex, event),
        is_step(ex, event, next),
    ensures
        remaining_events(next.0.phase) < remaining_events(ex.phase),
        next.0.phase is Done <==> next.1 is Respond,
{
}

/// The consumer endpoints expire stale claims before anything else: the
/// first action of their exchanges is that expiry.
pub proof fn lemma_consumer_requests_expire_first(ex: Exchange, next: (Exchange, Action))
    requires
        ex.phase is Start,
        expires_first(ex.request),
        is_step(ex, Event::Begin, next),
    ensures
        next.1 == Action::Run(StoreCommand::ExpireStaleClaims),
{
}

/// A claim or check-in is only ever made with a positive time-to-live.
pub proof fn lemma_claims_have_positive_ttl(req: Request, default_ttl_seconds: i64)
    ensures
        command_for(req, default_ttl_seconds) matches Ok(StoreCommand::ClaimNext { ttl_seconds, .. }) ==> ttl_seconds > 0,
        command_for(req, default_ttl_seconds) matches Ok(StoreCommand::CheckIn { ttl_seconds, .. }) ==> ttl_seconds > 0,
{
}

/// A completion is accepted exactly when its outcome is `success` or
/// `failed` in any ASCII case and the result and extra properties, when
/// given, are JSON objects; a success never keeps a substatus, and a
/// failure keeps the one given.
pub proof fn lemma_completion_rules(
    outcome: String,
    substatus: Option<String>,
    result: Option<JsonShape>,
    extra_properties: Option<JsonShape>,
    default_ttl_seconds: i64,
)
    ensures
        ({
            let req = Request::Complete { outcome, substatus, result, extra_properties };
            let o = ascii_lower(outcome@);
            &&& command_for(req, default_ttl_seconds) is Ok <==> ((o == "success"@ || o == "failed"@)
                && !(result matches Some(JsonShape::Other)) && !(extra_properties matches Some(JsonShape::Other)))
            &&& command_for(req, default_ttl_seconds) matches Ok(StoreCommand::Complete { outcome: Outcome::Success, substatus: s })
                ==> s is None
            &&& command_for(req, default_ttl_seconds) matches Ok(StoreCommand::Complete { outcome: Outcome::Failed, substatus: s })
                ==> s == substatus
            &&& command_for(req, default_ttl_seconds) is Ok ==> (command_for(req, default_ttl_seconds) matches Ok(
                StoreCommand::Complete { outcome: finished, .. },
            ) && (finished is Success <==> o == "success"@) && (finished is Failed <==> o == "failed"@))
        }),
{
    reveal_strlit("success");
    reveal_strlit("failed");
    assert("success"@[0] != "failed"@[0]);
}

/// A peek never claims, finishes or extends a webhook: the only store
/// operations of its exchange are the expiry of stale claims and the read of
/// the next new webhook.
pub proof fn lemma_peek_never_claims(ex: Exchange, event: Event, next: (Exchange, Action))
    requires
        ex.request is Peek,
        is_step(ex, event, next),
    ensures
        next.1 matches Action::Run(c) ==> (c is ExpireStaleClaims || c is PeekNext),
{
}

/// The store operation of a stream or status request carries the request's
/// own tenant, app, event and texts unchanged, and a time-to-live that is the
/// requested one, or the default when none is requested; a time-to-live that
/// is not positive is refused with 400 and runs nothing.
pub proof fn lemma_commands_carry_request_fields(req: Request, default_ttl_seconds: i64)
    ensures
        match req {
            Request::Peek { tenant, app, event } => command_for(req, default_ttl_seconds) matches Ok(
                StoreCommand::PeekNext { tenant: t, app: a, event: e },
            ) && t == tenant && a == app && e == event,
            Request::Receive { tenant, app, event, ttl_seconds } => {
                let wanted: int = match ttl_seconds { Some(x) => x as int, None => default_ttl_seconds as int };
                if wanted > 0 {
                    command_for(req, default_ttl_seconds) matches Ok(
                        StoreCommand::ClaimNext { tenant: t, app: a, event: e, ttl_seconds: x },
                    ) && t == tenant && a == app && e == event && x == wanted
                } else {
                    command_for(req, default_ttl_seconds) matches Err((status, _)) && status == 400
                }
            },
            Request::CheckIn { ttl_seconds, status_text, intermediate_status } => {
                let wanted: int = match ttl_seconds { Some(x) => x as int, None => default_ttl_seconds as int };
                if wanted > 0 {
                    command_for(req, default_ttl_seconds) matches Ok(
                        StoreCommand::CheckIn { ttl_seconds: x, status_text: st, intermediate_status: is },
                    ) && x == wanted && st == status_text && is == intermediate_status
                } else {
                    command_for(req, default_ttl_seconds) matches Err((status, _)) && status == 400
                }
            },
            Request::ActiveWebhooks { tenant_filter, app_filter } => if tenant_filter is None && app_filter is Some {
                command_for(req, default_ttl_seconds) matches Err((status, _)) && status == 400
            } else {
                command_for(req, default_ttl_seconds) matches Ok(
                    StoreCommand::ActiveStreams { tenant_filter: t, app_filter: a },
                ) && t == tenant_filter && a == app_filter
            },
            Request::Capture => command_for(req, default_ttl_seconds) matches Ok(StoreCommand::InsertCaptured),
            Request::OperatorStatus => command_for(req, default_ttl_seconds) matches Ok(StoreCommand::StatusSummary),
            Request::WebhookStatus => command_for(req, default_ttl_seconds) matches Ok(StoreCommand::WebhookStatus),
            Request::Complete { .. } => true,
        },
{
}

/// Whenever the store returns a row, the reply carries that record, with
/// 202 for a capture and 200 for every other request; a failed store
/// operation is answered 500 with an error; when nothing matches, a peek or
/// receive is answered 204 with no body, a completion, check-in or status
/// lookup 404 with an error, and a stream listing 200 with its (empty) list.
pub proof fn lemma_store_result_replies(req: Request, result: StoreResult, r: Reply)
    requires
        is_final_reply(req, result, r),
    ensures
        result is Row ==> r.body is Record && r.status == (if req is Capture { 202u16 } else { 200u16 }),
        result is Failed ==> r.body is Error && r.status == 500,
        result is NoRow && (req is Peek || req is Receive) ==> r.body is Empty && r.status == 204,
        result is NoRow && (req is Complete || req is CheckIn || req is WebhookStatus) ==> r.body is Error && r.status == 404,
        result is NoRow && req is ActiveWebhooks ==> r.body is Record && r.status == 200,
        result is NoRow && req is Capture ==> r.body is Record && r.status == 202,
{
}

/// The step that reports the store's result answers with the reply the
/// result calls for: a returned row is always sent back, never hidden, and
/// a failed expiry of stale claims is answered 500.
pub proof fn lemma_step_replies(ex: Exchange, event: Event, next: (Exchange, Action))
    requires
        is_step(ex, event, next),
    ensures
        event matches Event::StoreFinished(StoreResult::Row) ==> next.1 matches Action::Respond(r) && r.body is Record
            && r.status == (if ex.request is Capture { 202u16 } else { 200u16 }),
        event matches Event::StoreFinished(StoreResult::Failed) ==> next.1 matches Action::Respond(r) && r.status == 500,
        event matches Event::ExpiryFinished(false) ==> next.1 matches Action::Respond(r) && r.status == 500,
{
}

} // verus!

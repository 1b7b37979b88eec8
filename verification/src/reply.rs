//! The HTTP replies the service gives: a status code and what the body is.
use vstd::prelude::*;

verus! {

/// What a reply carries.
#[derive(Debug)]
pub enum Body {
    /// The record (or records) the store returned for the request.
    Record,
    /// No body at all.
    Empty,
    /// A JSON object `{"error": message}`.
    Error(String),
}

/// An HTTP reply: status code and body.
#[derive(Debug)]
pub struct Reply {
    /// The HTTP status code.
    pub status: u16,
    /// The body.
    pub body: Body,
}

/// `r` is an error reply with this status and message.
pub open spec fn is_error_reply(r: Reply, status: u16, message: Seq<char>) -> bool {
    &&& r.status == status
    &&& r.body matches Body::Error(m) && m@ == message
}

/// `r` carries the store's record with this status.
pub open spec fn is_record_reply(r: Reply, status: u16) -> bool {
    r.status == status && r.body is Record
}

/// `r` has this status and no body.
pub open spec fn is_empty_reply(r: Reply, status: u16) -> bool {
    r.status == status && r.body is Empty
}

/// An error reply with this status and message.
pub fn error_reply(status: u16, message: &str) -> (r: Reply)
    ensures
        is_error_reply(r, status, message@),
{
    Reply { status, body: Body::Error(message.to_owned()) }
}

} // verus!

//! The messages that travel between the editor and an extension host.

use vstd::prelude::*;

verus! {

/// A request and the id its reply carries.
#[derive(Debug, PartialEq)]
pub struct Request {
    /// The id.
    pub id: u64,
    /// What is asked.
    pub method: String,
    /// What it is asked about.
    pub params: serde_json::Value,
}

/// A message that wants no reply.
#[derive(Debug, PartialEq)]
pub struct Notification {
    /// What is said.
    pub method: String,
    /// What it is said about.
    pub params: serde_json::Value,
}

/// Why a request was not carried out.
#[derive(Debug, Clone, Copy, PartialEq, Eq, Structural)]
pub enum ErrorCode {
    /// Nothing answers to the method.
    MethodNotFound,
    /// A capability the method needs was refused.
    PermissionDenied,
}

/// The error a reply carries.
#[derive(Debug, PartialEq)]
pub struct ResponseError {
    /// The kind of error.
    pub code: ErrorCode,
    /// The error in words.
    pub message: String,
}

/// A reply: a result or an error.
#[derive(Debug, PartialEq)]
pub struct Response {
    /// The id of the request it answers.
    pub id: u64,
    /// The result, where there is one.
    pub result: Option<serde_json::Value>,
    /// The error, where there is one.
    pub error: Option<ResponseError>,
}

/// A reply that refuses, as a value in contracts.
#[verifier::ext_equal]
pub struct Refusal {
    pub id: u64,
    pub code: ErrorCode,
    pub message: Seq<char>,
}

impl Response {
    /// Whether this is the reply that says `refusal` and nothing else.
    pub open spec fn refuses(&self, refusal: Refusal) -> bool {
        &&& self.id == refusal.id
        &&& self.result is None
        &&& self.error matches Some(error) && error.code == refusal.code && error.message@
            == refusal.message
    }

    /// A reply that carries an error.
    pub fn err(id: u64, code: ErrorCode, message: String) -> (r: Response)
        ensures
            r.refuses(Refusal { id, code, message: message@ }),
    {
        Response { id, result: None, error: Some(ResponseError { code, message }) }
    }
}

/// One message.
#[derive(Debug, PartialEq)]
pub enum Message {
    /// A request.
    Request(Request),
    /// A reply.
    Response(Response),
    /// A notification.
    Notification(Notification),
}

} // verus!

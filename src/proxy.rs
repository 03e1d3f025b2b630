use vstd::prelude::*;

use crate::params::{query_accepted, params_of, ProxyUrlParams, QueryError};
use crate::rewrite::{rewrite_ok, rewrite_payload, rewritten, RewriteError};

verus! {

/// The header that carries the caller's credential upstream.
#[derive(Debug, Clone, PartialEq, Eq)]
pub struct Credential {
    /// The header name.
    pub name: String,
    /// The header value, as the caller sent it.
    pub value: String,
}

/// The credential forwarded upstream: the provider's API-key header where the caller sent one,
/// else the authorization header, else none.
pub open spec fn credential_of(api_key: Option<String>, authorization: Option<String>) -> Option<(Seq<char>, String)> {
    match api_key {
        Some(k) => Some(("api-key"@, k)),
        None => match authorization {
            Some(a) => Some(("authorization"@, a)),
            None => None,
        },
    }
}

/// Picks the credential header to forward: the provider's API-key header first, then the
/// generic authorization header. The value is forwarded unchanged.
pub fn select_credential(api_key: Option<String>, authorization: Option<String>) -> (r: Option<Credential>)
    ensures
        match credential_of(api_key, authorization) {
            Some((name, value)) => r matches Some(c) && c.name@ == name && c.value == value,
            None => r is None,
        },
{
    match api_key {
        Some(k) => Some(Credential { name: String::from_str("api-key"), value: k }),
        None => match authorization {
            Some(a) => Some(Credential { name: String::from_str("authorization"), value: a }),
            None => None,
        },
    }
}

/// Why a proxied call ended with an error response instead of a stream.
#[derive(Debug, Clone, PartialEq, Eq)]
pub enum ProxyError {
    /// The query string was refused.
    Query(QueryError),
    /// The body could not be read as a request object with an optional boolean `stream`.
    BodyNotJson,
    /// The streaming body could not be rewritten.
    Rewrite(RewriteError),
    /// The caller sent neither credential header.
    MissingCredentials,
    /// The upstream call could not be made or sent.
    Transport,
    /// Upstream answered with a status outside the success class, and this body text.
    Upstream { status: u16, body: String },
}

/// An error response: its status, its body, and whether the body is JSON.
#[derive(Debug, Clone, PartialEq, Eq)]
pub struct ErrorReply {
    pub status: u16,
    pub body: String,
    pub json: bool,
}

/// The JSON body that reports a refused query string with this message.
pub open spec fn query_error_body(message: Seq<char>) -> Seq<char> {
    "{\"error\":true,\"message\":\""@ + message + "\",\"type\":\"Query String Error\"}"@
}

/// The message of a query error, as `QueryError::message` gives it.
pub open spec fn query_message(e: QueryError) -> Seq<char> {
    match e {
        QueryError::MissingField(f) => "missing field `"@ + crate::params::key_of(f) + "`"@,
        QueryError::DuplicateField(f) => "duplicate field `"@ + crate::params::key_of(f) + "`"@,
    }
}

/// The status, body and JSON flag of the response for an error. Input errors are the caller's
/// (400), except a body that is no request object at all; a missing credential and a failed
/// upstream call are the server's (500), with a generic message; an upstream error is passed
/// on with its own status and body.
pub open spec fn reply_of(e: ProxyError) -> (u16, Seq<char>, bool) {
    match e {
        ProxyError::Query(q) => (400, query_error_body(query_message(q)), true),
        ProxyError::BodyNotJson => (500, "Internal Server Error!!"@, false),
        ProxyError::Rewrite(_) => (400, "Invalid UTF-8"@, false),
        ProxyError::MissingCredentials => (500, "Internal Server Error!!!"@, false),
        ProxyError::Transport => (500, "Internal Server Error!!!!"@, false),
        ProxyError::Upstream { status, body } => (status, body@, false),
    }
}

/// The response for an error.
pub fn error_reply(e: ProxyError) -> (r: ErrorReply)
    ensures
        (r.status, r.body@, r.json) == reply_of(e),
{
    match e {
        ProxyError::Query(q) => {
            let mut body = String::from_str("{\"error\":true,\"message\":\"");
            let message = q.message();
            body.append(message.as_str());
            body.append("\",\"type\":\"Query String Error\"}");
            ErrorReply { status: 400, body, json: true }
        },
        ProxyError::BodyNotJson => ErrorReply {
            status: 500,
            body: String::from_str("Internal Server Error!!"),
            json: false,
        },
        ProxyError::Rewrite(_) => ErrorReply {
            status: 400,
            body: String::from_str("Invalid UTF-8"),
            json: false,
        },
        ProxyError::MissingCredentials => ErrorReply {
            status: 500,
            body: String::from_str("Internal Server Error!!!"),
            json: false,
        },
        ProxyError::Transport => ErrorReply {
            status: 500,
            body: String::from_str("Internal Server Error!!!!"),
            json: false,
        },
        ProxyError::Upstream { status, body } => ErrorReply { status, body, json: false },
    }
}

/// The call to make upstream: a POST of `body` to `url`, with the one credential header.
#[derive(Debug, Clone, PartialEq, Eq)]
pub struct UpstreamRequest {
    pub url: String,
    pub credential: Credential,
    pub body: Vec<u8>,
}

/// The body passes: its `stream` flag was read, and it can be sent with that flag.
pub open spec fn body_ready(stream_flag: Option<bool>, body: Seq<u8>) -> bool {
    match stream_flag {
        Some(s) => rewrite_ok(body, s),
        None => false,
    }
}

/// The body sent upstream, for a body that passes.
pub open spec fn outbound_body(stream_flag: Option<bool>, body: Seq<u8>) -> Seq<u8> {
    match stream_flag {
        Some(s) => rewritten(body, s),
        None => body,
    }
}

/// Validates a proxied call and builds the upstream request, in this order: the query string,
/// the body's `stream` flag (`None` where the body could not be read for it), the rewrite of
/// a streaming body, and the credential. The first failure is the error; no upstream request
/// exists without all four.
pub fn prepare_upstream(
    query: &Vec<(String, String)>,
    stream_flag: Option<bool>,
    body: Vec<u8>,
    api_key: Option<String>,
    authorization: Option<String>,
) -> (r: Result<(ProxyUrlParams, UpstreamRequest), ProxyError>)
    ensures
        !query_accepted(query@) ==> r matches Err(ProxyError::Query(_)),
        query_accepted(query@) && stream_flag is None ==> r == Err::<
            (ProxyUrlParams, UpstreamRequest),
            ProxyError,
        >(ProxyError::BodyNotJson),
        query_accepted(query@) && stream_flag is Some && !body_ready(stream_flag, body@) ==> (r matches Err(
            ProxyError::Rewrite(_),
        )),
        query_accepted(query@) && body_ready(stream_flag, body@)
            && credential_of(api_key, authorization) is None ==> r == Err::<
            (ProxyUrlParams, UpstreamRequest),
            ProxyError,
        >(ProxyError::MissingCredentials),
        credential_of(api_key, authorization) is None ==> r is Err,
        r matches Ok((p, req)) ==> {
            &&& query_accepted(query@)
            &&& params_of(query@, p)
            &&& req.url == p.u
            &&& body_ready(stream_flag, body@)
            &&& req.body@ == outbound_body(stream_flag, body@)
            &&& credential_of(api_key, authorization) matches Some((name, value))
                && req.credential.name@ == name && req.credential.value == value
        },
        query_accepted(query@) && body_ready(stream_flag, body@) && credential_of(
            api_key,
            authorization,
        ) is Some ==> r is Ok,
{
    let params = match ProxyUrlParams::from_query(query) {
        Ok(p) => p,
        Err(e) => return Err(ProxyError::Query(e)),
    };
    let stream = match stream_flag {
        Some(s) => s,
        None => return Err(ProxyError::BodyNotJson),
    };
    let body = match rewrite_payload(body, stream) {
        Ok(b) => b,
        Err(e) => return Err(ProxyError::Rewrite(e)),
    };
    let credential = match select_credential(api_key, authorization) {
        Some(c) => c,
        None => return Err(ProxyError::MissingCredentials),
    };
    let url = params.u.clone();
    Ok((params, UpstreamRequest { url, credential, body }))
}

/// Whether an upstream response is relayed as a stream: only one with a success status.
pub fn streams_response(status: u16) -> (r: bool)
    ensures
        r == (200 <= status < 300),
{
    200 <= status && status < 300
}

/// An upstream response outside the success class is not streamed: the caller gets its status
/// and its body text unchanged.
pub proof fn lemma_upstream_error_passed_on(status: u16, body: String)
    requires
        !(200 <= status < 300),
    ensures
        reply_of(ProxyError::Upstream { status, body }) == (status, body@, false),
{
}

/// A call with neither credential header, that passes the earlier checks, is answered with a
/// server error; and without a credential no upstream request is ever built.
pub proof fn lemma_missing_credentials(api_key: Option<String>, authorization: Option<String>)
    requires
        api_key is None,
        authorization is None,
    ensures
        credential_of(api_key, authorization) is None,
        reply_of(ProxyError::MissingCredentials).0 == 500,
{
}

} // verus!

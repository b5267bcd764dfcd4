//! Turning a resolved binding into a response plan.
//!
//! Dispatching never performs I/O: it produces a plan — a status, at most
//! one header, and either a fixed body or the instruction to stream the
//! request body back. The unverified front end carries the plan out; for a
//! streaming body it drives an [`crate::echo::EchoTransfer`].

use vstd::prelude::*;
use vstd::string::StringExecFns;

use crate::host::render_spec;
use crate::routing::{table_map, Binding, DispatchTable, Handler, Method};

verus! {

/// The status of a response that was served.
pub const STATUS_OK: u16 = 200;

/// The status of a response to an unregistered (method, path).
pub const STATUS_NOT_FOUND: u16 = 404;

/// How the response body is produced.
pub enum BodyPlan {
    /// Send this value as the whole body.
    Fixed(String),
    /// Stream the request body back chunk by chunk, unchanged.
    EchoRequestBody,
}

/// Everything the transport needs to write one response.
pub struct ResponsePlan {
    /// The HTTP status code.
    pub status: u16,
    /// The one content-type header to set, if any.
    pub content_type: Option<String>,
    /// How to produce the body.
    pub body: BodyPlan,
}

/// The opaque binary content type the echo endpoint announces.
pub open spec fn octet_stream_text() -> Seq<char> {
    "application/octet-stream"@
}

/// What `dispatch` owes for a request against a routing surface: a 404 with
/// an empty body when nothing is registered; otherwise exactly what the
/// resolved handler — with the context it captured at registration —
/// produces.
pub open spec fn planned_response(
    bs: Seq<Binding>,
    method: Method,
    path: Seq<char>,
    r: ResponsePlan,
) -> bool {
    if !table_map(bs).contains_key((method, path)) {
        &&& r.status == STATUS_NOT_FOUND
        &&& r.content_type is None
        &&& r.body matches BodyPlan::Fixed(s) && s@ == Seq::<char>::empty()
    } else {
        match table_map(bs)[(method, path)].handler {
            Handler::Fixed(body) => {
                &&& r.status == STATUS_OK
                &&& r.content_type is None
                &&& r.body matches BodyPlan::Fixed(s) && s@ == body@
            },
            Handler::HostInfo(h) => {
                &&& r.status == STATUS_OK
                &&& r.content_type is None
                &&& r.body matches BodyPlan::Fixed(s) && s@ == render_spec(h)
            },
            Handler::Echo => {
                &&& r.status == STATUS_OK
                &&& r.content_type matches Some(ct) && ct@ == octet_stream_text()
                &&& r.body is EchoRequestBody
            },
        }
    }
}

/// Resolves the request and invokes the designated handler with the exact
/// context it was registered with; an unregistered (method, path) becomes a
/// NotFound outcome with an empty body, isolated to this request.
pub fn dispatch(table: &DispatchTable, method: Method, path: &String) -> (r: ResponsePlan)
    ensures
        planned_response(table@, method, path@, r),
{
    match table.resolve(method, path) {
        None => ResponsePlan {
            status: STATUS_NOT_FOUND,
            content_type: None,
            body: BodyPlan::Fixed(String::new()),
        },
        Some(b) => match &b.handler {
            Handler::Fixed(body) => ResponsePlan {
                status: STATUS_OK,
                content_type: None,
                body: BodyPlan::Fixed(body.clone()),
            },
            Handler::HostInfo(h) => ResponsePlan {
                status: STATUS_OK,
                content_type: None,
                body: BodyPlan::Fixed(h.render()),
            },
            Handler::Echo => ResponsePlan {
                status: STATUS_OK,
                content_type: Some(String::from_str("application/octet-stream")),
                body: BodyPlan::EchoRequestBody,
            },
        },
    }
}

} // verus!

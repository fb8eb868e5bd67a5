//! Request tracing: the trace context stored with each request and the choice
//! of its trace id.
use vstd::prelude::*;

use crate::ids::{is_v4_uuid_text, new_uuid_v4_string};

verus! {

/// Trace ID header name.
pub const TRACE_ID_HEADER: &'static str = "X-Trace-ID";

/// Request ID header name.
pub const REQUEST_ID_HEADER: &'static str = "X-Request-ID";

/// Trace context stored in request extensions.
#[derive(Clone, Debug)]
pub struct TraceContext {
    pub trace_id: String,
    pub request_id: String,
}

/// The trace id of a request: the text of its trace header when it has a
/// readable one, a fresh random (version 4) UUID otherwise.
pub fn extract_or_generate_trace_id(header_value: Option<&str>) -> (r: String)
    ensures
        match header_value {
            Some(v) => r@ == v@,
            None => is_v4_uuid_text(r@),
        },
{
    match header_value {
        Some(v) => String::from_str(v),
        None => new_uuid_v4_string(),
    }
}

/// A trace context with a fresh request id.
pub fn new_trace_context(trace_id: String) -> (r: TraceContext)
    ensures
        r.trace_id == trace_id,
        is_v4_uuid_text(r.request_id@),
{
    TraceContext { trace_id, request_id: new_uuid_v4_string() }
}

} // verus!

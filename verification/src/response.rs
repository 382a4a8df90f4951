//! Uniform response envelope and request shapes of the control surface.
//!
//! Every non-streaming operation answers with either a success payload or a
//! single error string; the envelope carries exactly one of the two.

use vstd::prelude::*;

verus! {

/// Response envelope: a success payload or one error string, never both.
pub struct ApiResponse<T> {
    pub success: bool,
    pub data: Option<T>,
    pub error: Option<String>,
}

/// An envelope is well formed when the `success` flag agrees with which of
/// the two sides is filled.
pub open spec fn api_response_wf<T>(r: ApiResponse<T>) -> bool {
    &&& r.success <==> r.data is Some
    &&& !r.success <==> r.error is Some
}

impl<T> ApiResponse<T> {
    pub fn success(data: T) -> (r: Self)
        ensures
            r.success,
            r.data == Some(data),
            r.error is None,
            api_response_wf(r),
    {
        Self { success: true, data: Some(data), error: None }
    }

    pub fn error(error: String) -> (r: Self)
        ensures
            !r.success,
            r.data is None,
            r.error matches Some(e) && e@ == error@,
            api_response_wf(r),
    {
        Self { success: false, data: None, error: Some(error) }
    }
}

/// One inbound frame of the streaming endpoint, already decoded to plain
/// values: the command tag plus its payload fields.
pub struct ExecutionRequest {
    pub project_path: String,
    pub prompt: String,
    pub model: Option<String>,
    pub session_id: Option<String>,
    /// "execute", "continue" or "resume"; any other tag is rejected.
    pub command_type: String,
}

/// Query parameters accepted by the listing endpoints.
pub struct QueryParams {
    pub project_path: Option<String>,
}

} // verus!

use opcode_core::response::{ApiResponse, ExecutionRequest, QueryParams};

#[test]
fn success_envelope_carries_the_payload_only() {
    let r: ApiResponse<i64> = ApiResponse::success(7);
    assert!(r.success);
    assert_eq!(r.data, Some(7));
    assert_eq!(r.error, None);
}

#[test]
fn error_envelope_carries_the_message_only() {
    let r: ApiResponse<i64> = ApiResponse::error("boom".to_string());
    assert!(!r.success);
    assert_eq!(r.data, None);
    assert_eq!(r.error.as_deref(), Some("boom"));
}

#[test]
fn request_and_query_shapes_hold_plain_fields() {
    let req = ExecutionRequest {
        project_path: "/p".to_string(),
        prompt: "hi".to_string(),
        model: None,
        session_id: Some("s".to_string()),
        command_type: "execute".to_string(),
    };
    assert_eq!(req.command_type, "execute");
    assert_eq!(req.session_id.as_deref(), Some("s"));
    let q = QueryParams { project_path: Some("/p".to_string()) };
    assert_eq!(q.project_path.as_deref(), Some("/p"));
}

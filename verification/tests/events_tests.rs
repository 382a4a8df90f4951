use opcode_core::events::{
    completion_frame, error_frame, frames_for_run, output_frame, start_frame,
};

#[test]
fn output_frame_carries_the_line_verbatim() {
    assert_eq!(
        output_frame("hello"),
        "{\"type\":\"output\",\"content\":\"hello\"}"
    );
}

#[test]
fn frames_escape_quotes_backslashes_and_controls() {
    let f = output_frame("a\"b\\c\nd\te\r");
    assert_eq!(
        f,
        "{\"type\":\"output\",\"content\":\"a\\\"b\\\\c\\nd\\te\\r\"}"
    );
    let f = output_frame("\u{01}\u{08}\u{0C}\u{1f}");
    assert_eq!(
        f,
        "{\"type\":\"output\",\"content\":\"\\u0001\\b\\f\\u001f\"}"
    );
}

#[test]
fn frames_parse_back_as_json_with_the_original_payload() {
    let line = "weird \"payload\" with \\ and \n and \u{7}";
    let f = output_frame(line);
    let v: serde_json::Value = serde_json::from_str(&f).expect("frame must be valid JSON");
    assert_eq!(v["type"].as_str(), Some("output"));
    assert_eq!(v["content"].as_str(), Some(line));
}

#[test]
fn start_error_and_completion_frames() {
    assert_eq!(
        start_frame("Starting Assistant execution..."),
        "{\"type\":\"start\",\"message\":\"Starting Assistant execution...\"}"
    );
    assert_eq!(
        error_frame("Failed to parse request"),
        "{\"type\":\"error\",\"message\":\"Failed to parse request\"}"
    );
    assert_eq!(
        completion_frame(None),
        "{\"type\":\"completion\",\"status\":\"success\"}"
    );
    let err = "exit code: 3".to_string();
    assert_eq!(
        completion_frame(Some(&err)),
        "{\"type\":\"completion\",\"status\":\"error\",\"error\":\"exit code: 3\"}"
    );
}

#[test]
fn run_emits_start_outputs_in_order_then_one_completion() {
    let lines = vec!["a".to_string(), "b".to_string(), "c".to_string()];
    let frames = frames_for_run("Starting Assistant execution...", &lines, None);
    assert_eq!(frames.len(), 5);
    assert_eq!(
        frames[0],
        "{\"type\":\"start\",\"message\":\"Starting Assistant execution...\"}"
    );
    assert_eq!(frames[1], "{\"type\":\"output\",\"content\":\"a\"}");
    assert_eq!(frames[2], "{\"type\":\"output\",\"content\":\"b\"}");
    assert_eq!(frames[3], "{\"type\":\"output\",\"content\":\"c\"}");
    assert_eq!(
        frames[4],
        "{\"type\":\"completion\",\"status\":\"success\"}"
    );
    let completions = frames
        .iter()
        .filter(|f| f.contains("\"completion\""))
        .count();
    assert_eq!(completions, 1);
}

#[test]
fn failed_run_ends_with_an_error_completion() {
    let lines: Vec<String> = Vec::new();
    let err = "Assistant execution failed with exit code: Some(1)".to_string();
    let frames = frames_for_run("Starting Assistant execution...", &lines, Some(&err));
    assert_eq!(frames.len(), 2);
    assert!(frames[1].starts_with("{\"type\":\"completion\",\"status\":\"error\""));
    let v: serde_json::Value = serde_json::from_str(&frames[1]).unwrap();
    assert_eq!(v["error"].as_str(), Some(err.as_str()));
}

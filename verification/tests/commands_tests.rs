use opcode_core::commands::{
    agent_transcript_path, continue_args, execute_args, extract_session_uuid,
    find_assistant_binary, home_transcript_path, new_session_id, parse_command_type,
    plan_command, resolve_session_id, resume_args, session_is_agent_alias, CommandKind,
};
use opcode_core::response::ExecutionRequest;

#[test]
fn command_tags_parse_exactly() {
    assert_eq!(
        parse_command_type(&"execute".to_string()),
        Some(CommandKind::Execute)
    );
    assert_eq!(
        parse_command_type(&"continue".to_string()),
        Some(CommandKind::Continue)
    );
    assert_eq!(
        parse_command_type(&"resume".to_string()),
        Some(CommandKind::Resume)
    );
    assert_eq!(parse_command_type(&"restart".to_string()), None);
    assert_eq!(parse_command_type(&"".to_string()), None);
    assert_eq!(parse_command_type(&"Execute".to_string()), None);
}

#[test]
fn execute_argument_list_is_exact() {
    let args = execute_args(&"fix the bug".to_string(), &"m-large".to_string());
    assert_eq!(
        args,
        vec![
            "-p",
            "fix the bug",
            "--model",
            "m-large",
            "--output-format",
            "stream-json",
            "--verbose",
            "--dangerously-skip-permissions",
        ]
    );
}

#[test]
fn continue_argument_list_starts_with_continue_flag() {
    let args = continue_args(&"go on".to_string(), &"m".to_string());
    assert_eq!(args[0], "-c");
    assert_eq!(args[1], "-p");
    assert_eq!(args[2], "go on");
    assert_eq!(args.len(), 9);
}

#[test]
fn resume_argument_list_starts_with_the_session() {
    let args = resume_args(&"abcd-123".to_string(), &"p".to_string(), &"m".to_string());
    assert_eq!(args[0], "--resume");
    assert_eq!(args[1], "abcd-123");
    assert_eq!(args.len(), 10);
}

#[test]
fn agent_alias_detection_and_paths() {
    assert!(session_is_agent_alias(&"agent-12".to_string()));
    assert!(!session_is_agent_alias(&"b2c3".to_string()));
    assert!(!session_is_agent_alias(&"agent".to_string()));
    assert_eq!(
        agent_transcript_path(&"/work/proj///".to_string(), &"agent-12".to_string()),
        "/work/proj/agent-12.jsonl"
    );
    assert_eq!(
        home_transcript_path(
            &"/home/u".to_string(),
            &"/work/my/proj".to_string(),
            &"agent-9".to_string()
        ),
        "/home/u/.assistant/projects/work-my-proj/agent-9.jsonl"
    );
}

#[test]
fn transcript_session_id_extraction() {
    let content = "{\"x\":1,\"sessionId\":\"11111111-2222\",\"y\":2}".to_string();
    assert_eq!(
        extract_session_uuid(&content),
        Some("11111111-2222".to_string())
    );
    assert_eq!(extract_session_uuid(&"no marker here".to_string()), None);
    // marker present but the value's closing quote is missing
    assert_eq!(
        extract_session_uuid(&"{\"sessionId\":\"unterminated".to_string()),
        None
    );
}

#[test]
fn alias_resolution_prefers_primary_then_fallback() {
    let alias = "agent-5".to_string();
    let primary = "{\"sessionId\":\"real-primary\"}".to_string();
    let fallback = "{\"sessionId\":\"real-fallback\"}".to_string();
    assert_eq!(
        resolve_session_id(&alias, Some(&primary), Some(&fallback)),
        "real-primary"
    );
    assert_eq!(
        resolve_session_id(&alias, None, Some(&fallback)),
        "real-fallback"
    );
    assert_eq!(resolve_session_id(&alias, None, None), "agent-5");
    // a readable primary without an embedded id keeps the alias
    assert_eq!(
        resolve_session_id(&alias, Some(&"{}".to_string()), Some(&fallback)),
        "agent-5"
    );
    // a plain session id passes through untouched
    assert_eq!(
        resolve_session_id(&"plain-id".to_string(), Some(&primary), None),
        "plain-id"
    );
}

fn request(tag: &str, session_id: Option<&str>) -> ExecutionRequest {
    ExecutionRequest {
        project_path: "/work/proj".to_string(),
        prompt: "do it".to_string(),
        model: Some("m-large".to_string()),
        session_id: session_id.map(|s| s.to_string()),
        command_type: tag.to_string(),
    }
}

#[test]
fn plan_command_covers_all_tags() {
    let args = plan_command(&request("execute", None), None, None).unwrap();
    assert_eq!(args[0], "-p");
    assert_eq!(args[1], "do it");
    let args = plan_command(&request("continue", None), None, None).unwrap();
    assert_eq!(args[0], "-c");
    let transcript = "{\"sessionId\":\"resolved-id\"}".to_string();
    let args =
        plan_command(&request("resume", Some("agent-3")), Some(&transcript), None).unwrap();
    assert_eq!(args[0], "--resume");
    assert_eq!(args[1], "resolved-id");
    let err = plan_command(&request("reboot", None), None, None).unwrap_err();
    assert_eq!(err, "Unknown command type");
}

#[test]
fn missing_model_defaults_to_empty() {
    let mut req = request("execute", None);
    req.model = None;
    let args = plan_command(&req, None, None).unwrap();
    assert_eq!(args[3], "");
}

#[test]
fn binary_lookup_answers_a_candidate_or_the_fixed_error() {
    let home = "/nonexistent-home".to_string();
    match find_assistant_binary(&home) {
        Ok(p) => {
            let candidates = vec![
                "binaries/assistant-cli-x86_64-unknown-linux-gnu".to_string(),
                "assistant".to_string(),
                "assistant-cli".to_string(),
                "/usr/local/bin/assistant".to_string(),
                "/usr/bin/assistant".to_string(),
                "/opt/homebrew/bin/assistant".to_string(),
                format!("{home}/.local/bin/assistant"),
            ];
            assert!(candidates.contains(&p));
        },
        Err(e) => {
            assert_eq!(e, "Assistant binary not found in bundled location or system paths");
        },
    }
}

#[test]
fn session_ids_are_fresh_uuids() {
    let a = new_session_id();
    let b = new_session_id();
    assert_ne!(a, b);
    assert_eq!(a.len(), 36);
    assert_eq!(a.chars().filter(|&c| c == '-').count(), 4);
}

use opcode_core::discovery::parse_process_listing;
use opcode_core::model::ProcessType;

const NOW: i64 = 1_750_000_000;

fn session_of(rec: &opcode_core::model::ProcessRecord) -> String {
    match &rec.process_type {
        ProcessType::AssistantSession { session_id } => session_id.clone(),
        _ => panic!("discovered records are always interactive sessions"),
    }
}

#[test]
fn qualifying_line_with_resume_and_model_flags() {
    let listing =
        "12345 Fri Jan 25 21:20:00 2026 /home/user/.local/bin/assistant --resume S1 --model M1\n";
    let recs = parse_process_listing(listing, NOW);
    assert_eq!(recs.len(), 1);
    let r = &recs[0];
    assert_eq!(r.pid, 12345);
    assert_eq!(r.run_id, 12345);
    assert_eq!(session_of(r), "S1");
    assert_eq!(r.model, "M1");
    assert_eq!(r.project_path, "Unknown");
    assert_eq!(r.task, "Discovered running process");
    assert_eq!(r.started_at, NOW);
}

#[test]
fn missing_model_flag_falls_back_to_default() {
    let listing = "999 Mon Feb 2 08:00:00 2026 /usr/local/bin/assistant --resume abc\n";
    let recs = parse_process_listing(listing, NOW);
    assert_eq!(recs.len(), 1);
    assert_eq!(recs[0].model, "sonnet");
    assert_eq!(session_of(&recs[0]), "abc");
}

#[test]
fn missing_resume_flag_falls_back_to_unknown_pid() {
    let listing = "77 Mon Feb 2 08:00:00 2026 /usr/bin/assistant -p hello\n";
    let recs = parse_process_listing(listing, NOW);
    assert_eq!(recs.len(), 1);
    assert_eq!(session_of(&recs[0]), "unknown-77");
}

#[test]
fn excluded_helper_processes_are_never_returned() {
    let listing = "\
10 Mon Feb 2 08:00:00 2026 /usr/bin/assistant mcp-server --port 3000
11 Mon Feb 2 08:00:00 2026 /usr/bin/assistant worker-service
12 Mon Feb 2 08:00:00 2026 /usr/bin/assistant --resume keep
";
    let recs = parse_process_listing(listing, NOW);
    assert_eq!(recs.len(), 1);
    assert_eq!(recs[0].pid, 12);
    assert_eq!(session_of(&recs[0]), "keep");
}

#[test]
fn lines_without_the_executable_path_are_skipped() {
    // mentions assistant, but the command part has no /assistant or \assistant
    let listing = "13 Mon Feb 2 08:00:00 2026 vim assistant-notes.txt\n";
    assert!(parse_process_listing(listing, NOW).is_empty());
}

#[test]
fn short_lines_and_bad_pids_are_skipped() {
    let listing = "\
assistant
not-a-pid Mon Feb 2 08:00:00 2026 /usr/bin/assistant
14 Mon Feb 2 08:00:00 2026 /usr/bin/assistant
";
    let recs = parse_process_listing(listing, NOW);
    assert_eq!(recs.len(), 1);
    assert_eq!(recs[0].pid, 14);
}

#[test]
fn empty_and_blank_listings_yield_nothing() {
    assert!(parse_process_listing("", NOW).is_empty());
    assert!(parse_process_listing("\n   \n\t\n", NOW).is_empty());
}

#[test]
fn windows_style_backslash_path_qualifies() {
    let listing = "21 Mon Feb 2 08:00:00 2026 C:\\tools\\assistant --model m-large\n";
    let recs = parse_process_listing(listing, NOW);
    assert_eq!(recs.len(), 1);
    assert_eq!(recs[0].model, "m-large");
}

#[test]
fn multiple_qualifying_lines_keep_listing_order() {
    let listing = "\
31 Mon Feb 2 08:00:00 2026 /usr/bin/assistant --resume a
32 Mon Feb 2 08:00:00 2026 /usr/bin/assistant --resume b
";
    let recs = parse_process_listing(listing, NOW);
    assert_eq!(recs.len(), 2);
    assert_eq!(recs[0].pid, 31);
    assert_eq!(recs[1].pid, 32);
    assert_eq!(session_of(&recs[0]), "a");
    assert_eq!(session_of(&recs[1]), "b");
}

#[test]
fn flag_value_missing_after_flag_is_ignored() {
    // --resume is the final token, so it names no value
    let listing = "41 Mon Feb 2 08:00:00 2026 /usr/bin/assistant --resume\n";
    let recs = parse_process_listing(listing, NOW);
    assert_eq!(recs.len(), 1);
    assert_eq!(session_of(&recs[0]), "unknown-41");
}

use opcode_core::model::{ProcessRecord, ProcessType};
use opcode_core::registry::{
    kill_transition, KillOutcome, KillPhase, KillStep, ProcessRegistry, RegistryError,
    SignalEvent,
};

fn session_record(run_id: i64, pid: u32, session: &str) -> ProcessRecord {
    ProcessRecord {
        run_id,
        pid,
        process_type: ProcessType::AssistantSession { session_id: session.to_string() },
        started_at: 1_700_000_000,
        project_path: "/tmp/project".to_string(),
        task: "interactive".to_string(),
        model: "sonnet".to_string(),
    }
}

fn agent_record(run_id: i64, pid: u32, agent_id: i64, agent_name: &str) -> ProcessRecord {
    ProcessRecord {
        run_id,
        pid,
        process_type: ProcessType::AgentRun { agent_id, agent_name: agent_name.to_string() },
        started_at: 1_700_000_000,
        project_path: "/tmp/project".to_string(),
        task: "batch".to_string(),
        model: "sonnet".to_string(),
    }
}

fn listed_ids(reg: &ProcessRegistry) -> Vec<i64> {
    reg.get_running_processes().iter().map(|p| p.run_id).collect()
}

#[test]
fn register_lists_and_returns_id() {
    let mut reg = ProcessRegistry::new();
    let id = reg.register(session_record(1, 100, "s1")).unwrap();
    assert_eq!(id, 1);
    assert_eq!(listed_ids(&reg), vec![1]);
}

#[test]
fn register_duplicate_is_rejected_without_overwrite() {
    let mut reg = ProcessRegistry::new();
    reg.register(session_record(5, 100, "first")).unwrap();
    let err = reg.register(session_record(5, 200, "second")).unwrap_err();
    assert_eq!(err, RegistryError::DuplicateRunId);
    let listed = reg.get_running_processes();
    assert_eq!(listed.len(), 1);
    assert_eq!(listed[0].pid, 100);
    match &listed[0].process_type {
        ProcessType::AssistantSession { session_id } => assert_eq!(session_id, "first"),
        _ => panic!("variant changed"),
    }
}

#[test]
fn list_reflects_register_unregister_interleavings() {
    // A deterministic pseudo-random interleaving, checked against a plain
    // vector model of the registered set.
    let mut reg = ProcessRegistry::new();
    let mut model: Vec<i64> = Vec::new();
    let mut state: u64 = 0x2545F4914F6CDD1D;
    for step in 0..200u64 {
        state = state.wrapping_mul(6364136223846793005).wrapping_add(1442695040888963407);
        let id = (state >> 33) as i64 % 17;
        if state % 3 == 0 {
            reg.unregister(id);
            model.retain(|&m| m != id);
        } else {
            let res = reg.register(session_record(id, 1000 + step as u32, "x"));
            if model.contains(&id) {
                assert_eq!(res.unwrap_err(), RegistryError::DuplicateRunId);
            } else {
                assert_eq!(res.unwrap(), id);
                model.push(id);
            }
        }
        let mut listed = listed_ids(&reg);
        let mut expected = model.clone();
        listed.sort();
        expected.sort();
        assert_eq!(listed, expected, "mismatch at step {step}");
        // no duplicates ever
        let mut dedup = listed.clone();
        dedup.dedup();
        assert_eq!(dedup, listed);
    }
}

#[test]
fn unregister_twice_is_a_no_op_both_times() {
    let mut reg = ProcessRegistry::new();
    reg.register(session_record(1, 100, "a")).unwrap();
    reg.register(session_record(2, 101, "b")).unwrap();
    reg.unregister(1);
    assert_eq!(listed_ids(&reg), vec![2]);
    reg.unregister(1);
    assert_eq!(listed_ids(&reg), vec![2]);
    reg.unregister(99);
    assert_eq!(listed_ids(&reg), vec![2]);
}

#[test]
fn kill_of_never_registered_id_is_false_and_no_error() {
    let mut reg = ProcessRegistry::new();
    let r = reg.kill_process(42, KillOutcome::Exited);
    assert_eq!(r, Ok(false));
    // even a failed outcome is not surfaced for an unknown id
    let r = reg.kill_process(42, KillOutcome::Failed("permission denied".to_string()));
    assert_eq!(r, Ok(false));
}

#[test]
fn kill_removes_exactly_once_then_false() {
    let mut reg = ProcessRegistry::new();
    reg.register(session_record(7, 700, "s")).unwrap();
    assert_eq!(reg.kill_target(7), Some(700));
    let first = reg.kill_process(7, KillOutcome::Exited);
    assert_eq!(first, Ok(true));
    assert!(listed_ids(&reg).is_empty());
    let second = reg.kill_process(7, KillOutcome::Exited);
    assert_eq!(second, Ok(false));
    assert_eq!(reg.kill_target(7), None);
}

#[test]
fn kill_already_gone_race_counts_as_success() {
    let mut reg = ProcessRegistry::new();
    reg.register(session_record(3, 300, "s")).unwrap();
    assert_eq!(reg.kill_process(3, KillOutcome::AlreadyGone), Ok(true));
    assert!(listed_ids(&reg).is_empty());
}

#[test]
fn kill_signal_failure_propagates_and_keeps_entry() {
    let mut reg = ProcessRegistry::new();
    reg.register(session_record(3, 300, "s")).unwrap();
    let r = reg.kill_process(3, KillOutcome::Failed("permission denied".to_string()));
    assert_eq!(r, Err("permission denied".to_string()));
    assert_eq!(listed_ids(&reg), vec![3]);
}

#[test]
fn bulk_kill_count_equals_individual_true_results() {
    let mut reg = ProcessRegistry::new();
    for i in 0..4 {
        reg.register(session_record(i, 100 + i as u32, "s")).unwrap();
    }
    let outcomes = vec![
        KillOutcome::Exited,
        KillOutcome::Failed("os error".to_string()),
        KillOutcome::AlreadyGone,
        KillOutcome::Failed("denied".to_string()),
    ];
    let count = reg.kill_all_processes(&outcomes);
    assert_eq!(count, 2);
    let mut left = listed_ids(&reg);
    left.sort();
    assert_eq!(left, vec![1, 3]);
}

#[test]
fn bulk_kill_by_type_targets_only_that_class() {
    let mut reg = ProcessRegistry::new();
    reg.register(session_record(1, 100, "s1")).unwrap();
    reg.register(agent_record(2, 101, 9, "worker")).unwrap();
    reg.register(session_record(3, 102, "s2")).unwrap();
    let sessions = reg.get_running_assistant_sessions();
    assert_eq!(sessions.len(), 2);
    let outcomes = vec![KillOutcome::Exited, KillOutcome::Exited];
    let count = reg.kill_all_assistant_sessions(&outcomes);
    assert_eq!(count, 2);
    assert_eq!(listed_ids(&reg), vec![2]);
}

#[test]
fn kill_transition_escalates_then_settles() {
    let step = kill_transition(KillPhase::Graceful, SignalEvent::TimedOut);
    assert!(matches!(step, KillStep::Escalate(KillPhase::Forceful)));
    let step = kill_transition(KillPhase::Graceful, SignalEvent::Exited);
    assert!(matches!(step, KillStep::Done(KillOutcome::Exited)));
    let step = kill_transition(KillPhase::Forceful, SignalEvent::NoSuchProcess);
    assert!(matches!(step, KillStep::Done(KillOutcome::AlreadyGone)));
    let step = kill_transition(
        KillPhase::Graceful,
        SignalEvent::SignalError("denied".to_string()),
    );
    match step {
        KillStep::Done(KillOutcome::Failed(m)) => assert_eq!(m, "denied"),
        _ => panic!("signal error must settle as failure"),
    }
    let step = kill_transition(KillPhase::Forceful, SignalEvent::TimedOut);
    match step {
        KillStep::Done(KillOutcome::Failed(m)) => {
            assert_eq!(m, "process survived forceful kill")
        },
        _ => panic!("a survivor of the forceful stage is a failure"),
    }
}

#[test]
fn registry_error_message_text() {
    let err = RegistryError::DuplicateRunId;
    assert_eq!(err.message(), "duplicate run id");
}

#[test]
fn list_keeps_table_order() {
    let mut reg = ProcessRegistry::new();
    for id in [5, 1, 9] {
        reg.register(session_record(id, id as u32 + 50, "s")).unwrap();
    }
    assert_eq!(listed_ids(&reg), vec![5, 1, 9]);
}

#[test]
fn kill_each_counts_a_repeated_id_only_once() {
    let mut reg = ProcessRegistry::new();
    reg.register(session_record(8, 800, "s")).unwrap();
    let ids = vec![8, 8];
    let outcomes = vec![KillOutcome::Exited, KillOutcome::Exited];
    // the second kill of the same id finds nothing and settles false
    assert_eq!(reg.kill_each(&ids, &outcomes), 1);
    assert!(listed_ids(&reg).is_empty());
}

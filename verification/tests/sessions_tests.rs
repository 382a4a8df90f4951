use opcode_core::sessions::{SessionInfo, SessionTable};

fn make_info(created_at: i64) -> (SessionInfo, tokio::sync::mpsc::Receiver<String>) {
    let (tx, rx) = tokio::sync::mpsc::channel::<String>(100);
    (SessionInfo { sender: tx, created_at }, rx)
}

#[test]
fn register_then_lookup_then_remove() {
    let mut table = SessionTable::new();
    assert_eq!(table.session_count(), 0);
    let (info, mut rx) = make_info(10);
    table.register_session("sess-1".to_string(), info);
    assert_eq!(table.session_count(), 1);
    assert!(table.contains_session(&"sess-1".to_string()));

    let sender = table.sender_for(&"sess-1".to_string()).expect("session is stored");
    sender.try_send("hello".to_string()).unwrap();
    assert_eq!(rx.try_recv().unwrap(), "hello");

    table.remove_session(&"sess-1".to_string());
    assert_eq!(table.session_count(), 0);
    assert!(table.sender_for(&"sess-1".to_string()).is_none());
}

#[test]
fn send_after_teardown_is_silent() {
    // once the entry is removed, no sender is handed out, so no further
    // events can reach the connection
    let mut table = SessionTable::new();
    let (info, mut rx) = make_info(0);
    table.register_session("gone".to_string(), info);
    table.remove_session(&"gone".to_string());
    assert!(table.sender_for(&"gone".to_string()).is_none());
    assert!(rx.try_recv().is_err());
}

#[test]
fn remove_of_absent_session_is_a_no_op() {
    let mut table = SessionTable::new();
    let (info, _rx) = make_info(5);
    table.register_session("keep".to_string(), info);
    table.remove_session(&"other".to_string());
    assert_eq!(table.session_count(), 1);
    assert!(table.contains_session(&"keep".to_string()));
}

#[test]
fn reregistering_a_session_replaces_the_entry() {
    let mut table = SessionTable::new();
    let (info1, mut rx1) = make_info(1);
    let (info2, mut rx2) = make_info(2);
    table.register_session("dup".to_string(), info1);
    table.register_session("dup".to_string(), info2);
    assert_eq!(table.session_count(), 1);
    let sender = table.sender_for(&"dup".to_string()).unwrap();
    sender.try_send("to-second".to_string()).unwrap();
    assert!(rx1.try_recv().is_err());
    assert_eq!(rx2.try_recv().unwrap(), "to-second");
}

#[test]
fn independent_sessions_have_independent_channels() {
    let mut table = SessionTable::new();
    let (info_a, mut rx_a) = make_info(1);
    let (info_b, mut rx_b) = make_info(1);
    table.register_session("a".to_string(), info_a);
    table.register_session("b".to_string(), info_b);
    table.sender_for(&"a".to_string()).unwrap().try_send("for-a".to_string()).unwrap();
    table.sender_for(&"b".to_string()).unwrap().try_send("for-b".to_string()).unwrap();
    assert_eq!(rx_a.try_recv().unwrap(), "for-a");
    assert_eq!(rx_b.try_recv().unwrap(), "for-b");
}

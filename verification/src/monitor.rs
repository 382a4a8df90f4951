//! The read path of the control surface: merging registry entries with
//! discovered processes into one unified listing of monitor rows, and the
//! aggregate statistics over both sources.

use vstd::prelude::*;

use crate::model::{ProcessMonitorInfo, ProcessMonitorStats, ProcessRecord, ProcessType};
use crate::registry::{is_agent_run, is_assistant_session, ProcessRegistry};

verus! {

/// The RFC 3339 rendering of a UTC timestamp, in non-leap seconds since
/// the Unix epoch.
pub uninterp spec fn rfc3339_utc_of(secs: int) -> Seq<char>;

/// The last second the timestamp renderer is relied on to accept: the end
/// of year 9999.
pub const MAX_RFC3339_SECS: i64 = 253402300799;

/// Relies on chrono's `DateTime::<Utc>::from_timestamp`, which answers
/// `None` exactly on an out-of-range second count and in particular
/// accepts every count up to the end of year 9999, and on
/// `DateTime::to_rfc3339`, whose result is a function of the timestamp
/// alone.
#[verifier::external_body]
fn rfc3339_utc(secs: i64) -> (r: Option<String>)
    ensures
        r matches Some(s) ==> s@ == rfc3339_utc_of(secs as int),
        0 <= secs <= MAX_RFC3339_SECS ==> r is Some,
{
    chrono::DateTime::<chrono::Utc>::from_timestamp(secs, 0).map(|dt| dt.to_rfc3339())
}

/// Renders a record's start time for transport. Every realistic timestamp
/// — any second from the epoch to the end of year 9999 — renders in RFC
/// 3339; outside that range the field falls back to empty.
pub fn started_at_rfc3339(secs: i64) -> (r: String)
    ensures
        0 <= secs <= MAX_RFC3339_SECS ==> r@ == rfc3339_utc_of(secs as int),
        r@ == rfc3339_utc_of(secs as int) || r@ == Seq::<char>::empty(),
{
    match rfc3339_utc(secs) {
        Some(s) => s,
        None => String::new(),
    }
}

/// How a monitor row reports a record at query time `now`: identity and
/// descriptive fields verbatim, the variant flattened into the type tag
/// and its optional fields, the start time rendered, and the elapsed
/// duration derived — never stored.
pub open spec fn monitor_info_matches(
    rec: ProcessRecord,
    info: ProcessMonitorInfo,
    now: i64,
) -> bool {
    &&& info.run_id == rec.run_id
    &&& info.pid == rec.pid
    &&& info.duration_seconds == now - rec.started_at
    &&& info.project_path@ == rec.project_path@
    &&& info.task@ == rec.task@
    &&& info.model@ == rec.model@
    &&& (0 <= rec.started_at <= MAX_RFC3339_SECS ==> info.started_at@ == rfc3339_utc_of(
        rec.started_at as int,
    ))
    &&& match rec.process_type {
        ProcessType::AssistantSession { session_id } => {
            &&& info.process_type@ == "assistant_session"@
            &&& (info.session_id matches Some(s) && s@ == session_id@)
            &&& info.agent_id is None
            &&& info.agent_name is None
        },
        ProcessType::AgentRun { agent_id, agent_name } => {
            &&& info.process_type@ == "agent_run"@
            &&& info.session_id is None
            &&& info.agent_id == Some(agent_id)
            &&& (info.agent_name matches Some(n) && n@ == agent_name@)
        },
    }
}

/// Builds the monitor row of one record at query time `now`.
pub fn monitor_info_of(rec: &ProcessRecord, now: i64) -> (info: ProcessMonitorInfo)
    requires
        i64::MIN <= now - rec.started_at <= i64::MAX,
    ensures
        monitor_info_matches(*rec, info, now),
{
    let (process_type, session_id, agent_id, agent_name) = match &rec.process_type {
        ProcessType::AssistantSession { session_id } => (
            String::from_str("assistant_session"),
            Some(session_id.clone()),
            None,
            None,
        ),
        ProcessType::AgentRun { agent_id, agent_name } => (
            String::from_str("agent_run"),
            None,
            Some(*agent_id),
            Some(agent_name.clone()),
        ),
    };
    let duration = match now.checked_sub(rec.started_at) {
        Some(d) => d,
        None => 0,
    };
    ProcessMonitorInfo {
        run_id: rec.run_id,
        pid: rec.pid,
        process_type,
        session_id,
        agent_id,
        agent_name,
        started_at: started_at_rfc3339(rec.started_at),
        project_path: rec.project_path.clone(),
        task: rec.task.clone(),
        model: rec.model.clone(),
        duration_seconds: duration,
    }
}

/// Each row reports the record at the same position.
pub open spec fn monitor_rows_match(
    recs: Seq<ProcessRecord>,
    rows: Seq<ProcessMonitorInfo>,
    now: i64,
) -> bool {
    &&& rows.len() == recs.len()
    &&& forall|k: int|
        0 <= k < recs.len() ==> monitor_info_matches(#[trigger] recs[k], rows[k], now)
}

/// The unified process listing: the registry's entries first, then the
/// discovered ones, each turned into a monitor row at query time `now`.
pub fn get_all_processes(
    registry: &ProcessRegistry,
    discovered: &Vec<ProcessRecord>,
    now: i64,
) -> (rows: Vec<ProcessMonitorInfo>)
    requires
        forall|k: int|
            0 <= k < registry@.len() ==> i64::MIN <= now - (#[trigger] registry@[k]).started_at
                <= i64::MAX,
        forall|k: int|
            0 <= k < discovered@.len() ==> i64::MIN <= now
                - (#[trigger] discovered@[k]).started_at <= i64::MAX,
    ensures
        monitor_rows_match(registry@ + discovered@, rows@, now),
{
    let ghost combined = registry@ + discovered@;
    let regs = registry.get_running_processes();
    let mut rows: Vec<ProcessMonitorInfo> = Vec::new();
    let rn = regs.len();
    let mut i: usize = 0;
    while i < rn
        invariant
            i <= rn,
            rn == regs@.len(),
            regs@ == registry@,
            rows@.len() == i,
            forall|k: int|
                0 <= k < rn ==> i64::MIN <= now - (#[trigger] regs@[k]).started_at
                    <= i64::MAX,
            forall|k: int|
                0 <= k < i ==> monitor_info_matches(#[trigger] regs@[k], rows@[k], now),
        decreases rn - i,
    {
        rows.push(monitor_info_of(&regs[i], now));
        i += 1;
    }
    let dn = discovered.len();
    let mut j: usize = 0;
    while j < dn
        invariant
            j <= dn,
            dn == discovered@.len(),
            rn == regs@.len(),
            regs@ == registry@,
            rows@.len() == rn + j,
            forall|k: int|
                0 <= k < dn ==> i64::MIN <= now - (#[trigger] discovered@[k]).started_at
                    <= i64::MAX,
            forall|k: int|
                0 <= k < rn ==> monitor_info_matches(#[trigger] regs@[k], rows@[k], now),
            forall|k: int|
                0 <= k < j ==> monitor_info_matches(
                    #[trigger] discovered@[k],
                    rows@[rn + k],
                    now,
                ),
        decreases dn - j,
    {
        rows.push(monitor_info_of(&discovered[j], now));
        j += 1;
    }
    proof {
        assert forall|k: int| 0 <= k < combined.len() implies monitor_info_matches(
            #[trigger] combined[k],
            rows@[k],
            now,
        ) by {
            if k < rn {
                assert(combined[k] == regs@[k]);
            } else {
                assert(combined[k] == discovered@[k - rn]);
                assert(monitor_info_matches(discovered@[k - rn], rows@[k], now));
            }
        }
    }
    rows
}

/// The aggregate statistics over both sources: every discovered process
/// counts as an interactive session, since agent runs are tracked in the
/// registry alone.
pub fn get_process_stats(registry: &ProcessRegistry, discovered: &Vec<ProcessRecord>) -> (r:
    ProcessMonitorStats)
    requires
        registry@.len() + discovered@.len() <= usize::MAX,
    ensures
        r.total_processes == registry@.len() + discovered@.len(),
        r.assistant_sessions == registry@.filter(is_assistant_session()).len() + discovered@.len(),
        r.agent_runs == registry@.filter(is_agent_run()).len(),
{
    let regs = registry.get_running_processes();
    let sessions = registry.get_running_assistant_sessions();
    let agents = registry.get_running_agent_processes();
    proof {
        Seq::lemma_filter_len(registry@, is_assistant_session());
    }
    ProcessMonitorStats {
        total_processes: regs.len() + discovered.len(),
        assistant_sessions: sessions.len() + discovered.len(),
        agent_runs: agents.len(),
    }
}

} // verus!

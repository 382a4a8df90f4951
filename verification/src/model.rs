//! The entity describing one tracked subprocess, and the shapes the control
//! surface reports: per-process monitor rows and aggregate statistics.

use vstd::prelude::*;

verus! {

/// The two classes of tracked subprocess. The variant is fixed at creation
/// and decides which bulk-kill class the process belongs to.
pub enum ProcessType {
    /// An interactive assistant session.
    AssistantSession { session_id: String },
    /// An unattended agent run.
    AgentRun { agent_id: i64, agent_name: String },
}

impl Clone for ProcessType {
    fn clone(&self) -> (r: Self)
        ensures
            r == *self,
    {
        match self {
            ProcessType::AssistantSession { session_id } => ProcessType::AssistantSession {
                session_id: session_id.clone(),
            },
            ProcessType::AgentRun { agent_id, agent_name } => ProcessType::AgentRun {
                agent_id: *agent_id,
                agent_name: agent_name.clone(),
            },
        }
    }
}

/// One tracked subprocess. `run_id` is the identity every control operation
/// uses; `pid` is the OS process id, which doubles as the handle the kill
/// path signals. `started_at` counts non-leap seconds since the Unix epoch
/// and serves only to derive an elapsed duration at query time.
pub struct ProcessRecord {
    pub run_id: i64,
    pub pid: u32,
    pub process_type: ProcessType,
    pub started_at: i64,
    pub project_path: String,
    pub task: String,
    pub model: String,
}

impl Clone for ProcessRecord {
    fn clone(&self) -> (r: Self)
        ensures
            r == *self,
    {
        ProcessRecord {
            run_id: self.run_id,
            pid: self.pid,
            process_type: self.process_type.clone(),
            started_at: self.started_at,
            project_path: self.project_path.clone(),
            task: self.task.clone(),
            model: self.model.clone(),
        }
    }
}

/// One row of the unified process listing, with the variant flattened into
/// plain optional fields and the timestamp rendered for transport.
pub struct ProcessMonitorInfo {
    pub run_id: i64,
    pub pid: u32,
    pub process_type: String,
    pub session_id: Option<String>,
    pub agent_id: Option<i64>,
    pub agent_name: Option<String>,
    pub started_at: String,
    pub project_path: String,
    pub task: String,
    pub model: String,
    pub duration_seconds: i64,
}

/// Aggregate counts over the unified process listing.
pub struct ProcessMonitorStats {
    pub total_processes: usize,
    pub assistant_sessions: usize,
    pub agent_runs: usize,
}

} // verus!

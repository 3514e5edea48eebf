//! An agent's configuration and state, as far as decisions are made on them.

use vstd::prelude::*;

verus! {

/// The configuration that an agent runs with.
#[derive(Debug, Clone)]
pub struct AgentConfig {
    pub name: String,
    pub model: String,
    pub system_prompt: String,
    pub work_dir: String,
    pub max_turns: u32,
    pub unix_user: Option<String>,
    /// Program and arguments that run the agent.
    pub command: Vec<String>,
    pub config_path: Option<String>,
    pub auto_compact_threshold_tokens: Option<u64>,
}

/// The recorded state of an agent.
#[derive(Debug, Clone)]
pub struct AgentState {
    pub config: AgentConfig,
    /// PID of a sub-agent's worker; `0` for an agent that the server itself runs.
    pub pid: u32,
    pub session_id: String,
    /// RFC 3339 time at which the session started.
    pub session_start: Option<String>,
}

} // verus!

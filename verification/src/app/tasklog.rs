//! Entries of an agent's task log.

use vstd::prelude::*;

verus! {

/// One completed task.
#[derive(Debug, Clone)]
pub struct TaskLog {
    /// RFC 3339 time of completion.
    pub ts: String,
    pub source: String,
    pub turns: u32,
    /// Cost in billionths of a dollar; a positive cost is at least 1.
    pub cost_nanos: u64,
    pub duration_ms: u64,
    pub status: String,
    pub task: String,
    pub error: Option<String>,
    pub msg_id: String,
    pub github_repo: Option<String>,
    pub github_pr: Option<u64>,
    pub input_tokens: Option<u64>,
    pub output_tokens: Option<u64>,
    pub cache_creation_input_tokens: Option<u64>,
    pub cache_read_input_tokens: Option<u64>,
    pub session_count: Option<u32>,
    pub tool_use_count: Option<u32>,
    /// The agent that delegated the task.
    pub parent_agent: Option<String>,
}

/// A count that may be missing; missing is zero.
pub open spec fn count_of(n: Option<u64>) -> nat {
    match n {
        Some(v) => v as nat,
        None => 0,
    }
}

pub open spec fn small_count_of(n: Option<u32>) -> nat {
    match n {
        Some(v) => v as nat,
        None => 0,
    }
}

pub fn count(n: Option<u64>) -> (r: u64)
    ensures
        r == count_of(n),
{
    match n {
        Some(v) => v,
        None => 0,
    }
}

pub fn small_count(n: Option<u32>) -> (r: u32)
    ensures
        r == small_count_of(n),
{
    match n {
        Some(v) => v,
        None => 0,
    }
}

} // verus!

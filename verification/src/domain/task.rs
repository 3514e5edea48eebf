//! Tasks in the queue.

use crate::text::opt_text;
use crate::text::texts;
use vstd::prelude::*;

verus! {

/// Where a task stands.
#[derive(Debug, Clone, Copy, PartialEq, Eq, Structural)]
pub enum TaskStatus {
    Pending,
    Active,
    Done,
    Failed,
    Cancelled,
}

/// Which agents may take a task.
#[derive(Debug, Clone)]
pub struct TaskCriteria {
    pub model: Option<String>,
    pub labels: Vec<String>,
}

#[verifier::ext_equal]
pub ghost struct CriteriaView {
    pub model: Option<Seq<char>>,
    pub labels: Seq<Seq<char>>,
}

impl View for TaskCriteria {
    type V = CriteriaView;

    open spec fn view(&self) -> CriteriaView {
        CriteriaView { model: opt_text(self.model), labels: texts(self.labels@) }
    }
}

/// A task.
#[derive(Debug, Clone)]
pub struct Task {
    pub id: String,
    pub description: String,
    pub status: TaskStatus,
    pub assignee: Option<String>,
    pub result: Option<String>,
    pub error: Option<String>,
    pub created_by: String,
    pub created_at: String,
    pub updated_at: String,
    pub criteria: TaskCriteria,
    pub sm_instance_id: Option<String>,
}

#[verifier::ext_equal]
pub ghost struct TaskView {
    pub id: Seq<char>,
    pub description: Seq<char>,
    pub status: TaskStatus,
    pub assignee: Option<Seq<char>>,
    pub result: Option<Seq<char>>,
    pub error: Option<Seq<char>>,
    pub created_by: Seq<char>,
    pub created_at: Seq<char>,
    pub updated_at: Seq<char>,
    pub criteria: CriteriaView,
    pub sm_instance_id: Option<Seq<char>>,
}

impl View for Task {
    type V = TaskView;

    open spec fn view(&self) -> TaskView {
        TaskView {
            id: self.id@,
            description: self.description@,
            status: self.status,
            assignee: opt_text(self.assignee),
            result: opt_text(self.result),
            error: opt_text(self.error),
            created_by: self.created_by@,
            created_at: self.created_at@,
            updated_at: self.updated_at@,
            criteria: self.criteria@,
            sm_instance_id: opt_text(self.sm_instance_id),
        }
    }
}

} // verus!

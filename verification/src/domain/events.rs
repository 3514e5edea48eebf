//! Domain events: what state machine and task operations announce.

use vstd::prelude::*;

verus! {

/// An event of the orchestration.
#[derive(Debug, Clone)]
pub enum DomainEvent {
    /// An instance was created.
    InstanceCreated { instance_id: String, model: String, title: String, created_by: String },
    /// A transition was applied.
    TransitionApplied { instance_id: String, from: String, to: String, trigger: String },
    /// A task was queued or sent to an agent.
    TaskDispatched { task_id: String, instance_id: Option<String>, assignee: String },
    TaskCompleted { task_id: String, instance_id: Option<String>, result_summary: String },
    TaskFailed { task_id: String, instance_id: Option<String>, error: String },
    TaskTimedOut { task_id: String, instance_id: Option<String> },
    /// An instance reached a terminal state.
    InstanceCompleted { instance_id: String, model: String, final_state: String },
}

/// The name under which an event is routed.
pub open spec fn event_name(e: DomainEvent) -> Seq<char> {
    match e {
        DomainEvent::InstanceCreated { .. } => "instance_created"@,
        DomainEvent::TransitionApplied { .. } => "transition_applied"@,
        DomainEvent::TaskDispatched { .. } => "task_dispatched"@,
        DomainEvent::TaskCompleted { .. } => "task_completed"@,
        DomainEvent::TaskFailed { .. } => "task_failed"@,
        DomainEvent::TaskTimedOut { .. } => "task_timed_out"@,
        DomainEvent::InstanceCompleted { .. } => "instance_completed"@,
    }
}

impl DomainEvent {
    /// The name under which the event is routed.
    pub fn event_type(&self) -> (r: &'static str)
        ensures
            r@ == event_name(*self),
    {
        match self {
            DomainEvent::InstanceCreated { .. } => "instance_created",
            DomainEvent::TransitionApplied { .. } => "transition_applied",
            DomainEvent::TaskDispatched { .. } => "task_dispatched",
            DomainEvent::TaskCompleted { .. } => "task_completed",
            DomainEvent::TaskFailed { .. } => "task_failed",
            DomainEvent::TaskTimedOut { .. } => "task_timed_out",
            DomainEvent::InstanceCompleted { .. } => "instance_completed",
        }
    }
}

/// Each event is routed under the name of what happened.
pub proof fn law_events_by_name(e: &DomainEvent, r: &'static str)
    requires
        call_ensures(DomainEvent::event_type, (e,), r),
    ensures
        e is InstanceCreated <==> r@ == "instance_created"@,
        e is TransitionApplied <==> r@ == "transition_applied"@,
        e is TaskDispatched <==> r@ == "task_dispatched"@,
        e is TaskCompleted <==> r@ == "task_completed"@,
        e is TaskFailed <==> r@ == "task_failed"@,
        e is TaskTimedOut <==> r@ == "task_timed_out"@,
        e is InstanceCompleted <==> r@ == "instance_completed"@,
{
    reveal_strlit("instance_created");
    reveal_strlit("transition_applied");
    reveal_strlit("task_dispatched");
    reveal_strlit("task_completed");
    reveal_strlit("task_failed");
    reveal_strlit("task_timed_out");
    reveal_strlit("instance_completed");
    assert("task_completed"@[5] == 'c');
    assert("task_timed_out"@[5] == 't');
    assert("transition_applied"@[0] == 't');
    assert("instance_completed"@[0] == 'i');
    assert("task_dispatched"@.len() == 15 && "task_failed"@.len() == 11 && "instance_created"@.len()
        == 16);
    assert("task_completed"@.len() == 14 && "task_timed_out"@.len() == 14);
    assert("transition_applied"@.len() == 18 && "instance_completed"@.len() == 18);
}

} // verus!

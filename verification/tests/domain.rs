use deskd::domain::events::DomainEvent;
use deskd::domain::message::{Envelope, Message, Metadata};
use deskd::domain::statemachine::{Instance, StepType, Transition};
use deskd::domain::task::{Task, TaskCriteria, TaskStatus};
use deskd::infra::dto::{
    default_priority, BusEnvelope, BusMessage, BusMetadata, BusRegister, StoredInstance,
    StoredTask, StoredTaskCriteria,
};
use deskd::json::{parse_json, render_json, Json};

#[test]
fn test_event_type_names() {
    let event = DomainEvent::InstanceCreated {
        instance_id: "sm-123".into(),
        model: "pipeline".into(),
        title: "Test".into(),
        created_by: "kira".into(),
    };
    assert_eq!(event.event_type(), "instance_created");

    let event = DomainEvent::TransitionApplied {
        instance_id: "sm-123".into(),
        from: "draft".into(),
        to: "review".into(),
        trigger: "auto".into(),
    };
    assert_eq!(event.event_type(), "transition_applied");
}

#[test]
fn other_event_names() {
    let event = DomainEvent::TaskTimedOut { task_id: "t".into(), instance_id: None };
    assert_eq!(event.event_type(), "task_timed_out");
    let event = DomainEvent::TaskFailed { task_id: "t".into(), instance_id: None, error: "e".into() };
    assert_eq!(event.event_type(), "task_failed");
}

#[test]
fn test_step_type_parse_valid() {
    assert_eq!(StepType::parse("agent").unwrap(), StepType::Agent);
    assert_eq!(StepType::parse("check").unwrap(), StepType::Check);
    assert_eq!(StepType::parse("validate").unwrap(), StepType::Validate);
    assert_eq!(StepType::parse("human").unwrap(), StepType::Human);
}

#[test]
fn test_step_type_parse_invalid() {
    assert!(StepType::parse("chekc").is_err());
    assert!(StepType::parse("").is_err());
    assert!(StepType::parse("Agent").is_err());
    assert_eq!(StepType::parse("a\"b").unwrap_err(), "unknown step_type: \"a\\\"b\"");
}

#[test]
fn test_step_type_default_is_agent() {
    assert_eq!(StepType::default(), StepType::Agent);
}

#[test]
fn test_step_type_display() {
    assert_eq!(StepType::Agent.as_str(), "agent");
    assert_eq!(StepType::Check.as_str(), "check");
    assert_eq!(StepType::Validate.as_str(), "validate");
    assert_eq!(StepType::Human.as_str(), "human");
}

fn make_test_instance() -> Instance {
    Instance {
        id: "sm-test".into(),
        model: "test".into(),
        title: "Test".into(),
        body: String::new(),
        state: "open".into(),
        assignee: "dev".into(),
        result: None,
        error: None,
        created_by: "test".into(),
        created_at: String::new(),
        updated_at: String::new(),
        history: vec![Transition {
            from: "new".into(),
            to: "open".into(),
            trigger: "auto".into(),
            timestamp: String::new(),
            note: None,
            cost_nanos: None,
            turns: None,
            task_id: Some("task-abc".into()),
        }],
        metadata: Json::Null,
        total_cost_nanos: 0,
        total_turns: 0,
        task_ids: Vec::new(),
    }
}

#[test]
fn test_record_task() {
    let mut inst = make_test_instance();
    assert!(inst.task_ids.is_empty());

    inst.record_task("task-001");
    assert_eq!(inst.task_ids, vec!["task-001"]);

    inst.record_task("task-001");
    assert_eq!(inst.task_ids.len(), 1);

    inst.record_task("task-002");
    assert_eq!(inst.task_ids, vec!["task-001", "task-002"]);
}

#[test]
fn test_current_task_id() {
    let inst = make_test_instance();
    assert_eq!(inst.current_task_id(), Some("task-abc"));

    let mut inst2 = inst;
    inst2.history.clear();
    assert_eq!(inst2.current_task_id(), None);
}

#[test]
fn test_bus_message_to_domain_roundtrip() {
    let wire = BusMessage {
        id: "msg-1".into(),
        source: "cli".into(),
        target: "agent:dev".into(),
        payload: parse_json(r#"{"task":"hello"}"#).unwrap(),
        reply_to: Some("cli".into()),
        metadata: BusMetadata { priority: 3, fresh: true },
    };
    let domain: Message = wire.into_message();
    assert_eq!(domain.id, "msg-1");
    assert_eq!(domain.source, "cli");
    assert_eq!(domain.metadata.priority, 3);
    assert!(domain.metadata.fresh);

    let back = BusMessage::from_message(&domain);
    assert_eq!(back.id, "msg-1");
    assert_eq!(back.reply_to, Some("cli".to_string()));
    assert_eq!(render_json(&back.payload), r#"{"task":"hello"}"#);
}

#[test]
fn test_bus_envelope_deserialize_message() {
    let json = r#"{"type":"message","id":"1","source":"a","target":"b","payload":{}}"#;
    let env = BusEnvelope::from_line(json).unwrap();
    let domain: Envelope = env.into_envelope();
    match domain {
        Envelope::Message(m) => {
            assert_eq!(m.source, "a");
            assert_eq!(m.metadata, Metadata { priority: 0, fresh: false });
        }
        _ => panic!("expected Message"),
    }
}

#[test]
fn test_bus_envelope_deserialize_register() {
    let json = r#"{"type":"register","name":"cli","subscriptions":["agent:cli"]}"#;
    let env = BusEnvelope::from_line(json).unwrap();
    let domain: Envelope = env.into_envelope();
    match domain {
        Envelope::Register(r) => assert_eq!(r.name, "cli"),
        _ => panic!("expected Register"),
    }
}

#[test]
fn envelopes_that_are_refused() {
    let bad = [
        "",
        "[]",
        "{}",
        r#"{"type":"other"}"#,
        r#"{"type":"register"}"#,
        r#"{"type":"register","name":"x","subscriptions":[1]}"#,
        r#"{"type":"register","name":"x","subscriptions":null}"#,
        r#"{"type":"message","id":"1","source":"a","target":"b"}"#,
        r#"{"type":"message","id":"1","source":"a","target":"b","payload":1,"reply_to":2}"#,
        r#"{"type":"message","id":"1","source":"a","target":"b","payload":1,"metadata":null}"#,
        r#"{"type":"message","id":"1","source":"a","target":"b","payload":1,"metadata":{"priority":256}}"#,
        r#"{"type":"message","id":"1","source":"a","target":"b","payload":1,"metadata":{"fresh":"no"}}"#,
    ];
    for line in bad {
        assert!(BusEnvelope::from_line(line).is_none(), "{}", line);
    }
    assert!(matches!(BusEnvelope::from_line(r#"{"type":"list","x":1}"#), Some(BusEnvelope::List)));
    assert!(matches!(
        BusEnvelope::from_line(r#"{"type":"register","name":"x"}"#),
        Some(BusEnvelope::Register(BusRegister { .. }))
    ));
}

#[test]
fn wire_defaults_and_lines() {
    let line = r#"{"type":"message","id":"1","source":"a","target":"b","payload":null,"reply_to":null,"metadata":{}}"#;
    match BusEnvelope::from_line(line) {
        Some(BusEnvelope::Message(m)) => {
            assert_eq!(m.metadata.priority, default_priority());
            assert_eq!(m.metadata.priority, 5);
            assert!(m.reply_to.is_none());
            assert_eq!(
                BusEnvelope::Message(m).to_line(),
                "{\"id\":\"1\",\"metadata\":{\"fresh\":false,\"priority\":5},\"payload\":null,\"source\":\"a\",\"target\":\"b\",\"type\":\"message\"}\n"
            );
        }
        _ => panic!("expected a message"),
    }
    assert_eq!(BusEnvelope::List.to_line(), "{\"type\":\"list\"}\n");
    assert_eq!(BusMetadata::default().priority, 0);
    assert!(StoredTaskCriteria::default().labels.is_empty());
}

#[test]
fn test_stored_task_roundtrip() {
    let task = Task {
        id: "task-1".into(),
        description: "test task".into(),
        status: TaskStatus::Active,
        assignee: Some("dev".into()),
        result: None,
        error: None,
        created_by: "cli".into(),
        created_at: "2026-01-01T00:00:00Z".into(),
        updated_at: "2026-01-01T00:00:00Z".into(),
        criteria: TaskCriteria {
            model: Some("runner-sonnet-4-6".into()),
            labels: vec!["rust".into()],
        },
        sm_instance_id: None,
    };
    let stored = StoredTask::from_task(&task);
    assert_eq!(stored.status, "active");
    let mut unknown = stored.clone();
    unknown.status = "odd".into();
    let restored: Task = stored.into_task();
    assert_eq!(restored.status, TaskStatus::Active);
    assert_eq!(restored.id, "task-1");
    assert_eq!(restored.criteria.model.as_deref(), Some("runner-sonnet-4-6"));
    assert_eq!(unknown.into_task().status, TaskStatus::Pending);
}

#[test]
fn test_stored_instance_roundtrip() {
    let mut inst = make_test_instance();
    inst.id = "sm-1".into();
    inst.metadata = parse_json("{}").unwrap();
    let stored = StoredInstance::from_instance(&inst);
    let restored: Instance = stored.into_instance();
    assert_eq!(restored.id, "sm-1");
    assert_eq!(restored.state, "open");
    assert_eq!(restored.history.len(), 1);
    assert_eq!(restored.history[0].from, "new");
    assert_eq!(restored.history[0].task_id, None);
}

use deskd::app::bus::{message_with_id, new_message, new_message_fresh};
use deskd::app::serve::{
    agent_dir, list_request_lines, list_step, parts, AgentDef, ListStep, ServePart, ServeState,
};
use deskd::json::{parse_json, render_json};
use deskd::ports::executor::TokenUsage;
use deskd::worker::{
    decide, error_line, error_line_with_id, read_line, read_response, register_line, request_line,
    request_line_with_id, result_line, result_line_with_id, subscriptions, truncate, Decision,
    Incoming, Response, TaskRequest,
};

#[test]
fn registration_of_a_worker() {
    assert_eq!(subscriptions("dev"), vec!["agent:dev", "queue:tasks"]);
    assert_eq!(
        register_line("dev", subscriptions("dev")),
        "{\"name\":\"dev\",\"subscriptions\":[\"agent:dev\",\"queue:tasks\"],\"type\":\"register\"}\n"
    );
}

#[test]
fn lines_from_the_bus() {
    assert!(matches!(read_line(""), Incoming::Empty));
    assert!(matches!(read_line("{"), Incoming::Invalid));
    assert!(matches!(read_line("{}"), Incoming::Message(_)));
}

#[test]
fn messages_become_tasks() {
    let msg = parse_json(r#"{"id":"1","source":"cli","reply_to":"agent:cli","payload":{"task":"t"}}"#).unwrap();
    assert!(matches!(decide(&msg, true), Decision::OverBudget));
    match decide(&msg, false) {
        Decision::Run(q) => {
            assert_eq!(q.task, "t");
            assert_eq!(q.msg_id, "1");
            assert_eq!(q.source, "cli");
            assert_eq!(q.reply_to.as_deref(), Some("agent:cli"));
        }
        _ => panic!("not run"),
    }
    for text in ["{}", r#"{"payload":{"task":""}}"#, r#"{"payload":{"task":7}}"#] {
        assert!(matches!(decide(&parse_json(text).unwrap(), false), Decision::NoTask));
    }
}

fn request(reply_to: Option<&str>) -> TaskRequest {
    TaskRequest {
        task: "t".into(),
        msg_id: "m1".into(),
        source: "cli".into(),
        reply_to: reply_to.map(|s| s.to_string()),
    }
}

#[test]
fn answers_of_a_worker() {
    assert_eq!(
        result_line_with_id("r1", "dev", &request(None), "ok"),
        "{\"id\":\"r1\",\"metadata\":{\"fresh\":false,\"priority\":0},\"payload\":{\"in_reply_to\":\"m1\",\"result\":\"ok\"},\"source\":\"dev\",\"target\":\"cli\",\"type\":\"message\"}\n"
    );
    assert!(result_line("dev", &request(Some("agent:x")), "ok").contains("\"target\":\"agent:x\""));
    assert!(error_line_with_id("r1", "dev", &request(None), "bad").is_none());
    assert_eq!(
        error_line_with_id("r1", "dev", &request(Some("agent:x")), "bad").unwrap(),
        "{\"id\":\"r1\",\"metadata\":{\"priority\":5},\"payload\":{\"error\":\"bad\",\"in_reply_to\":\"m1\"},\"source\":\"dev\",\"target\":\"agent:x\",\"type\":\"message\"}\n"
    );
    let a = error_line("dev", &request(Some("agent:x")), "bad").unwrap();
    let b = error_line("dev", &request(Some("agent:x")), "bad").unwrap();
    assert_ne!(a, b);
}

#[test]
fn a_request_is_answered_to_its_source() {
    let line = request_line_with_id("i", "cli", "agent:dev", "work", Some(3));
    let msg = parse_json(line.trim_end()).unwrap();
    let v: serde_json::Value = serde_json::from_str(&line).unwrap();
    assert_eq!(v["payload"]["max_turns"], 3);
    assert_eq!(v["target"], "agent:dev");
    let q = match decide(&msg, false) {
        Decision::Run(q) => q,
        _ => panic!("not run"),
    };
    let reply = result_line("dev", &q, "done");
    let r: serde_json::Value = serde_json::from_str(&reply).unwrap();
    assert_eq!(r["target"], "agent:cli");
    match read_response(reply.trim_end()) {
        Some(Response::Result(t)) => assert_eq!(t, "done"),
        _ => panic!("expected the result"),
    }
    assert!(!request_line("cli", "agent:dev", "work", None).contains("max_turns"));
}

#[test]
fn responses_are_read() {
    assert!(read_response("nope").is_none());
    match read_response(r#"{"payload":{"error":"e"}}"#) {
        Some(Response::Error(t)) => assert_eq!(t, "Agent error: e"),
        _ => panic!("expected the error"),
    }
    match read_response(r#"{"b":1,"a":2}"#) {
        Some(Response::Other(j)) => assert_eq!(render_json(&j), r#"{"a":2,"b":1}"#),
        _ => panic!("expected anything else"),
    }
}

#[test]
fn texts_are_cut_at_characters() {
    assert_eq!(truncate("short", 80), "short");
    assert_eq!(truncate("aé", 2), "a");
    assert_eq!(truncate("aé", 3), "aé");
    assert_eq!(truncate("é", 0), "");
}

#[test]
fn one_shot_messages() {
    let m = message_with_id("i".into(), "a", "agent:b", "t", false);
    assert_eq!(m.id, "i");
    assert_eq!(render_json(&m.payload), r#"{"task":"t"}"#);
    assert!(m.reply_to.is_none());
    let a = new_message("a", "agent:b", "t");
    let b = new_message_fresh("a", "agent:b", "t");
    assert!(!a.metadata.fresh);
    assert!(b.metadata.fresh);
    assert_ne!(a.id, b.id);
    assert_eq!(a.id.len(), 36);
    assert_eq!(a.id.as_bytes()[14], b'4');
    assert!(uuid::Uuid::parse_str(&a.id).is_ok());
}

fn def(name: &str, dir: &str) -> AgentDef {
    AgentDef {
        name: name.into(),
        work_dir: dir.into(),
        unix_user: None,
        config_path: format!("{}/deskd.yaml", dir),
    }
}

#[test]
fn served_agents_are_recorded() {
    let state = ServeState::new(
        "/ws.yaml".into(),
        "now".into(),
        &vec![def("a", "/a"), def("b", "/b"), def("a", "/c")],
        vec!["lobby", "ops"],
    );
    assert_eq!(state.rooms, vec!["lobby", "ops"]);
    assert_eq!(state.workspace_config, "/ws.yaml");
    assert_eq!(state.started_at, "now");
    assert_eq!(state.names().len(), 2);
    let a = state.agent("a").unwrap();
    assert_eq!(a.bus_socket, "/c/.deskd/bus.sock");
    assert_eq!(a.config_path, "/c/deskd.yaml");
    assert!(state.agent("z").is_none());
    assert_eq!(agent_dir("/a"), "/a/.deskd");
}

#[test]
fn parts_of_an_agent() {
    assert_eq!(parts(0).len(), 5);
    assert!(!parts(0).contains(&ServePart::Workflow));
    let with = parts(2);
    assert_eq!(with[0], ServePart::Bus);
    assert_eq!(with[3], ServePart::TimeoutSweep);
    assert_eq!(with[4], ServePart::Workflow);
    assert_eq!(with[6], ServePart::ReloadWatcher);
}

#[test]
fn clients_of_a_bus() {
    let (register, list) = list_request_lines();
    assert_eq!(register, "{\"name\":\"deskd-cli-list\",\"subscriptions\":[],\"type\":\"register\"}\n");
    assert_eq!(list, "{\"type\":\"list\"}\n");
    assert!(matches!(list_step("x"), ListStep::Invalid));
    assert!(matches!(list_step("{}"), ListStep::Skip));
    assert!(matches!(list_step(r#"{"type":"list_response"}"#), ListStep::Skip));
    match list_step(r#"{"type":"list_response","clients":["a",1,"b","a"]}"#) {
        ListStep::Clients(names) => assert_eq!(names, vec!["a", "b"]),
        _ => panic!("expected the clients"),
    }
}

#[test]
fn token_usage_adds_up() {
    let mut u = TokenUsage::default();
    u.accumulate(&parse_json(r#"{"input_tokens":3,"output_tokens":"x","cache_read_input_tokens":5}"#).unwrap());
    assert_eq!(u.input_tokens, 3);
    assert_eq!(u.output_tokens, 0);
    assert_eq!(u.cache_read_input_tokens, 5);
    let other = TokenUsage { input_tokens: 1, output_tokens: 2, cache_creation_input_tokens: 3, cache_read_input_tokens: 4 };
    u.merge(&other);
    assert_eq!(u, TokenUsage { input_tokens: 4, output_tokens: 2, cache_creation_input_tokens: 3, cache_read_input_tokens: 9 });
}

use deskd::adapters::telegram::{
    adapter_register_line, inbound_line_with_id, inbound_lines, reply_address, route, route_line,
    Outbound, ADAPTER_NAME,
};
use deskd::json::{parse_json, Json};
use deskd::worker::{decide, result_line_with_id, Decision};

fn target_message(target: &str) -> Json {
    let text = format!(r#"{{"target":"{}","payload":{{"result":"hi"}}}}"#, target);
    parse_json(&text).unwrap()
}

fn chat(target: &str) -> Option<i64> {
    match route(&target_message(target)) {
        Outbound::Send { chat_id, .. } => Some(chat_id),
        _ => None,
    }
}

#[test]
fn test_chat_id_parse() {
    assert_eq!(chat("telegram:-1001234567890"), Some(-1001234567890i64));
    assert_eq!(chat("telegram:123456"), Some(123456i64));
}

#[test]
fn test_post_to_bus_message_format() {
    let line = inbound_line_with_id("test-id", "hello world", "telegram:-123");
    assert!(line.ends_with('\n'));
    let msg: serde_json::Value = serde_json::from_str(line.trim_end()).unwrap();
    assert_eq!(msg["payload"]["task"], "hello world");
    assert_eq!(msg["payload"]["msg_type"], "task");
    assert_eq!(msg["reply_to"], "telegram:-123");
    assert_eq!(msg["target"], "queue:tasks");
    assert_eq!(msg["source"], "telegram-adapter");
    assert_eq!(msg["id"], "test-id");
    assert_eq!(msg["metadata"]["priority"], 5);
    assert_eq!(
        line,
        "{\"id\":\"test-id\",\"metadata\":{\"priority\":5},\"payload\":{\"msg_type\":\"task\",\"task\":\"hello world\"},\"reply_to\":\"telegram:-123\",\"source\":\"telegram-adapter\",\"target\":\"queue:tasks\",\"type\":\"message\"}\n"
    );
}

#[test]
fn lines_that_go_to_no_chat() {
    assert!(matches!(route_line(""), Outbound::Skip));
    assert!(matches!(route_line("{"), Outbound::Invalid));
    assert!(matches!(route_line(r#"{"target":"agent:dev"}"#), Outbound::Skip));
    assert!(matches!(route_line(r#"{"target":"telegram:"}"#), Outbound::BadChat));
    assert!(matches!(route_line(r#"{"target":"telegram:abc"}"#), Outbound::BadChat));
    assert!(matches!(route_line("[]"), Outbound::Skip));
}

#[test]
fn text_for_a_chat() {
    let text = |line: &str| match route_line(line) {
        Outbound::Send { text, .. } => text,
        _ => panic!("not sent"),
    };
    assert_eq!(text(r#"{"target":"telegram:1","payload":{"result":"r","error":"e"}}"#), "r");
    assert_eq!(text(r#"{"target":"telegram:1","payload":{"error":"e"}}"#), "e");
    assert_eq!(text(r#"{"target":"telegram:1","payload":{"result":7,"error":"e"}}"#), "(no content)");
    assert_eq!(text(r#"{"target":"telegram:1"}"#), "(no content)");
}

#[test]
fn answer_comes_back_to_its_chat() {
    let line = inbound_line_with_id("m1", "do it", &reply_address(-42));
    let msg = parse_json(line.trim_end()).unwrap();
    let request = match decide(&msg, false) {
        Decision::Run(q) => q,
        _ => panic!("not run"),
    };
    assert_eq!(request.task, "do it");
    let reply = result_line_with_id("r1", "dev", &request, "done");
    match route_line(reply.trim_end()) {
        Outbound::Send { chat_id, text } => {
            assert_eq!(chat_id, -42);
            assert_eq!(text, "done");
        }
        _ => panic!("not sent"),
    }
}

#[test]
fn registrations() {
    assert_eq!(ADAPTER_NAME, "telegram-adapter");
    assert_eq!(
        adapter_register_line(),
        "{\"name\":\"telegram-adapter\",\"subscriptions\":[\"telegram:*\"],\"type\":\"register\"}\n"
    );
    let (register, message) = inbound_lines("t", "telegram:5");
    let reg: serde_json::Value = serde_json::from_str(register.trim_end()).unwrap();
    let name = reg["name"].as_str().unwrap();
    assert!(name.starts_with("telegram-inbound-"));
    assert_eq!(name.len(), "telegram-inbound-".len() + 36);
    let (_, other) = inbound_lines("t", "telegram:5");
    assert_ne!(message, other);
}

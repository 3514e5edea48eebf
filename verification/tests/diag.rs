use deskd::infra::diag::{
    build_event, error_event, publication, warn_event, DiagBusArg, Level, TOPIC_ERROR, TOPIC_WARN,
};
use deskd::json::{parse_json, render_json, Json};

fn value(j: &Json) -> serde_json::Value {
    serde_json::from_str(&render_json(j)).unwrap()
}

#[test]
fn test_topic_for_level() {
    assert_eq!(Level::Warn.topic(), "diagnostics.warn");
    assert_eq!(Level::Error.topic(), "diagnostics.error");
    assert_eq!(TOPIC_WARN, "diagnostics.warn");
    assert_eq!(TOPIC_ERROR, "diagnostics.error");
}

#[test]
fn test_build_event_shape() {
    let event = value(&build_event(
        Level::Warn,
        "telegram-kira",
        "transport.send_failed",
        "boom",
        parse_json(r#"{"chat_id":"-1234"}"#).unwrap(),
        None,
    ));
    assert_eq!(event["topic"], "diagnostics.warn");
    assert_eq!(event["source"], "telegram-kira");
    assert_eq!(event["kind"], "transport.send_failed");
    assert_eq!(event["message"], "boom");
    assert_eq!(event["details"]["chat_id"], "-1234");
    assert!(event["timestamp"].is_string());
    assert!(event["trace_id"].is_null());
    let stamp = event["timestamp"].as_str().unwrap();
    assert!(chrono::DateTime::parse_from_rfc3339(stamp).is_ok());
    assert!(stamp.ends_with("+00:00"));
}

#[test]
fn test_build_event_with_trace_id() {
    let event = value(&build_event(
        Level::Error,
        "supervisor",
        "agent.respawn_failed",
        "could not respawn",
        parse_json("{}").unwrap(),
        Some("trace-abc"),
    ));
    assert_eq!(event["topic"], "diagnostics.error");
    assert_eq!(event["trace_id"], "trace-abc");
}

#[test]
fn test_diag_bus_arg_empty_string_yields_none() {
    let s: &str = "";
    assert!(s.as_diag_bus().is_none());

    let owned = String::new();
    assert!(owned.as_diag_bus().is_none());

    let none_opt: Option<&str> = None;
    assert!(none_opt.as_diag_bus().is_none());

    let some_empty: Option<&str> = Some("");
    assert!(some_empty.as_diag_bus().is_none());
}

#[test]
fn test_diag_bus_arg_non_empty() {
    let s: &str = "/tmp/bus.sock";
    assert_eq!(s.as_diag_bus(), Some("/tmp/bus.sock"));

    let owned = String::from("/tmp/bus.sock");
    assert_eq!(owned.as_diag_bus(), Some("/tmp/bus.sock"));

    let some_str: Option<&str> = Some("/tmp/bus.sock");
    assert_eq!(some_str.as_diag_bus(), Some("/tmp/bus.sock"));

    let some_owned: Option<String> = Some("/tmp/bus.sock".into());
    assert_eq!(some_owned.as_diag_bus(), Some("/tmp/bus.sock"));
}

#[test]
fn events_go_to_their_topic() {
    let p = warn_event(
        Some("/bus"),
        "telegram",
        "transport.send_failed",
        "telegram send failed: rate limited",
        parse_json(r#"{"chat_id":42}"#).unwrap(),
    )
    .unwrap();
    assert_eq!(p.socket, "/bus");
    assert_eq!(p.message.target, "diagnostics.warn");
    assert!(p.client_name.starts_with("diag:telegram-"));
    assert_eq!(p.message.source, p.client_name);
    let payload = value(&p.message.payload);
    assert_eq!(payload["topic"], "diagnostics.warn");
    assert_eq!(payload["details"]["chat_id"], 42);
    let e = error_event(Some("/bus"), "s", "k", "m", Json::Null).unwrap();
    assert_eq!(e.message.target, "diagnostics.error");
    assert_ne!(e.message.id, p.message.id);
}

#[test]
fn without_a_bus_nothing_is_published() {
    assert!(publication(Level::Warn, None, "s", "k", "m", Json::Null).is_none());
    assert!(publication(Level::Error, Some(""), "s", "k", "m", Json::Null).is_none());
}

use deskd::json::{parse_json, JsonNumber};
use deskd::session::{
    flatten, spawn_args, spawn_command, Restarts, SendAction, SessionError, Turn, MAX_RESTARTS,
};

#[test]
fn test_message_flatten() {
    let msg = "line one\nline two\nline three";
    let flattened = flatten(msg);
    assert_eq!(flattened, "line one line two line three\n");
    assert_eq!(flattened.lines().count(), 1);
}

#[test]
fn test_stream_json_result_parse() {
    let event = r#"{"type":"result","session_id":"sess-abc123","total_cost_usd":0.042,"num_turns":3,"subtype":"success"}"#;
    let mut turn = Turn::new();
    turn.take_event(&parse_json(r#"{"type":"assistant","message":{"content":[{"type":"text","text":"x"}]}}"#).unwrap());
    assert!(turn.take_line(event));
    assert_eq!(turn.next_session("old"), "sess-abc123");
    match turn.cost() {
        Some(JsonNumber::Decimal(t)) => assert_eq!(t.parse::<f64>().unwrap(), 0.042),
        _ => panic!("expected a decimal"),
    }
    assert_eq!(turn.total_turns(10), 13);
    assert_eq!(turn.finish().unwrap(), "x");
}

#[test]
fn test_stream_json_assistant_text_extraction() {
    let event = r#"{"type":"assistant","message":{"content":[
        {"type":"text","text":"Hello, "},
        {"type":"text","text":"world!"},
        {"type":"tool_use","name":"Read"}]}}"#;
    let mut turn = Turn::new();
    assert!(!turn.take_line(event));
    assert!(!turn.take_line(""));
    assert!(!turn.take_line("not json"));
    assert!(!turn.take_line(r#"{"type":"system"}"#));
    assert!(turn.take_line(r#"{"type":"result"}"#));
    assert_eq!(turn.next_session("old"), "old");
    assert!(turn.cost().is_none());
    assert_eq!(turn.finish().unwrap(), "Hello, world!");
}

#[test]
fn turns_that_fail() {
    let turn = Turn::new();
    let e = turn.finish().unwrap_err();
    assert_eq!(e.message("runner"), "runner process exited unexpectedly");
    let mut turn = Turn::new();
    turn.take_line(r#"{"type":"result","total_cost_usd":2,"num_turns":4294967297}"#);
    assert_eq!(turn.total_turns(0), 1);
    assert!(matches!(turn.cost(), Some(JsonNumber::Natural(2))));
    let e = turn.finish().unwrap_err();
    assert_eq!(e.message("runner"), "no response text from runner");
    assert_eq!(
        SessionError::TooManyRestarts { name: "dev".into() }.message("runner"),
        "persistent session for 'dev' exceeded max restarts (3)"
    );
    assert_eq!(SessionError::WriteFailed.message("runner"), "stdin write failed after restart");
}

#[test]
fn restarts_are_counted() {
    let mut r = Restarts::new();
    assert_eq!(MAX_RESTARTS, 3);
    assert_eq!(r.after_write(true, false), SendAction::ReadResult);
    for _ in 0..3 {
        assert_eq!(r.after_write(false, false), SendAction::Restart);
        assert_eq!(r.after_write(true, true), SendAction::ReadResult);
    }
    assert_eq!(r.after_write(false, true), SendAction::Fail);
    assert_eq!(r.after_write(false, false), SendAction::GiveUp);
}

#[test]
fn arguments_of_the_process() {
    let head = ["--output-format", "stream-json", "--verbose", "--dangerously-skip-permissions", "--model", "m"];
    let with = |more: &[&str]| -> Vec<String> {
        head.iter().chain(more.iter()).map(|s| s.to_string()).collect()
    };
    assert_eq!(spawn_args("m", "", ""), with(&[]));
    assert_eq!(spawn_args("m", "p", ""), with(&["--system-prompt", "p"]));
    assert_eq!(spawn_args("m", "p", "s"), with(&["--resume", "s"]));
}

#[test]
fn process_of_another_user() {
    let args = vec!["--x".to_string()];
    let c = spawn_command("runner", &Some("kira".into()), &args, "/w");
    assert_eq!(c.program, "sudo");
    assert_eq!(c.args, vec!["-u", "kira", "-H", "--", "runner", "--x"]);
    assert_eq!(c.cleared_env, vec!["SSH_AUTH_SOCK", "SSH_AGENT_PID"]);
    assert_eq!(c.work_dir, "/w");
    let c = spawn_command("runner", &None, &args, "/w");
    assert_eq!(c.program, "runner");
    assert_eq!(c.args, args);
    assert!(c.cleared_env.is_empty());
}

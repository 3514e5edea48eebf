use deskd::app::agent::{AgentConfig, AgentState};
use deskd::app::commands::{
    context_format, context_head, context_row, key_exists_message, listen_address, server_bus_socket,
    server_key_path, usage_format, A2aConfig, OutputFormat,
};
use deskd::app::context_size::{
    autocompact_pct, context_window_for_model, entry_context_tokens, format_reply,
    format_tokens_compact, gather, is_live, session_since, snapshot_for, AgentReading,
    SessionContext, AUTO_COMPACT_PCT_MAX, CONTEXT_WINDOW_CLAUDE_4, DEFAULT_AUTO_COMPACT_THRESHOLD,
    DEFAULT_CONTEXT_WINDOW,
};
use deskd::app::tasklog::TaskLog;

fn mk_entry(input: u64, cache_creation: u64, cache_read: u64) -> TaskLog {
    TaskLog {
        ts: chrono::Utc::now().to_rfc3339(),
        source: "test".into(),
        turns: 1,
        cost_nanos: 0,
        duration_ms: 0,
        status: "ok".into(),
        task: "t".into(),
        error: None,
        msg_id: "m".into(),
        github_repo: None,
        github_pr: None,
        input_tokens: Some(input),
        output_tokens: None,
        cache_creation_input_tokens: Some(cache_creation),
        cache_read_input_tokens: Some(cache_read),
        session_count: None,
        tool_use_count: None,
        parent_agent: None,
    }
}

#[test]
fn entry_context_tokens_sums_input_and_cache() {
    let e = mk_entry(1_000, 200, 50_000);
    assert_eq!(entry_context_tokens(&e), Some(51_200));
}

#[test]
fn entry_context_tokens_returns_none_without_input() {
    let mut e = mk_entry(0, 0, 0);
    e.input_tokens = None;
    assert_eq!(entry_context_tokens(&e), None);
}

fn mk_session(
    agent: &str,
    model: &str,
    context_tokens: Option<u64>,
    auto_compact_threshold: u64,
) -> SessionContext {
    let context_limit = context_window_for_model(model, "runner");
    SessionContext {
        agent: agent.into(),
        model: model.into(),
        session_id: "abcdef0123456789".into(),
        context_tokens,
        context_limit,
        auto_compact_threshold,
    }
}

#[test]
fn session_short_takes_first_eight_chars() {
    let s = mk_session("kira", "runner-opus-4", Some(100), DEFAULT_AUTO_COMPACT_THRESHOLD);
    assert_eq!(s.session_short(), "abcdef01");
}

#[test]
fn session_short_handles_short_or_blank_ids() {
    let mut s = SessionContext {
        agent: "kira".into(),
        model: "runner-opus-4".into(),
        session_id: "abc".into(),
        context_tokens: None,
        context_limit: context_window_for_model("runner-opus-4", "runner"),
        auto_compact_threshold: DEFAULT_AUTO_COMPACT_THRESHOLD,
    };
    assert_eq!(s.session_short(), "abc");
    s.session_id = "   ".into();
    assert_eq!(s.session_short(), "(no session)");
}

#[test]
fn warning_triggers_at_eighty_percent_of_threshold() {
    let threshold = 300_000u64;
    let warn_at = (threshold as f64 * 0.80) as u64;
    let mut s = SessionContext {
        agent: "a".into(),
        model: "runner-opus-4-7".into(),
        session_id: "xxxxxxxx".into(),
        context_tokens: Some(warn_at),
        context_limit: context_window_for_model("runner-opus-4-7", "runner"),
        auto_compact_threshold: threshold,
    };
    assert!(s.is_warning());
    s.context_tokens = Some(warn_at - 1);
    assert!(!s.is_warning());
}

#[test]
fn format_tokens_compact_buckets() {
    assert_eq!(format_tokens_compact(0), "0");
    assert_eq!(format_tokens_compact(999), "999");
    assert_eq!(format_tokens_compact(1_000), "1k");
    assert_eq!(format_tokens_compact(1_500), "1.5k");
    assert_eq!(format_tokens_compact(45_000), "45k");
    assert_eq!(format_tokens_compact(180_000), "180k");
}

#[test]
fn format_reply_empty_snapshot_says_no_sessions() {
    assert_eq!(format_reply(&[]), "No active sessions.");
}

#[test]
fn format_reply_renders_lines_with_warning() {
    let threshold = DEFAULT_AUTO_COMPACT_THRESHOLD;
    let snap = vec![
        SessionContext {
            agent: "agent-a".into(),
            model: "runner-opus-4".into(),
            session_id: "abc12345xx".into(),
            context_tokens: Some(45_000),
            context_limit: context_window_for_model("runner-opus-4", "runner"),
            auto_compact_threshold: threshold,
        },
        SessionContext {
            agent: "agent-a".into(),
            model: "runner-opus-4-7".into(),
            session_id: "def45678yy".into(),
            context_tokens: Some(250_000),
            context_limit: context_window_for_model("runner-opus-4-7", "runner"),
            auto_compact_threshold: threshold,
        },
        SessionContext {
            agent: "agent-b".into(),
            model: "runner-sonnet".into(),
            session_id: "ghi78901zz".into(),
            context_tokens: None,
            context_limit: context_window_for_model("runner-sonnet", "runner"),
            auto_compact_threshold: threshold,
        },
    ];
    let reply = format_reply(&snap);
    assert!(reply.starts_with("/context\n"));
    assert!(reply.contains("agent-a (session abc12345)  ~45k / 200k"));
    assert!(reply.contains("auto-compact at 300k = 83%"));
    assert!(reply.contains("agent-a (session def45678)  ~250k / 1000k"));
    assert!(reply.contains("auto-compact at 300k = 30%"));
    assert!(reply.contains("⚠️"));
    assert!(reply.contains("agent-b (session ghi78901)  n/a / 200k"));
}

#[test]
fn context_window_for_model_returns_correct_windows() {
    assert_eq!(context_window_for_model("runner-opus-4-7", "runner"), CONTEXT_WINDOW_CLAUDE_4);
    assert_eq!(context_window_for_model("runner-opus-4-6", "runner"), CONTEXT_WINDOW_CLAUDE_4);
    assert_eq!(context_window_for_model("runner-sonnet-4-6", "runner"), CONTEXT_WINDOW_CLAUDE_4);
    assert_eq!(context_window_for_model("runner-haiku-4-5", "runner"), CONTEXT_WINDOW_CLAUDE_4);
    assert_eq!(context_window_for_model("runner-opus-3", "runner"), DEFAULT_CONTEXT_WINDOW);
    assert_eq!(context_window_for_model("runner-sonnet-3-5", "runner"), DEFAULT_CONTEXT_WINDOW);
    assert_eq!(context_window_for_model("anything-else", "runner"), DEFAULT_CONTEXT_WINDOW);
    assert_eq!(context_window_for_model("", "runner"), DEFAULT_CONTEXT_WINDOW);
    assert_eq!(context_window_for_model("runner-opus-4", "runner"), DEFAULT_CONTEXT_WINDOW);
}

#[test]
fn autocompact_pct_normal_cases() {
    let (pct, clamped) = autocompact_pct(300_000, 1_000_000);
    assert_eq!(pct, 30);
    assert!(!clamped);

    let (pct, clamped) = autocompact_pct(300_000, 200_000);
    assert_eq!(pct, AUTO_COMPACT_PCT_MAX);
    assert!(clamped);

    let (pct, clamped) = autocompact_pct(800_000, 1_000_000);
    assert_eq!(pct, 80);
    assert!(!clamped);

    let (pct, clamped) = autocompact_pct(1, 1_000_000);
    assert_eq!(pct, 1);
    assert!(!clamped);
}

#[test]
fn threshold_would_clamp_reflects_clamping() {
    let s = SessionContext {
        agent: "x".into(),
        model: "runner-opus-4".into(),
        session_id: "s".into(),
        context_tokens: None,
        context_limit: DEFAULT_CONTEXT_WINDOW,
        auto_compact_threshold: DEFAULT_AUTO_COMPACT_THRESHOLD,
    };
    assert!(s.threshold_would_clamp());

    let s2 = SessionContext {
        context_limit: CONTEXT_WINDOW_CLAUDE_4,
        ..s
    };
    assert!(!s2.threshold_would_clamp());
}

fn mk_state(pid: u32, session_id: &str) -> AgentState {
    AgentState {
        config: AgentConfig {
            name: "kira".into(),
            model: "runner-opus-4".into(),
            system_prompt: String::new(),
            work_dir: "/tmp".into(),
            max_turns: 100,
            unix_user: None,
            command: vec!["runner".into()],
            config_path: None,
            auto_compact_threshold_tokens: None,
        },
        pid,
        session_id: session_id.into(),
        session_start: None,
    }
}

#[test]
fn is_live_treats_top_level_agent_with_zero_pid_as_live() {
    let state = mk_state(0, "abcdef0123456789");
    assert!(is_live(&state, false));
}

#[test]
fn is_live_rejects_empty_session_id() {
    let state = mk_state(0, "");
    assert!(!is_live(&state, false));
    let state = mk_state(77, "");
    assert!(!is_live(&state, true));
}

#[test]
fn is_live_accepts_subagent_with_running_pid() {
    let state = mk_state(77, "abcdef0123456789");
    assert!(is_live(&state, true));
}

#[test]
fn is_live_rejects_subagent_with_dead_pid() {
    let state = mk_state(u32::MAX - 1, "abcdef0123456789");
    assert!(!is_live(&state, false));
}

#[test]
fn snapshots_are_sorted_and_complete() {
    let reading = |name: &str, alive: bool, entry: Option<TaskLog>| {
        let mut state = mk_state(5, "s");
        state.config.name = name.into();
        AgentReading { state, process_alive: alive, latest_entry: entry, family: "runner".into() }
    };
    let readings = vec![
        reading("b", true, None),
        reading("dead", false, None),
        reading("a", true, Some(mk_entry(1, 2, 3))),
    ];
    let snap = gather(&readings);
    let names: Vec<&str> = snap.iter().map(|s| s.agent.as_str()).collect();
    assert_eq!(names, vec!["a", "b"]);
    assert_eq!(snap[0].context_tokens, Some(6));
    assert!(snapshot_for(&readings[1]).is_none());
    let mut state = mk_state(0, "s");
    assert!(session_since(&state).is_none());
    state.session_start = Some("1970-01-01T00:00:05Z".into());
    assert_eq!(session_since(&state).unwrap().secs, 5);
}

#[test]
fn the_context_table_has_its_columns() {
    let head = context_head();
    assert_eq!(
        head[0],
        format!(
            "{:<16} {:<10} {:<28} {:<10} {:<10} %",
            "AGENT", "SESSION", "MODEL", "TOKENS", "LIMIT"
        )
    );
    assert_eq!(head[1], "─".repeat(86));
    let s = mk_session("kira", "m", Some(45_000), 300_000);
    assert_eq!(
        context_row(&s, "22.5"),
        format!("{:<16} {:<10} {:<28} {:<10} {:<10} {:>5.1}%", "kira", "abcdef01", "m", 45000, 200000, 22.5)
    );
    let warned = mk_session("kira", "m", Some(250_000), 300_000);
    assert!(context_row(&warned, "125.0").ends_with(" 125.0%  ⚠️"));
    let unknown = mk_session("kira", "m", None, 300_000);
    assert!(context_row(&unknown, "9.9").ends_with("n/a        200000         -"));
}

#[test]
fn formats_of_the_commands() {
    assert_eq!(context_format("table"), Ok(OutputFormat::Table));
    assert_eq!(context_format("json"), Ok(OutputFormat::Json));
    assert_eq!(
        context_format("xml"),
        Err("unknown --format 'xml' (use 'table' or 'json')".to_string())
    );
    assert_eq!(usage_format("json"), OutputFormat::Json);
    assert_eq!(usage_format("xml"), OutputFormat::Table);
}

#[test]
fn choices_of_the_a2a_server() {
    let mut cfg = A2aConfig { auth: "jwt".into(), private_key: None, listen: "0:1".into() };
    assert_eq!(server_key_path(&cfg, "/d").as_deref(), Some("/d"));
    cfg.private_key = Some("/k".into());
    assert_eq!(server_key_path(&cfg, "/d").as_deref(), Some("/k"));
    cfg.auth = "api_key".into();
    assert!(server_key_path(&cfg, "/d").is_none());
    assert_eq!(listen_address(&None, &cfg), "0:1");
    assert_eq!(listen_address(&Some("0:2".into()), &cfg), "0:2");
    assert_eq!(server_bus_socket(&Some("/s".into()), &Some("/w".into())), Ok("/s".into()));
    assert_eq!(server_bus_socket(&None, &Some("/w".into())), Ok("/w/.deskd/bus.sock".into()));
    assert_eq!(
        server_bus_socket(&None, &None),
        Err("no bus socket found — is deskd serve running?".into())
    );
    assert_eq!(
        key_exists_message("/k"),
        "Key already exists at /k. Remove it first to regenerate."
    );
}

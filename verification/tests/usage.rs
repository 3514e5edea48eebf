use deskd::app::clock::Instant;
use deskd::app::tasklog::TaskLog;
use deskd::app::usage::{
    agent_row, attribute_entries, attribute_entry, averages_line, can_compute_stats, compute_stats, discover_agents,
    format_tokens, parse_period, table_head, table_rule, table_title, total_row, AgentEntry,
    AgentStats, LogDirEntry,
};
use deskd::text_map::TextMap;

fn now() -> Instant {
    let t = chrono::Utc::now();
    Instant { secs: t.timestamp(), nanos: t.timestamp_subsec_nanos() }
}

#[test]
fn test_parse_period_7d() {
    let now = now();
    let since = parse_period("7d", now).unwrap();
    assert!(since.is_some());
    let cutoff = since.unwrap();
    let diff_days = (now.secs - cutoff.secs) / 86400;
    assert!((diff_days - 7).abs() <= 1);
    assert_eq!(now.secs - cutoff.secs, 7 * 86400);
}

#[test]
fn test_parse_period_today() {
    let t = chrono::Utc::now();
    let now = Instant { secs: t.timestamp(), nanos: t.timestamp_subsec_nanos() };
    let since = parse_period("today", now).unwrap();
    assert!(since.is_some());
    let cutoff = since.unwrap();
    let cutoff_date = chrono::DateTime::from_timestamp(cutoff.secs, cutoff.nanos).unwrap();
    assert_eq!(cutoff_date.date_naive(), t.date_naive());
    assert_eq!(cutoff.secs % 86400, 0);
}

#[test]
fn test_parse_period_24h() {
    let since = parse_period("24h", now()).unwrap();
    assert!(since.is_some());
}

#[test]
fn test_parse_period_all() {
    let since = parse_period("all", now()).unwrap();
    assert!(since.is_none());
}

#[test]
fn test_parse_period_invalid() {
    assert!(parse_period("xyz", now()).is_err());
    assert_eq!(
        parse_period("xyz", now()).unwrap_err(),
        "unknown period 'xyz' — use today, 24h, 7d, 30d, or all"
    );
    assert!(parse_period("xd", now()).is_err());
    assert!(parse_period("xh", now()).is_err());
}

#[test]
fn test_format_tokens() {
    assert_eq!(format_tokens(0), "-");
    assert_eq!(format_tokens(500), "500");
    assert_eq!(format_tokens(1500), "1.5K");
    assert_eq!(format_tokens(1_500_000), "1.5M");
}

#[test]
fn tokens_are_rounded_like_floats() {
    for n in [1000u64, 1049, 1050, 1250, 1350, 9949, 9950, 99_950, 999_949, 999_950, 999_999] {
        assert_eq!(format_tokens(n), format!("{:.1}K", n as f64 / 1000.0));
    }
    for n in [1_000_000u64, 1_049_999, 1_250_000, 1_350_000, 18_446_744_073_709_551_615] {
        assert_eq!(format_tokens(n), format!("{:.1}M", n as f64 / 1_000_000.0));
    }
}

#[test]
fn test_compute_stats_empty() {
    let stats = compute_stats("7d", &Vec::new(), Some("nonexistent-agent-xyz"));
    assert_eq!(stats.total_tasks, 0);
    assert_eq!(stats.total_cost_nanos, 0);
    assert!(stats.by_agent.is_empty());
}

fn log(parent: Option<&str>, cost_nanos: u64, input: u64, output: u64, tools: u32) -> TaskLog {
    TaskLog {
        ts: "2026-04-24T10:00:00Z".to_string(),
        source: "test".to_string(),
        turns: 1,
        cost_nanos,
        duration_ms: 1_000,
        status: "ok".to_string(),
        task: "t".to_string(),
        error: None,
        msg_id: "m".to_string(),
        github_repo: None,
        github_pr: None,
        input_tokens: Some(input),
        output_tokens: Some(output),
        cache_creation_input_tokens: None,
        cache_read_input_tokens: None,
        session_count: Some(1),
        tool_use_count: Some(tools),
        parent_agent: parent.map(str::to_string),
    }
}

#[test]
fn test_subagent_attribution_logic() {
    let mut by_agent: TextMap<AgentStats> = TextMap::new();
    let entry = TaskLog {
        turns: 3,
        cost_nanos: 100_000_000,
        duration_ms: 5_000,
        cache_creation_input_tokens: Some(50),
        cache_read_input_tokens: Some(800),
        ..log(Some("kira"), 0, 1_000, 200, 4)
    };

    attribute_entry(&mut by_agent, "kira-helper", &entry);
    attribute_entry(&mut by_agent, "kira", &entry);

    let helper = by_agent.get("kira-helper").unwrap();
    let parent = by_agent.get("kira").unwrap();

    assert_eq!(helper.tasks, 1);
    assert_eq!(parent.tasks, 1);
    assert_eq!(helper.cost_nanos, 100_000_000);
    assert_eq!(parent.cost_nanos, 100_000_000);
    assert_eq!(helper.tool_calls, 4);
    assert_eq!(parent.tool_calls, 4);
    assert_eq!(helper.sessions, 1);
    assert_eq!(parent.sessions, 1);
    assert_eq!(helper.input_tokens, 1_000);
    assert_eq!(parent.input_tokens, 1_000);
}

#[test]
fn test_compute_stats_attributes_subagent_to_parent() {
    let entries = vec![
        AgentEntry { agent: "p1".into(), log: log(None, 1_000_000_000, 1_000, 100, 2) },
        AgentEntry { agent: "p1-sub".into(), log: log(Some("p1"), 500_000_000, 500, 50, 3) },
    ];
    let stats = compute_stats("all", &entries, None);

    assert_eq!(stats.total_tasks, 2, "raw entries summed once");
    assert_eq!(stats.total_cost_nanos, 1_500_000_000);
    assert_eq!(stats.total_tool_calls, 5);
    assert_eq!(stats.total_sessions, 2);

    let sub = stats
        .by_agent
        .iter()
        .find(|a| a.agent == "p1-sub")
        .expect("sub-agent bucket present");
    assert_eq!(sub.tasks, 1);
    assert_eq!(sub.cost_nanos, 500_000_000);
    assert_eq!(sub.tool_calls, 3);

    let parent = stats
        .by_agent
        .iter()
        .find(|a| a.agent == "p1")
        .expect("parent bucket present");
    assert_eq!(parent.tasks, 2);
    assert_eq!(parent.cost_nanos, 1_500_000_000);
    assert_eq!(parent.tool_calls, 5);
    assert_eq!(parent.avg_tokens_per_task, 825);
    assert_eq!(stats.by_agent[0].agent, "p1");
    assert_eq!(attribute_entries(&entries).len(), 2);
}

#[test]
fn agents_with_logs_are_sorted() {
    let entry = |name: &str, is_dir: bool, has_task_log: bool| LogDirEntry {
        name: name.into(),
        is_dir,
        has_task_log,
    };
    let found = discover_agents(&vec![
        entry("zoe", true, true),
        entry("notes.txt", false, true),
        entry("ann", true, true),
        entry("empty", true, false),
        entry("Ann", true, true),
    ]);
    assert_eq!(found, vec!["Ann", "ann", "zoe"]);
}

#[test]
fn the_table_has_its_columns() {
    let entries = vec![
        AgentEntry { agent: "p1".into(), log: log(None, 1_000_000_000, 1_500, 100, 2) },
        AgentEntry { agent: "p1".into(), log: log(None, 500_000_000, 500, 50, 3) },
    ];
    let stats = compute_stats("all", &entries, None);
    assert_eq!(table_title("7d"), "Token Usage (7d)");
    assert_eq!(table_rule(), "─".repeat(95));
    assert_eq!(
        table_head(),
        format!(
            "{:<20} {:>5}  {:>4}  {:>5}  {:>7}  {:>8}  {:>8}  {:>9}",
            "Agent", "Tasks", "Sess", "Tools", "Cost", "Input", "Output", "Duration"
        )
    );
    assert_eq!(
        agent_row(&stats.by_agent[0], "1.50", "2s"),
        format!(
            "{:<20} {:>5}  {:>4}  {:>5}  ${:>6.2}  {:>8}  {:>8}  {:>9}",
            "p1", 2, 2, 5, 1.5, "2.0K", "150", "2s"
        )
    );
    assert_eq!(
        total_row(&stats, "1.50", "2s"),
        format!(
            "{:<20} {:>5}  {:>4}  {:>5}  ${:>6.2}  {:>8}  {:>8}  {:>9}",
            "TOTAL", 2, 2, 5, 1.5, "2.0K", "150", "2s"
        )
    );
    assert_eq!(
        averages_line(&stats, "0.75").unwrap(),
        "Avg per task: 1.0K input, 75 output, $0.75"
    );
    assert!(averages_line(&compute_stats("all", &vec![], None), "0.00").is_none());
}

#[test]
fn only_the_tokens_of_one_agent_are_added_up() {
    let entries = vec![
        AgentEntry { agent: "a".into(), log: log(None, 1, u64::MAX - 1, 1, 0) },
        AgentEntry { agent: "b".into(), log: log(None, 2, 1, u64::MAX - 1, 0) },
    ];
    assert!(can_compute_stats(&entries));
    let stats = compute_stats("all", &entries, None);
    assert_eq!(stats.total_input_tokens, u64::MAX);
    assert_eq!(stats.total_output_tokens, u64::MAX);
    assert_eq!(stats.by_agent[0].agent, "b");
    assert_eq!(stats.by_agent[0].avg_tokens_per_task, u64::MAX);
    assert_eq!(stats.by_agent[1].avg_tokens_per_task, u64::MAX);

    let too_many = vec![AgentEntry { agent: "a".into(), log: log(None, 1, u64::MAX, 1, 0) }];
    assert!(!can_compute_stats(&too_many));
    let too_many = vec![
        AgentEntry { agent: "a".into(), log: log(None, 1, u64::MAX, 0, 0) },
        AgentEntry { agent: "b".into(), log: log(None, 1, 1, 0, 0) },
    ];
    assert!(!can_compute_stats(&too_many));
    let delegated = vec![
        AgentEntry { agent: "a".into(), log: log(Some("p"), 1, u64::MAX, 0, 0) },
        AgentEntry { agent: "b".into(), log: log(Some("p"), 1, 0, 1, 0) },
    ];
    assert!(!can_compute_stats(&delegated));
}

#[test]
fn a_filter_narrows_the_totals() {
    let entries = vec![
        AgentEntry { agent: "a".into(), log: log(None, 1_000_000_000, 1_000, 100, 2) },
        AgentEntry { agent: "a-sub".into(), log: log(Some("a"), 500_000_000, 500, 50, 3) },
        AgentEntry { agent: "b".into(), log: log(None, 7, 70, 7, 1) },
        AgentEntry { agent: "a".into(), log: log(Some("a"), 3, 30, 3, 1) },
    ];
    let none = compute_stats("7d", &entries, Some("nonexistent-agent-xyz"));
    assert_eq!(none.total_tasks, 0);
    assert_eq!(none.total_cost_nanos, 0);
    assert_eq!(none.total_input_tokens, 0);
    assert!(none.by_agent.is_empty());
    let a = compute_stats("7d", &entries, Some("a"));
    assert_eq!(a.total_tasks, 3);
    assert_eq!(a.total_cost_nanos, 1_500_000_003);
    assert_eq!(a.total_input_tokens, 1_530);
    assert_eq!(a.total_tool_calls, 6);
    assert_eq!(a.by_agent.len(), 1);
    assert_eq!(a.by_agent[0].tasks, 3);
    assert_eq!(compute_stats("7d", &entries, Some("a-sub")).total_tasks, 1);
    assert_eq!(compute_stats("7d", &entries, None).total_tasks, 4);
}

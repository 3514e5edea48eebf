use deskd::app::clock::{parse_instant, Instant};
use deskd::app::doctor::{
    diagnose, fmt_secs, is_empty_completion, is_good_completion, last_good_ts,
    trailing_empty_count, DoctorInputs, DoctorThresholds, Verdict,
};
use deskd::app::tasklog::TaskLog;

fn entry(ts: &str, output_tokens: u64, duration_ms: u64, cost_nanos: u64) -> TaskLog {
    TaskLog {
        ts: ts.to_string(),
        source: "test".into(),
        turns: 1,
        cost_nanos,
        duration_ms,
        status: "ok".into(),
        task: "t".into(),
        error: None,
        msg_id: "m".into(),
        github_repo: None,
        github_pr: None,
        input_tokens: Some(100),
        output_tokens: Some(output_tokens),
        cache_creation_input_tokens: None,
        cache_read_input_tokens: None,
        session_count: None,
        tool_use_count: None,
        parent_agent: None,
    }
}

const TEN_CENTS: u64 = 100_000_000;

fn now() -> Instant {
    parse_instant("2026-04-28T12:00:00Z").unwrap()
}

fn minutes_ago(minutes: i64) -> chrono::DateTime<chrono::Utc> {
    chrono::DateTime::from_timestamp(now().secs - minutes * 60, 0).unwrap()
}

#[test]
fn empty_completion_detection() {
    assert!(is_empty_completion(&entry("2026-04-28T11:00:00Z", 0, 500, 0)));
    assert!(!is_empty_completion(&entry("2026-04-28T11:00:00Z", 500, 500, TEN_CENTS)));
    assert!(!is_empty_completion(&entry("2026-04-28T11:00:00Z", 0, 5_000, 0)));
}

#[test]
fn trailing_count_only_tail() {
    let tasks = vec![
        entry("2026-04-28T08:00:00Z", 500, 5000, TEN_CENTS),
        entry("2026-04-28T09:00:00Z", 0, 500, 0),
        entry("2026-04-28T10:00:00Z", 0, 500, 0),
        entry("2026-04-28T11:00:00Z", 0, 500, 0),
    ];
    assert_eq!(trailing_empty_count(&tasks), 3);
}

#[test]
fn trailing_count_resets_on_good() {
    let tasks = vec![
        entry("2026-04-28T08:00:00Z", 0, 500, 0),
        entry("2026-04-28T09:00:00Z", 0, 500, 0),
        entry("2026-04-28T10:00:00Z", 500, 5000, TEN_CENTS),
    ];
    assert_eq!(trailing_empty_count(&tasks), 0);
}

#[test]
fn verdict_hung_when_pid_alive_and_n_empty() {
    let tasks = vec![
        entry("2026-04-28T08:00:00Z", 500, 5000, TEN_CENTS),
        entry("2026-04-28T09:00:00Z", 0, 500, 0),
        entry("2026-04-28T10:00:00Z", 0, 500, 0),
        entry("2026-04-28T11:00:00Z", 0, 500, 0),
    ];
    let input = DoctorInputs {
        agent_name: "life",
        state_pid: 4242,
        process_alive: true,
        recent_tasks: &tasks,
        latest_inbox_ts: None,
        now: now(),
    };
    let v = diagnose(&input, &DoctorThresholds::default());
    assert!(matches!(v, Verdict::Hung { empty_count: 3, .. }));
    assert_eq!(v.label(), "hung");
    assert_eq!(v.recommended_action("life").unwrap(), "deskd agent restart life");
}

#[test]
fn verdict_dead_when_pid_set_but_process_gone() {
    let input = DoctorInputs {
        agent_name: "life",
        state_pid: 9999,
        process_alive: false,
        recent_tasks: &[],
        latest_inbox_ts: None,
        now: now(),
    };
    let v = diagnose(&input, &DoctorThresholds::default());
    assert_eq!(v, Verdict::Dead { pid: 9999 });
    assert!(v.recommended_action("life").is_some());
}

#[test]
fn verdict_stuck_when_inbox_grew_without_completion() {
    let inbox = minutes_ago(10);
    let tasks = vec![entry("2026-04-28T10:00:00Z", 500, 5000, TEN_CENTS)];
    let input = DoctorInputs {
        agent_name: "papers",
        state_pid: 4242,
        process_alive: true,
        recent_tasks: &tasks,
        latest_inbox_ts: Some(Instant { secs: inbox.timestamp(), nanos: 0 }),
        now: now(),
    };
    let v = diagnose(&input, &DoctorThresholds::default());
    assert!(matches!(v, Verdict::Stuck { queued_minutes } if queued_minutes >= 10));
}

#[test]
fn verdict_idle_when_last_good_old_but_no_problem() {
    let tasks = vec![entry("2026-04-28T08:00:00Z", 500, 5000, TEN_CENTS)];
    let input = DoctorInputs {
        agent_name: "papers",
        state_pid: 4242,
        process_alive: true,
        recent_tasks: &tasks,
        latest_inbox_ts: None,
        now: now(),
    };
    let v = diagnose(&input, &DoctorThresholds::default());
    assert!(matches!(v, Verdict::Idle { .. }));
}

#[test]
fn verdict_healthy_when_recent_good_completion() {
    let recent_ts = minutes_ago(5).to_rfc3339();
    let tasks = vec![entry(&recent_ts, 500, 5000, TEN_CENTS)];
    let input = DoctorInputs {
        agent_name: "dev",
        state_pid: 4242,
        process_alive: true,
        recent_tasks: &tasks,
        latest_inbox_ts: None,
        now: now(),
    };
    let v = diagnose(&input, &DoctorThresholds::default());
    assert!(matches!(v, Verdict::Healthy { .. }));
    assert!(v.recommended_action("dev").is_none());
}

#[test]
fn verdict_healthy_when_no_history_and_no_signals() {
    let input = DoctorInputs {
        agent_name: "fresh",
        state_pid: 0,
        process_alive: false,
        recent_tasks: &[],
        latest_inbox_ts: None,
        now: now(),
    };
    let v = diagnose(&input, &DoctorThresholds::default());
    assert!(matches!(v, Verdict::Healthy { .. }));
}

#[test]
fn dead_takes_precedence_over_hung() {
    let tasks = vec![
        entry("2026-04-28T09:00:00Z", 0, 500, 0),
        entry("2026-04-28T10:00:00Z", 0, 500, 0),
        entry("2026-04-28T11:00:00Z", 0, 500, 0),
    ];
    let input = DoctorInputs {
        agent_name: "ghost",
        state_pid: 4242,
        process_alive: false,
        recent_tasks: &tasks,
        latest_inbox_ts: None,
        now: now(),
    };
    let v = diagnose(&input, &DoctorThresholds::default());
    assert!(matches!(v, Verdict::Dead { .. }));
}

#[test]
fn stuck_only_when_completion_didnt_land_after_queue() {
    let inbox = minutes_ago(10);
    let recent_completion = minutes_ago(2).to_rfc3339();
    let tasks = vec![entry(&recent_completion, 500, 5000, TEN_CENTS)];
    let input = DoctorInputs {
        agent_name: "dev",
        state_pid: 4242,
        process_alive: true,
        recent_tasks: &tasks,
        latest_inbox_ts: Some(Instant { secs: inbox.timestamp(), nanos: 0 }),
        now: now(),
    };
    let v = diagnose(&input, &DoctorThresholds::default());
    assert!(matches!(v, Verdict::Healthy { .. }));
}

#[test]
fn fmt_secs_buckets() {
    assert_eq!(fmt_secs(-1), "now");
    assert_eq!(fmt_secs(45), "45s");
    assert_eq!(fmt_secs(120), "2m");
    assert_eq!(fmt_secs(3 * 3600 + 120), "3h");
    assert_eq!(fmt_secs(2 * 86400), "2d");
}

#[test]
fn glyph_and_label_match_problem_flag() {
    assert!(Verdict::Hung { empty_count: 3, last_good_age_secs: None }.is_problem());
    assert!(Verdict::Dead { pid: 1 }.is_problem());
    assert!(Verdict::Stuck { queued_minutes: 6 }.is_problem());
    assert!(!Verdict::Idle { last_good_age_secs: 9000 }.is_problem());
    assert!(!Verdict::Healthy { last_good_age_secs: Some(60) }.is_problem());
    assert_eq!(Verdict::Dead { pid: 1 }.glyph(), "🔴");
    assert_eq!(Verdict::Idle { last_good_age_secs: 9000 }.glyph(), "🟡");
}

#[test]
fn times_of_good_completions() {
    let tasks = vec![
        entry("2026-04-28T08:00:00Z", 500, 5000, TEN_CENTS),
        entry("2026-04-28T09:00:00Z", 0, 500, 0),
    ];
    assert!(is_good_completion(&tasks[0]));
    assert!(!is_good_completion(&tasks[1]));
    assert_eq!(last_good_ts(&tasks), parse_instant("2026-04-28T08:00:00Z"));
    assert!(parse_instant("yesterday").is_none());
    assert_eq!(parse_instant("1970-01-01T01:00:00.5+01:00"), Some(Instant { secs: 0, nanos: 500_000_000 }));
}

#[test]
fn a_short_task_that_cost_something_is_good() {
    let paid = entry("2026-04-28T11:00:00Z", 0, 500, TEN_CENTS);
    assert!(is_empty_completion(&paid) && is_good_completion(&paid));
    assert_eq!(trailing_empty_count(&[paid.clone()]), 0);
    let free = || entry("2026-04-28T11:00:00Z", 0, 500, 0);
    let tasks = vec![free(), free(), free(), paid.clone()];
    assert_eq!(trailing_empty_count(&tasks), 0);
    let input = DoctorInputs {
        agent_name: "life",
        state_pid: 4242,
        process_alive: true,
        recent_tasks: &tasks,
        latest_inbox_ts: None,
        now: now(),
    };
    assert!(!matches!(diagnose(&input, &DoctorThresholds::default()), Verdict::Hung { .. }));
    // Only the most recent entry resets the count.
    assert_eq!(trailing_empty_count(&[paid, free()]), 2);
    assert_eq!(trailing_empty_count(&[]), 0);
}

use deskd::app::agent_components::{AgentComponents, StartStep, StopStep};
use deskd::app::clock::Instant;
use deskd::app::config_reload::{
    component_starts, reload_action, reload_step, inherited, start_for, stop_for, sub_agent_config,
    ConfigChangeset, FileWatch, ParentDef, ReloadAction, ReloadStep,
};
use deskd::app::config_watcher::{PromptWatch, WatchFailure};
use deskd::infra::agent_file::SubAgentDef;
use deskd::json::render_json;

#[test]
fn test_agent_components_summary() {
    let components = AgentComponents {
        adapter_handles: Vec::new(),
        adapter_cancel_tokens: Vec::new(),
        schedule_watcher: None,
        config_watcher: None,
        reminder_runner: None,
        sub_agent_handles: Vec::new(),
    };
    assert_eq!(components.summary(), "adapters=0, schedules=0, sub_agents=0");
}

#[test]
fn test_agent_components_abort_all_empty() {
    let mut components = AgentComponents::new();
    let steps = components.abort_all();
    assert!(steps.is_empty());
    assert!(components.adapter_handles.is_empty());
    assert!(components.adapter_cancel_tokens.is_empty());
    assert!(components.schedule_watcher.is_none());
    assert!(components.sub_agent_handles.is_empty());
}

#[test]
fn test_adapter_cancel_token_fires_on_abort_adapters() {
    let mut components = AgentComponents::new();
    components.add_adapter(1, 10);
    let steps = components.abort_adapters();
    assert_eq!(steps, vec![StopStep::Cancel(10), StopStep::Grace, StopStep::Abort(1)]);
    assert!(components.adapter_handles.is_empty());
    assert!(components.adapter_cancel_tokens.is_empty());
}

fn running() -> AgentComponents {
    let mut c = AgentComponents::new();
    c.add_adapter(1, 10);
    c.add_adapter(2, 20);
    c.schedule_watcher = Some(3);
    c.config_watcher = Some(4);
    c.reminder_runner = Some(5);
    c.sub_agent_handles.push(6);
    c
}

#[test]
fn everything_is_stopped_in_order() {
    let mut c = running();
    assert_eq!(c.summary(), "adapters=2, schedules=1, sub_agents=1");
    assert_eq!(
        c.abort_all(),
        vec![
            StopStep::Cancel(10),
            StopStep::Cancel(20),
            StopStep::Grace,
            StopStep::Abort(1),
            StopStep::Abort(2),
            StopStep::Abort(3),
            StopStep::Abort(4),
            StopStep::Abort(5),
            StopStep::Abort(6),
        ]
    );
    assert_eq!(running().abort_sub_agents(), vec![StopStep::Abort(6)]);
}

fn change(adapters: bool, schedules: bool, subs: bool, prompt: bool) -> ConfigChangeset {
    ConfigChangeset {
        adapters_changed: adapters,
        schedules_changed: schedules,
        sub_agents_changed: subs,
        system_prompt_only: prompt,
    }
}

#[test]
fn changes_restart_what_they_concern() {
    assert_eq!(reload_action(&change(true, true, true, true)), ReloadAction::PromptOnly);
    assert_eq!(reload_action(&change(false, false, false, false)), ReloadAction::NoRestart);
    assert_eq!(reload_action(&change(true, false, false, false)), ReloadAction::Adapters);
    assert_eq!(reload_action(&change(false, true, false, false)), ReloadAction::Schedules);
    assert_eq!(reload_action(&change(true, true, false, false)), ReloadAction::Everything);
    assert_eq!(reload_action(&change(false, false, true, false)), ReloadAction::Everything);
}

#[test]
fn a_schedule_change_keeps_the_adapters() {
    let mut c = running();
    let steps = stop_for(ReloadAction::Schedules, &mut c);
    assert_eq!(steps, vec![StopStep::Abort(3), StopStep::Abort(5)]);
    assert_eq!(c.adapter_handles, vec![1, 2]);
    assert_eq!(c.config_watcher, Some(4));
    assert!(stop_for(ReloadAction::PromptOnly, &mut c).is_empty());
    assert_eq!(stop_for(ReloadAction::Adapters, &mut c).len(), 5);
    assert_eq!(c.sub_agent_handles, vec![6]);
}

#[test]
fn a_changed_file_is_seen_once() {
    let t1 = Some(Instant { secs: 1, nanos: 0 });
    let t2 = Some(Instant { secs: 1, nanos: 5 });
    let mut w = FileWatch::new(t1);
    assert!(!w.tick(t1));
    assert!(w.tick(t2));
    assert!(!w.tick(t2));
    assert!(w.tick(None));
    assert!(!w.tick(None));
    assert_eq!(reload_step(false, None), ReloadStep::KeepOld);
    assert_eq!(reload_step(true, None), ReloadStep::Act(ReloadAction::Everything));
    assert_eq!(
        reload_step(true, Some(change(true, false, false, false))),
        ReloadStep::Act(ReloadAction::Adapters)
    );
}

#[test]
fn sub_agents_are_set_up_from_their_agent() {
    let parent = ParentDef {
        work_dir: "/w".into(),
        unix_user: Some("u".into()),
        max_turns: 12,
        auto_compact_threshold_tokens: Some(7),
    };
    let sub = SubAgentDef {
        name: "s".into(),
        model: "m".into(),
        system_prompt: "p".into(),
        subscribe: vec![],
    };
    let cfg = sub_agent_config("runner", &parent, &sub, None, "/c.yaml");
    assert_eq!(cfg.name, "s");
    assert_eq!(cfg.work_dir, "/w");
    assert_eq!(cfg.auto_compact_threshold_tokens, Some(7));
    assert_eq!(cfg.command.len(), 11);
    assert_eq!(cfg.command[8], "12");
    assert_eq!(
        cfg.command[10],
        r#"{"mcpServers":{"deskd":{"args":["mcp","--agent","s"],"command":"deskd"}}}"#
    );
    assert_eq!(sub_agent_config("runner", &parent, &sub, Some(9), "/c").auto_compact_threshold_tokens, Some(9));
}

#[test]
fn a_new_prompt_is_due_until_delivered() {
    let mut w = PromptWatch::new(Some("old"));
    assert!(w.update_for("old", "dev").is_none());
    let u = w.update_for("new", "dev").unwrap();
    assert_eq!(u.target, "agent:dev");
    assert_eq!(
        u.task,
        "Your system prompt has been updated. New instructions:\n\nnew\n\nAcknowledge the update."
    );
    assert!(w.update_for("new", "dev").is_some());
    w.delivered(&u);
    assert!(w.update_for("new", "dev").is_none());
    assert!(PromptWatch::new(None).update_for("", "dev").is_none());
}

#[test]
fn failures_of_the_prompt_watcher() {
    let f = WatchFailure::Load { config_path: "/c".into() };
    assert_eq!(f.kind(), "config.load_failed");
    assert_eq!(f.message("dev", "gone"), "failed to load initial config for agent dev: gone");
    assert_eq!(render_json(&f.details("dev")), r#"{"agent":"dev","config_path":"/c"}"#);
    let f = WatchFailure::Send { target: "agent:dev".into() };
    assert_eq!(f.kind(), "transport.bus_send_failed");
    assert_eq!(f.message("dev", "x"), "failed to send prompt update message to agent dev: x");
    assert_eq!(render_json(&f.details("dev")), r#"{"agent":"dev","target":"agent:dev"}"#);
    assert_eq!(WatchFailure::StateSave.kind(), "config.state_save_failed");
    assert_eq!(WatchFailure::StateLoad.message("d", "e"), "failed to load agent state for d: e");
    let f = WatchFailure::Reload { config_path: "/c".into() };
    assert_eq!(f.kind(), "config.reload_failed");
    assert_eq!(render_json(&WatchFailure::StateLoad.details("d")), r#"{"agent":"d"}"#);
}

#[test]
fn what_is_stopped_is_started_again() {
    assert!(start_for(ReloadAction::PromptOnly, 3).is_empty());
    assert!(start_for(ReloadAction::NoRestart, 3).is_empty());
    assert_eq!(start_for(ReloadAction::Adapters, 3), vec![StartStep::Adapters]);
    assert_eq!(
        start_for(ReloadAction::Schedules, 3),
        vec![StartStep::ScheduleWatcher, StartStep::ReminderRunner]
    );
    let all = start_for(ReloadAction::Everything, 2);
    assert_eq!(all, component_starts(2));
    assert_eq!(all.len(), 6);
    assert_eq!(all[5], StartStep::SubAgent(1));
    let mut c = AgentComponents::new();
    for (i, step) in all.iter().enumerate() {
        c.started(*step, i as u64);
    }
    assert_eq!(c.summary(), "adapters=0, schedules=1, sub_agents=2");
    assert_eq!(c.schedule_watcher, Some(1));
    assert_eq!(c.config_watcher, Some(2));
    assert_eq!(c.reminder_runner, Some(3));
    assert_eq!(c.sub_agent_handles, vec![4, 5]);
}

#[test]
fn own_settings_go_first() {
    assert_eq!(inherited(Some("own"), Some("parent")), Some("own"));
    assert_eq!(inherited(Some("own"), None), Some("own"));
    assert_eq!(inherited(None, Some("parent")), Some("parent"));
    assert_eq!(inherited::<u64>(None, None), None);
}

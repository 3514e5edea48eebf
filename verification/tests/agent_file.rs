use deskd::infra::agent_file::{
    agent_file_names, default_agent_name, load_agent_text, parse_agent, split_frontmatter,
    AgentFileError, ScheduleAction,
};
use deskd::infra::paths::{
    agent_bus_socket, chown_args, context_log_path_in, default_key_path_in, is_within, log_dir_in, path_join,
    reminders_dir_in, secret_path_in, state_dir_in,
};

#[test]
fn split_frontmatter_basic() {
    let doc = "---\nname: foo\n---\nbody text\n";
    let (fm, body) = split_frontmatter(doc).unwrap();
    assert_eq!(fm, "name: foo\n");
    assert_eq!(body, "body text\n");
}

#[test]
fn split_frontmatter_crlf() {
    let doc = "---\r\nname: foo\r\n---\r\nbody\r\n";
    let (fm, body) = split_frontmatter(doc).unwrap();
    assert_eq!(fm, "name: foo\r\n");
    assert_eq!(body, "body\r\n");
}

#[test]
fn split_frontmatter_empty_body() {
    let doc = "---\nname: foo\n---\n";
    let (fm, body) = split_frontmatter(doc).unwrap();
    assert_eq!(fm, "name: foo\n");
    assert_eq!(body, "");
}

#[test]
fn split_frontmatter_missing_open() {
    let err = split_frontmatter("name: foo\n---\nbody").unwrap_err();
    assert!(err.message().contains("must start with '---'"));
}

#[test]
fn split_frontmatter_missing_close() {
    let err = split_frontmatter("---\nname: foo\nno close\n").unwrap_err();
    assert!(err.message().contains("missing a closing"));
}

#[test]
fn split_frontmatter_strips_bom() {
    let doc = "\u{feff}---\nname: foo\n---\nbody\n";
    let (fm, body) = split_frontmatter(doc).unwrap();
    assert_eq!(fm, "name: foo\n");
    assert_eq!(body, "body\n");
}

#[test]
fn parse_minimal_agent() {
    let fm = "model: runner-sonnet-4-6\n";
    let body = "You are blog.\n";
    let loaded = parse_agent(fm, body, "blog").unwrap();
    assert_eq!(loaded.agent.name, "blog");
    assert_eq!(loaded.agent.model, "runner-sonnet-4-6");
    assert_eq!(loaded.agent.subscribe, vec!["agent:blog".to_string()]);
    assert_eq!(loaded.agent.system_prompt, "You are blog.");
    assert!(loaded.schedules.is_empty());
}

#[test]
fn frontmatter_name_overrides_filename() {
    let fm = "name: explicit\nmodel: runner-sonnet-4-6\n";
    let loaded = parse_agent(fm, "", "from-filename").unwrap();
    assert_eq!(loaded.agent.name, "explicit");
}

#[test]
fn jobs_become_schedules() {
    let fm = r#"
model: runner-sonnet-4-6
jobs:
  - cron: "0 30 8 * * *"
    prompt: "Morning check-in"
  - cron: "0 0 12 * * 5"
    prompt: "Weekly review"
    timezone: "Europe/Berlin"
"#;
    let loaded = parse_agent(fm, "", "blog").unwrap();
    assert_eq!(loaded.schedules.len(), 2);
    assert_eq!(loaded.schedules[0].cron, "0 30 8 * * *");
    assert_eq!(loaded.schedules[0].target, "agent:blog");
    assert!(matches!(loaded.schedules[0].action, ScheduleAction::Raw));
    assert_eq!(
        loaded.schedules[0].config.as_ref().and_then(|c| c.as_str()),
        Some("Morning check-in")
    );
    assert!(loaded.schedules[0].timezone.is_none());
    assert_eq!(loaded.schedules[1].timezone.as_deref(), Some("Europe/Berlin"));
}

#[test]
fn body_overrides_frontmatter_system_prompt() {
    let fm = "model: runner-sonnet-4-6\nsystem_prompt: \"old\"\n";
    let body = "new prompt from body\n";
    let loaded = parse_agent(fm, body, "blog").unwrap();
    assert_eq!(loaded.agent.system_prompt, "new prompt from body");
}

#[test]
fn explicit_subscribe_preserved() {
    let fm = r#"
model: runner-sonnet-4-6
subscribe:
  - "telegram.in:*"
  - "agent:blog"
"#;
    let loaded = parse_agent(fm, "", "blog").unwrap();
    assert_eq!(
        loaded.agent.subscribe,
        vec!["telegram.in:*".to_string(), "agent:blog".to_string()]
    );
}

#[test]
fn empty_frontmatter_uses_filename_and_defaults() {
    let err = parse_agent("", "body", "blog").err().unwrap();
    assert!(
        err.message().contains("SubAgentDef")
            || err.message().contains("missing field")
            || err.message().contains("model")
    );
}

#[test]
fn load_agent_dir_picks_up_files_sorted() {
    let names: Vec<String> = ["zeta.agent.md", "README.md", "alpha.agent.md", "mid.agent.md"]
        .iter()
        .map(|s| s.to_string())
        .collect();
    let picked = agent_file_names(&names);
    let loaded: Vec<String> = picked
        .iter()
        .map(|n| {
            let content = format!("---\nmodel: runner-sonnet-4-6\n---\nbody for {}", n);
            load_agent_text(n, &content).unwrap().agent.name
        })
        .collect();
    assert_eq!(loaded, vec!["alpha", "mid", "zeta"]);
}

#[test]
fn load_agent_file_uses_filename_stem_for_name() {
    let loaded = load_agent_text(
        "blog.agent.md",
        "---\nmodel: runner-sonnet-4-6\n---\nYou are blog.\n",
    )
    .unwrap();
    assert_eq!(loaded.agent.name, "blog");
}

#[test]
fn files_that_are_refused() {
    assert_eq!(split_frontmatter("").unwrap_err(), AgentFileError::Empty);
    assert_eq!(split_frontmatter("x").unwrap_err(), AgentFileError::MissingOpen);
    assert_eq!(split_frontmatter("---\nx\n").unwrap_err(), AgentFileError::MissingClose);
    let refused = |frontmatter: &str, name: &str| parse_agent(frontmatter, "", name).err();
    assert_eq!(refused("a: [", "x"), Some(AgentFileError::Yaml));
    assert_eq!(refused("- a\n- b\n", "x"), Some(AgentFileError::NotMapping));
    assert_eq!(refused("model: m\njobs: 3\n", "x"), Some(AgentFileError::Jobs));
    assert_eq!(refused("model: m\njobs:\n  - cron: c\n", "x"), Some(AgentFileError::Jobs));
    assert_eq!(refused("model: m\n", ""), Some(AgentFileError::NoName));
    assert_eq!(refused("name: [1]\nmodel: m\n", "x"), Some(AgentFileError::NameNotString));
    assert_eq!(refused("", "x"), Some(AgentFileError::Schema));
    assert_eq!(default_agent_name("blog.agent.md"), "blog");
}

#[test]
fn paths_below_a_home() {
    assert_eq!(agent_bus_socket("/w"), "/w/.deskd/bus.sock");
    assert_eq!(agent_bus_socket("/w/"), "/w/.deskd/bus.sock");
    assert_eq!(state_dir_in("/h"), "/h/.deskd/agents");
    assert_eq!(log_dir_in("/h"), "/h/.deskd/logs");
    assert_eq!(reminders_dir_in("/h"), "/h/.deskd/reminders");
    assert_eq!(secret_path_in("/h"), "/h/.deskd/web-secret");
    assert_eq!(default_key_path_in("/h"), "/h/.deskd/a2a_key.pem");
    assert_eq!(context_log_path_in("/h", "a"), "/h/.deskd/logs/a/context.jsonl");
    assert_eq!(path_join("/a", "/b"), "/b");
    assert_eq!(chown_args("/d", "kira"), vec!["-R", "kira:kira", "/d"]);
    assert!(is_within("/a/./b//c", "/a/b"));
    assert!(!is_within("/ab", "/a"));
}

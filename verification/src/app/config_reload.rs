//! Hot reload: which components are restarted when the configuration changes, and how
//! sub-agents are set up.

use crate::app::agent::AgentConfig;
use crate::app::agent_components::AgentComponents;
use crate::app::agent_components::ComponentsView;
use crate::app::agent_components::StartStep;
use crate::app::agent_components::StopStep;
use crate::app::agent_components::abort_one;
use crate::app::agent_components::adapter_steps;
use crate::app::agent_components::all_steps;
use crate::app::agent_components::cancels;
use crate::app::agent_components::ends;
use crate::app::agent_components::law_abort_all_ends_all;
use crate::app::agent_components::no_components;
use crate::app::agent_components::runs;
use crate::app::agent_components::schedule_steps;
use crate::app::agent_components::with_all_started;
use crate::app::clock::Instant;
use crate::infra::agent_file::SubAgentDef;
use crate::json::JsonView;
use crate::json::ObjectBuilder;
use crate::json::json_rendered;
use crate::json::json_texts;
use crate::json::lemma_object_member;
use crate::json::member2;
use crate::json::member;
use crate::json::object;
use crate::json::render_json;
use crate::json::text_array;
use crate::text::decimal;
use crate::text::format_u64;
use crate::text::opt_text;
use crate::text::texts;
use vstd::prelude::*;

verus! {

/// What differs between two configurations.
#[derive(Debug, Clone, Copy, PartialEq, Eq, Structural)]
pub struct ConfigChangeset {
    pub adapters_changed: bool,
    pub schedules_changed: bool,
    pub sub_agents_changed: bool,
    pub system_prompt_only: bool,
}

/// What is restarted.
#[derive(Debug, Clone, Copy, PartialEq, Eq, Structural)]
pub enum ReloadAction {
    /// Nothing: the prompt alone changed, which goes to the session as a message.
    PromptOnly,
    /// Nothing: no restartable component is concerned.
    NoRestart,
    /// The adapters.
    Adapters,
    /// The schedules and reminders.
    Schedules,
    /// Everything.
    Everything,
}

/// What a change restarts: the least that covers it.
pub open spec fn action_for(c: ConfigChangeset) -> ReloadAction {
    if c.system_prompt_only {
        ReloadAction::PromptOnly
    } else if c.sub_agents_changed || (c.adapters_changed && c.schedules_changed) {
        ReloadAction::Everything
    } else if c.adapters_changed {
        ReloadAction::Adapters
    } else if c.schedules_changed {
        ReloadAction::Schedules
    } else {
        ReloadAction::NoRestart
    }
}

/// The change where no configuration was known before: everything.
pub open spec fn all_changed() -> ConfigChangeset {
    ConfigChangeset {
        adapters_changed: true,
        schedules_changed: true,
        sub_agents_changed: true,
        system_prompt_only: false,
    }
}

/// Decides what a change restarts.
pub fn reload_action(c: &ConfigChangeset) -> (r: ReloadAction)
    ensures
        r == action_for(*c),
{
    if c.system_prompt_only {
        return ReloadAction::PromptOnly;
    }
    if !c.adapters_changed && !c.schedules_changed && !c.sub_agents_changed {
        return ReloadAction::NoRestart;
    }
    if c.adapters_changed && !c.schedules_changed && !c.sub_agents_changed {
        return ReloadAction::Adapters;
    }
    if c.schedules_changed && !c.adapters_changed && !c.sub_agents_changed {
        return ReloadAction::Schedules;
    }
    ReloadAction::Everything
}

/// The steps that an action begins with, and the components that are left running.
pub open spec fn stops(a: ReloadAction, c: ComponentsView) -> (Seq<StopStep>, ComponentsView) {
    match a {
        ReloadAction::PromptOnly => (Seq::empty(), c),
        ReloadAction::NoRestart => (Seq::empty(), c),
        ReloadAction::Adapters => (
            adapter_steps(c),
            ComponentsView { adapters: Seq::empty(), tokens: Seq::empty(), ..c },
        ),
        ReloadAction::Schedules => (
            schedule_steps(c),
            ComponentsView { schedule_watcher: None, reminder_runner: None, ..c },
        ),
        ReloadAction::Everything => (all_steps(c), no_components()),
    }
}

/// Stops what the action restarts.
pub fn stop_for(action: ReloadAction, components: &mut AgentComponents) -> (r: Vec<StopStep>)
    ensures
        (r@, final(components)@) == stops(action, old(components)@),
{
    match action {
        ReloadAction::PromptOnly | ReloadAction::NoRestart => {
            let none: Vec<StopStep> = Vec::new();
            assert(none@ =~= Seq::<StopStep>::empty());
            none
        },
        ReloadAction::Adapters => components.abort_adapters(),
        ReloadAction::Schedules => components.abort_schedules(),
        ReloadAction::Everything => components.abort_all(),
    }
}

/// What starts all components of a configuration with that many sub-agents, in order.
pub open spec fn all_starts(sub_agents: nat) -> Seq<StartStep> {
    seq![
        StartStep::Adapters,
        StartStep::ScheduleWatcher,
        StartStep::ConfigWatcher,
        StartStep::ReminderRunner,
    ] + Seq::new(sub_agents, |i: int| StartStep::SubAgent(i as usize))
}

/// What an action starts, once it has stopped the old components.
pub open spec fn starts(a: ReloadAction, sub_agents: nat) -> Seq<StartStep> {
    match a {
        ReloadAction::PromptOnly => Seq::empty(),
        ReloadAction::NoRestart => Seq::empty(),
        ReloadAction::Adapters => seq![StartStep::Adapters],
        ReloadAction::Schedules => seq![StartStep::ScheduleWatcher, StartStep::ReminderRunner],
        ReloadAction::Everything => all_starts(sub_agents),
    }
}

/// What starts the components of an agent with that many sub-agents, in order.
pub fn component_starts(sub_agents: usize) -> (r: Vec<StartStep>)
    ensures
        r@ == all_starts(sub_agents as nat),
{
    let mut out: Vec<StartStep> = Vec::new();
    out.push(StartStep::Adapters);
    out.push(StartStep::ScheduleWatcher);
    out.push(StartStep::ConfigWatcher);
    out.push(StartStep::ReminderRunner);
    let mut i: usize = 0;
    assert(out@ =~= all_starts(0));
    while i < sub_agents
        invariant
            i <= sub_agents,
            out@ == all_starts(i as nat),
        decreases sub_agents - i,
    {
        out.push(StartStep::SubAgent(i));
        i += 1;
        assert(out@ =~= all_starts(i as nat));
    }
    out
}

/// What the action starts, where the new configuration has that many sub-agents.
pub fn start_for(action: ReloadAction, sub_agents: usize) -> (r: Vec<StartStep>)
    ensures
        r@ == starts(action, sub_agents as nat),
{
    let mut out: Vec<StartStep> = Vec::new();
    match action {
        ReloadAction::PromptOnly | ReloadAction::NoRestart => {},
        ReloadAction::Adapters => {
            out.push(StartStep::Adapters);
        },
        ReloadAction::Schedules => {
            out.push(StartStep::ScheduleWatcher);
            out.push(StartStep::ReminderRunner);
        },
        ReloadAction::Everything => {
            return component_starts(sub_agents);
        },
    }
    assert(out@ =~= starts(action, sub_agents as nat));
    out
}

proof fn lemma_sub_agents_started(
    c: ComponentsView,
    front: Seq<StartStep>,
    n: nat,
    handles: Seq<u64>,
)
    ensures
        with_all_started(
            c,
            front + Seq::new(n, |i: int| StartStep::SubAgent(i as usize)),
            handles,
        ) == (ComponentsView {
            sub_agents: with_all_started(c, front, handles).sub_agents + Seq::new(
                n,
                |i: int| handles[front.len() + i],
            ),
            ..with_all_started(c, front, handles)
        }),
    decreases n,
{
    let subs = Seq::new(n, |i: int| StartStep::SubAgent(i as usize));
    let base = with_all_started(c, front, handles);
    let tasks = Seq::new(n, |i: int| handles[front.len() + i]);
    if n == 0 {
        assert(front + subs =~= front);
        assert(base.sub_agents + tasks =~= base.sub_agents);
    } else {
        let m = (n - 1) as nat;
        lemma_sub_agents_started(c, front, m, handles);
        assert((front + subs).drop_last() =~= front + Seq::new(
            m,
            |i: int| StartStep::SubAgent(i as usize),
        ));
        assert(base.sub_agents + tasks =~= (base.sub_agents + Seq::new(
            m,
            |i: int| handles[front.len() + i],
        )).push(handles[front.len() + n - 1]));
    }
}

/// Once everything is started, the watchers and the reminder run, and the worker of each
/// sub-agent.
pub proof fn law_everything_runs(sub_agents: nat, handles: Seq<u64>)
    requires
        handles.len() == all_starts(sub_agents).len(),
    ensures
        ({
            let after = with_all_started(no_components(), all_starts(sub_agents), handles);
            &&& after.schedule_watcher == Some(handles[1])
            &&& after.config_watcher == Some(handles[2])
            &&& after.reminder_runner == Some(handles[3])
            &&& after.sub_agents == handles.skip(4)
        }),
{
    let front = seq![
        StartStep::Adapters,
        StartStep::ScheduleWatcher,
        StartStep::ConfigWatcher,
        StartStep::ReminderRunner,
    ];
    lemma_sub_agents_started(no_components(), front, sub_agents, handles);
    reveal_with_fuel(with_all_started, 5);
    let one = front.take(1);
    let two = front.take(2);
    let three = front.take(3);
    assert(front.drop_last() =~= three);
    assert(three.drop_last() =~= two);
    assert(two.drop_last() =~= one);
    assert(one.drop_last() =~= Seq::<StartStep>::empty());
    assert(with_all_started(no_components(), front, handles).sub_agents =~= Seq::<u64>::empty());
    assert(Seq::<u64>::empty() + Seq::new(sub_agents, |i: int| handles[front.len() + i])
        =~= handles.skip(4));
}

/// What a reload stops, it starts again: the adapters where it stopped them, and each
/// watcher and the reminder where they no longer run.
pub proof fn law_stopped_is_started(a: ReloadAction, before: ComponentsView, sub_agents: nat)
    ensures
        ({
            let after = stops(a, before).1;
            let steps = starts(a, sub_agents);
            &&& after.adapters != before.adapters ==> steps.contains(StartStep::Adapters)
            &&& after.schedule_watcher != before.schedule_watcher ==> steps.contains(
                StartStep::ScheduleWatcher,
            )
            &&& after.config_watcher != before.config_watcher ==> steps.contains(
                StartStep::ConfigWatcher,
            )
            &&& after.reminder_runner != before.reminder_runner ==> steps.contains(
                StartStep::ReminderRunner,
            )
            &&& after.sub_agents != before.sub_agents ==> forall|i: int|
                0 <= i < sub_agents ==> steps.contains(#[trigger] sub_agent_step(i))
        }),
{
    let steps = starts(a, sub_agents);
    if a == ReloadAction::Everything {
        assert(steps[0] == StartStep::Adapters);
        assert(steps[1] == StartStep::ScheduleWatcher);
        assert(steps[2] == StartStep::ConfigWatcher);
        assert(steps[3] == StartStep::ReminderRunner);
        assert forall|i: int| 0 <= i < sub_agents implies steps.contains(
            #[trigger] sub_agent_step(i),
        ) by {
            assert(steps[4 + i] == sub_agent_step(i));
        }
    } else if a == ReloadAction::Adapters {
        assert(steps[0] == StartStep::Adapters);
    } else if a == ReloadAction::Schedules {
        assert(steps[0] == StartStep::ScheduleWatcher);
        assert(steps[1] == StartStep::ReminderRunner);
    }
}

/// The step that starts the worker of a sub-agent.
pub open spec fn sub_agent_step(i: int) -> StartStep {
    StartStep::SubAgent(i as usize)
}

/// A change is covered: what changed is stopped before it is started again.
pub proof fn law_change_is_covered(c: ConfigChangeset, before: ComponentsView)
    requires
        !c.system_prompt_only,
    ensures
        ({
            let after = stops(action_for(c), before).1;
            &&& c.adapters_changed ==> after.adapters.len() == 0 && after.tokens.len() == 0
            &&& c.schedules_changed ==> after.schedule_watcher is None
                && after.reminder_runner is None
            &&& c.sub_agents_changed ==> after.sub_agents.len() == 0
        }),
{
}

/// A change of one kind disturbs no other component: adapters keep running through a
/// change of the schedules alone, schedules and sub-agents through a change of the
/// adapters alone, and everything through a change of the prompt alone.
pub proof fn law_reload_is_selective(c: ConfigChangeset, before: ComponentsView)
    ensures
        ({
            let after = stops(action_for(c), before).1;
            &&& c.system_prompt_only ==> after == before
            &&& !c.sub_agents_changed && !c.schedules_changed ==> after.schedule_watcher
                == before.schedule_watcher && after.reminder_runner == before.reminder_runner
                && after.sub_agents == before.sub_agents && after.config_watcher
                == before.config_watcher
            &&& !c.sub_agents_changed && !c.adapters_changed ==> after.adapters
                == before.adapters && after.tokens == before.tokens && after.sub_agents
                == before.sub_agents && after.config_watcher == before.config_watcher
        }),
{
}

// ─── Watching the file ──────────────────────────────────────────────────────

/// Watches a configuration file by its time of modification.
#[derive(Debug, Clone, Copy)]
pub struct FileWatch {
    /// The time of modification that was last seen; `None` while there is no file.
    pub last_modified: Option<Instant>,
}

fn same_time(a: Option<Instant>, b: Option<Instant>) -> (r: bool)
    ensures
        r == (a == b),
{
    match (a, b) {
        (Some(x), Some(y)) => x.secs == y.secs && x.nanos == y.nanos,
        (None, None) => true,
        _ => false,
    }
}

impl FileWatch {
    pub fn new(modified: Option<Instant>) -> (r: Self)
        ensures
            r.last_modified == modified,
    {
        FileWatch { last_modified: modified }
    }

    /// Takes note of the file's time of modification. Returns whether it is another
    /// than last time; a change is reported once.
    pub fn tick(&mut self, modified: Option<Instant>) -> (r: bool)
        ensures
            r == (modified != old(self).last_modified),
            final(self).last_modified == modified,
    {
        let same = same_time(modified, self.last_modified);
        self.last_modified = modified;
        !same
    }
}

/// What a reload does, where the file has changed.
#[derive(Debug, Clone, Copy, PartialEq, Eq, Structural)]
pub enum ReloadStep {
    /// The file could not be read: the components stay as they are.
    KeepOld,
    /// The action is carried out.
    Act(ReloadAction),
}

/// Decides on a changed file. `loaded` says whether it could be read; `diff` is what
/// differs from the configuration before, if one was known.
pub fn reload_step(loaded: bool, diff: Option<ConfigChangeset>) -> (r: ReloadStep)
    ensures
        r == (if !loaded {
            ReloadStep::KeepOld
        } else {
            ReloadStep::Act(
                match diff {
                    Some(c) => action_for(c),
                    None => action_for(all_changed()),
                },
            )
        }),
{
    if !loaded {
        return ReloadStep::KeepOld;
    }
    let change = match diff {
        Some(c) => c,
        None => ConfigChangeset {
            adapters_changed: true,
            schedules_changed: true,
            sub_agents_changed: true,
            system_prompt_only: false,
        },
    };
    ReloadStep::Act(reload_action(&change))
}

// ─── Sub-agents ─────────────────────────────────────────────────────────────

/// What a sub-agent has from the agent that it belongs to.
#[derive(Debug, Clone)]
pub struct ParentDef {
    pub work_dir: String,
    pub unix_user: Option<String>,
    pub max_turns: u32,
    pub auto_compact_threshold_tokens: Option<u64>,
}

/// The configuration of the tool server of an agent.
pub open spec fn mcp_config(name: Seq<char>) -> JsonView {
    object(
        seq![
            (
                "mcpServers"@,
                object(
                    seq![
                        (
                            "deskd"@,
                            object(
                                seq![
                                    ("command"@, JsonView::Str("deskd"@)),
                                    ("args"@, text_array(seq!["mcp"@, "--agent"@, name])),
                                ],
                            ),
                        ),
                    ],
                ),
            ),
        ],
    )
}

/// The command that runs a sub-agent in the runtime.
pub open spec fn sub_agent_command(
    runtime: Seq<char>,
    name: Seq<char>,
    model: Seq<char>,
    max_turns: u32,
) -> Seq<Seq<char>> {
    seq![
        runtime,
        "--output-format"@,
        "stream-json"@,
        "--verbose"@,
        "--dangerously-skip-permissions"@,
        "--model"@,
        model,
        "--max-turns"@,
        decimal(max_turns as nat),
        "--mcp-config"@,
        json_rendered(mcp_config(name)),
    ]
}

fn mcp_config_text(name: &str) -> (r: String)
    ensures
        r@ == json_rendered(mcp_config(name@)),
{
    let mut args: Vec<String> = Vec::new();
    args.push("mcp".to_owned());
    args.push("--agent".to_owned());
    args.push(name.to_owned());
    assert(texts(args@) =~= seq!["mcp"@, "--agent"@, name@]);
    let server = ObjectBuilder::new().with_text("command", "deskd").with("args", json_texts(&args));
    assert(server@ =~= seq![
        ("command"@, JsonView::Str("deskd"@)),
        ("args"@, text_array(seq!["mcp"@, "--agent"@, name@])),
    ]);
    let ghost server_members = server@;
    let servers = ObjectBuilder::new().with("deskd", server.build());
    assert(servers@ =~= seq![("deskd"@, object(server_members))]);
    let ghost servers_members = servers@;
    let all = ObjectBuilder::new().with("mcpServers", servers.build());
    assert(all@ =~= seq![("mcpServers"@, object(servers_members))]);
    render_json(&all.build())
}

/// A setting of a sub-agent: its own where it has one, else that of the agent that it
/// belongs to. So it is with the context and with the threshold of compaction.
pub fn inherited<X>(own: Option<X>, parent: Option<X>) -> (r: Option<X>)
    ensures
        r == if own is Some {
            own
        } else {
            parent
        },
{
    match own {
        Some(setting) => Some(setting),
        None => parent,
    }
}

/// The configuration of a sub-agent: its own name, model and prompt, the rest from the
/// agent that it belongs to. Its own threshold goes before that of the agent.
pub fn sub_agent_config(
    runtime: &str,
    parent: &ParentDef,
    sub: &SubAgentDef,
    own_threshold: Option<u64>,
    cfg_path: &str,
) -> (r: AgentConfig)
    ensures
        r.name@ == sub.name@,
        r.model@ == sub.model@,
        r.system_prompt@ == sub.system_prompt@,
        r.work_dir@ == parent.work_dir@,
        r.max_turns == parent.max_turns,
        opt_text(r.unix_user) == opt_text(parent.unix_user),
        texts(r.command@) == sub_agent_command(runtime@, sub.name@, sub.model@, parent.max_turns),
        opt_text(r.config_path) == Some(cfg_path@),
        r.auto_compact_threshold_tokens == (match own_threshold {
            Some(n) => Some(n),
            None => parent.auto_compact_threshold_tokens,
        }),
{
    let mut command: Vec<String> = Vec::new();
    command.push(runtime.to_owned());
    command.push("--output-format".to_owned());
    command.push("stream-json".to_owned());
    command.push("--verbose".to_owned());
    command.push("--dangerously-skip-permissions".to_owned());
    command.push("--model".to_owned());
    command.push(sub.model.clone());
    command.push("--max-turns".to_owned());
    command.push(format_u64(parent.max_turns as u64));
    command.push("--mcp-config".to_owned());
    command.push(mcp_config_text(sub.name.as_str()));
    assert(texts(command@) =~= sub_agent_command(runtime@, sub.name@, sub.model@, parent.max_turns));
    AgentConfig {
        name: sub.name.clone(),
        model: sub.model.clone(),
        system_prompt: sub.system_prompt.clone(),
        work_dir: parent.work_dir.clone(),
        max_turns: parent.max_turns,
        unix_user: parent.unix_user.clone(),
        command,
        config_path: Some(cfg_path.to_owned()),
        auto_compact_threshold_tokens: inherited(
            own_threshold,
            parent.auto_compact_threshold_tokens,
        ),
    }
}

// ─── Laws on reloading ──────────────────────────────────────────────────────

/// A change restarts the least that covers it: the adapters alone, the schedules alone,
/// everything where more than one kind changed or the sub-agents did, and nothing where
/// the prompt alone changed.
pub proof fn law_least_that_covers(c: ConfigChangeset)
    ensures
        c.system_prompt_only ==> action_for(c) == ReloadAction::PromptOnly,
        !c.system_prompt_only && c.sub_agents_changed ==> action_for(c)
            == ReloadAction::Everything,
        !c.system_prompt_only && c.adapters_changed && c.schedules_changed ==> action_for(c)
            == ReloadAction::Everything,
        !c.system_prompt_only && !c.sub_agents_changed && c.adapters_changed
            && !c.schedules_changed ==> action_for(c) == ReloadAction::Adapters,
        !c.system_prompt_only && !c.sub_agents_changed && !c.adapters_changed
            && c.schedules_changed ==> action_for(c) == ReloadAction::Schedules,
        !c.system_prompt_only && !c.sub_agents_changed && !c.adapters_changed
            && !c.schedules_changed ==> action_for(c) == ReloadAction::NoRestart,
{
}

/// A file that cannot be read leaves everything as it is. One that is read for the first
/// time restarts everything, any other one what changed.
pub proof fn law_unreadable_file_changes_nothing(
    loaded: bool,
    diff: Option<ConfigChangeset>,
    r: ReloadStep,
)
    requires
        call_ensures(reload_step, (loaded, diff), r),
    ensures
        !loaded ==> r == ReloadStep::KeepOld,
        loaded && diff is None ==> r == ReloadStep::Act(ReloadAction::Everything),
        loaded && diff is Some ==> r == ReloadStep::Act(action_for(diff->0)),
{
}

/// A reload ends the tasks of the components that it restarts, and no other.
pub proof fn law_reload_ends_what_it_restarts(before: ComponentsView, handle: u64)
    ensures
        ends(stops(ReloadAction::Adapters, before).0, handle) <==> before.adapters.contains(handle),
        ends(stops(ReloadAction::Schedules, before).0, handle) <==> before.schedule_watcher == Some(
            handle,
        ) || before.reminder_runner == Some(handle),
        ends(stops(ReloadAction::Everything, before).0, handle) <==> runs(before, handle),
        stops(ReloadAction::PromptOnly, before).0.len() == 0,
        stops(ReloadAction::NoRestart, before).0.len() == 0,
{
    law_abort_all_ends_all(before, handle);
    let head = cancels(before.tokens) + (if before.adapters.len() > 0 {
        seq![StopStep::Grace]
    } else {
        Seq::empty()
    });
    let steps = adapter_steps(before);
    if before.adapters.contains(handle) {
        let k = choose|k: int| 0 <= k < before.adapters.len() && before.adapters[k] == handle;
        assert(steps[head.len() + k] == StopStep::Abort(handle));
    }
    if ends(steps, handle) {
        let i = choose|i: int| 0 <= i < steps.len() && #[trigger] steps[i] == StopStep::Abort(
            handle,
        );
        if i < head.len() {
            assert(steps[i] == head[i]);
        } else {
            assert(before.adapters[i - head.len()] == handle);
        }
    }
    let schedule = schedule_steps(before);
    if before.schedule_watcher == Some(handle) {
        assert(schedule[0] == StopStep::Abort(handle));
    }
    if before.reminder_runner == Some(handle) {
        assert(schedule[abort_one(before.schedule_watcher).len() as int] == StopStep::Abort(
            handle,
        ));
    }
}

/// Every adapter is asked to end, and given time where there is any.
pub proof fn law_adapters_are_asked_first(before: ComponentsView, token: u64)
    requires
        before.tokens.contains(token),
    ensures
        stops(ReloadAction::Adapters, before).0.contains(StopStep::Cancel(token)),
        stops(ReloadAction::Everything, before).0.contains(StopStep::Cancel(token)),
        before.adapters.len() > 0 ==> stops(ReloadAction::Adapters, before).0.contains(
            StopStep::Grace,
        ),
{
    let k = choose|k: int| 0 <= k < before.tokens.len() && before.tokens[k] == token;
    assert(adapter_steps(before)[k] == StopStep::Cancel(token));
    assert(all_steps(before)[k] == StopStep::Cancel(token));
    if before.adapters.len() > 0 {
        assert(adapter_steps(before)[before.tokens.len() as int] == StopStep::Grace);
    }
}

/// Nothing is started beside one that still runs.
pub proof fn law_nothing_runs_twice(a: ReloadAction, before: ComponentsView, sub_agents: nat)
    ensures
        ({
            let left = stops(a, before).1;
            let steps = starts(a, sub_agents);
            &&& steps.contains(StartStep::Adapters) ==> left.adapters.len() == 0
            &&& steps.contains(StartStep::ScheduleWatcher) ==> left.schedule_watcher is None
            &&& steps.contains(StartStep::ConfigWatcher) ==> left.config_watcher is None
            &&& steps.contains(StartStep::ReminderRunner) ==> left.reminder_runner is None
            &&& forall|n: usize|
                #[trigger] steps.contains(StartStep::SubAgent(n)) ==> left.sub_agents.len() == 0
        }),
{
    let steps = starts(a, sub_agents);
    if a == ReloadAction::Adapters {
        assert(steps.len() == 1 && steps[0] == StartStep::Adapters);
    } else if a == ReloadAction::Schedules {
        assert(steps.len() == 2 && steps[0] == StartStep::ScheduleWatcher && steps[1]
            == StartStep::ReminderRunner);
    }
}

/// A sub-agent has its own name, model and prompt, and works where its agent works, as the
/// same user, with as many turns. Its own threshold goes first.
pub proof fn law_sub_agent_is_its_own_in_its_agent(
    runtime: &str,
    parent: &ParentDef,
    sub: &SubAgentDef,
    own_threshold: Option<u64>,
    cfg_path: &str,
    r: AgentConfig,
)
    requires
        call_ensures(sub_agent_config, (runtime, parent, sub, own_threshold, cfg_path), r),
    ensures
        r.name@ == sub.name@,
        r.model@ == sub.model@,
        r.system_prompt@ == sub.system_prompt@,
        r.work_dir@ == parent.work_dir@,
        r.max_turns == parent.max_turns,
        opt_text(r.unix_user) == opt_text(parent.unix_user),
        own_threshold is Some ==> r.auto_compact_threshold_tokens == own_threshold,
        own_threshold is None ==> r.auto_compact_threshold_tokens
            == parent.auto_compact_threshold_tokens,
        texts(r.command@)[0] == runtime@,
        texts(r.command@)[5] == "--model"@,
        texts(r.command@)[6] == sub.model@,
        texts(r.command@)[7] == "--max-turns"@,
        texts(r.command@)[8] == decimal(parent.max_turns as nat),
        texts(r.command@)[9] == "--mcp-config"@,
        texts(r.command@)[10] == json_rendered(mcp_config(sub.name@)),
{
}

/// A sub-agent is given one server of tools, `deskd mcp`, that acts for the sub-agent.
pub proof fn law_tools_act_for_the_sub_agent(name: Seq<char>)
    ensures
        ({
            let server = member2(mcp_config(name), "mcpServers"@, "deskd"@);
            &&& server matches Some(s) && member(s, "command"@) == Some(JsonView::Str("deskd"@))
                && (member(s, "args"@) matches Some(JsonView::Array(args)) && args.len() == 3
                && args[0] == JsonView::Str("mcp"@) && args[1] == JsonView::Str("--agent"@)
                && args[2] == JsonView::Str(name))
        }),
{
    reveal_strlit("command");
    reveal_strlit("args");
    let inner = seq![
        ("command"@, JsonView::Str("deskd"@)),
        ("args"@, text_array(seq!["mcp"@, "--agent"@, name])),
    ];
    assert(inner[0].0.len() == 7 && inner[1].0.len() == 4);
    lemma_object_member(inner, 0);
    lemma_object_member(inner, 1);
    let servers = seq![("deskd"@, object(inner))];
    lemma_object_member(servers, 0);
    lemma_object_member(seq![("mcpServers"@, object(servers))], 0);
}

/// A change of the file's time is noticed once.
pub proof fn law_change_is_noticed_once(
    first: &mut FileWatch,
    second: &mut FileWatch,
    modified: Option<Instant>,
    changed: bool,
    again: bool,
)
    requires
        call_ensures(FileWatch::tick, (first, modified), changed),
        *old(second) == *final(first),
        call_ensures(FileWatch::tick, (second, modified), again),
    ensures
        changed <==> modified != old(first).last_modified,
        !again,
{
}

} // verus!

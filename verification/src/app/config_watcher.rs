//! The prompt watcher: a changed system prompt goes to the running session as a
//! message.

use crate::json::Json;
use crate::json::JsonView;
use crate::json::ObjectBuilder;
use crate::json::lemma_object_member;
use crate::json::member;
use crate::json::object;
use crate::text::concat2;
use crate::text::concat3;
use crate::text::text_eq;
use vstd::prelude::*;

verus! {

/// The message that tells a session of its new prompt.
#[derive(Debug, Clone)]
pub struct PromptUpdate {
    pub target: String,
    pub task: String,
    /// The prompt that is stored in the agent's state.
    pub system_prompt: String,
}

/// The name under which the watcher sends.
pub const WATCHER_SOURCE: &'static str = "config-watcher";

/// The text that tells a session of its new prompt.
pub open spec fn update_text(prompt: Seq<char>) -> Seq<char> {
    "Your system prompt has been updated. New instructions:\n\n"@ + prompt
        + "\n\nAcknowledge the update."@
}

/// Watches the system prompt of an agent.
#[derive(Debug, Clone)]
pub struct PromptWatch {
    last_prompt: String,
}

impl PromptWatch {
    /// The prompt that the session has.
    pub closed spec fn known(&self) -> Seq<char> {
        self.last_prompt@
    }

    /// Starts with the prompt of the configuration; without one, with an empty prompt.
    pub fn new(initial: Option<&str>) -> (r: Self)
        ensures
            r.known() == (match initial {
                Some(p) => p@,
                None => Seq::empty(),
            }),
    {
        match initial {
            Some(p) => PromptWatch { last_prompt: p.to_owned() },
            None => PromptWatch { last_prompt: String::new() },
        }
    }

    /// The update of the agent for a prompt, if the session does not have it.
    pub fn update_for(&self, prompt: &str, agent_name: &str) -> (r: Option<PromptUpdate>)
        ensures
            match r {
                Some(u) => prompt@ != self.known() && u.target@ == "agent:"@ + agent_name@
                    && u.task@ == update_text(prompt@) && u.system_prompt@ == prompt@,
                None => prompt@ == self.known(),
            },
    {
        if text_eq(prompt, self.last_prompt.as_str()) {
            return None;
        }
        Some(
            PromptUpdate {
                target: concat2("agent:", agent_name),
                task: concat3(
                    "Your system prompt has been updated. New instructions:\n\n",
                    prompt,
                    "\n\nAcknowledge the update.",
                ),
                system_prompt: prompt.to_owned(),
            },
        )
    }

    /// Takes note that the session has got the update. Until then the update is due.
    pub fn delivered(&mut self, update: &PromptUpdate)
        ensures
            final(self).known() == update.system_prompt@,
    {
        self.last_prompt = update.system_prompt.clone();
    }
}

// ─── Failures ───────────────────────────────────────────────────────────────

/// What the watcher could not do.
#[derive(Debug, Clone)]
pub enum WatchFailure {
    /// Read the configuration at the start.
    Load { config_path: String },
    /// Read it again.
    Reload { config_path: String },
    /// Save the agent's state.
    StateSave,
    /// Read the agent's state.
    StateLoad,
    /// Send the update.
    Send { target: String },
}

/// The kind of event that a failure is reported as.
pub open spec fn failure_kind(f: WatchFailure) -> Seq<char> {
    match f {
        WatchFailure::Load { .. } => "config.load_failed"@,
        WatchFailure::Reload { .. } => "config.reload_failed"@,
        WatchFailure::StateSave => "config.state_save_failed"@,
        WatchFailure::StateLoad => "config.state_load_failed"@,
        WatchFailure::Send { .. } => "transport.bus_send_failed"@,
    }
}

/// A failure in words.
pub open spec fn failure_text(f: WatchFailure, agent: Seq<char>, error: Seq<char>) -> Seq<char> {
    (match f {
        WatchFailure::Load { .. } => "failed to load initial config for agent "@,
        WatchFailure::Reload { .. } => "failed to reload config for agent "@,
        WatchFailure::StateSave => "failed to save updated state for agent "@,
        WatchFailure::StateLoad => "failed to load agent state for "@,
        WatchFailure::Send { .. } => "failed to send prompt update message to agent "@,
    }) + agent + ": "@ + error
}

/// What a failure is about.
pub open spec fn failure_details(f: WatchFailure, agent: Seq<char>) -> JsonView {
    let head = seq![("agent"@, JsonView::Str(agent))];
    object(
        match f {
            WatchFailure::Load { config_path } => head.push(
                ("config_path"@, JsonView::Str(config_path@)),
            ),
            WatchFailure::Reload { config_path } => head.push(
                ("config_path"@, JsonView::Str(config_path@)),
            ),
            WatchFailure::StateSave => head,
            WatchFailure::StateLoad => head,
            WatchFailure::Send { target } => head.push(("target"@, JsonView::Str(target@))),
        },
    )
}

impl WatchFailure {
    /// The kind of event that the failure is reported as.
    pub fn kind(&self) -> (r: &'static str)
        ensures
            r@ == failure_kind(*self),
    {
        match self {
            WatchFailure::Load { .. } => "config.load_failed",
            WatchFailure::Reload { .. } => "config.reload_failed",
            WatchFailure::StateSave => "config.state_save_failed",
            WatchFailure::StateLoad => "config.state_load_failed",
            WatchFailure::Send { .. } => "transport.bus_send_failed",
        }
    }

    /// The failure in words.
    pub fn message(&self, agent_name: &str, error: &str) -> (r: String)
        ensures
            r@ == failure_text(*self, agent_name@, error@),
    {
        let what = match self {
            WatchFailure::Load { .. } => "failed to load initial config for agent ",
            WatchFailure::Reload { .. } => "failed to reload config for agent ",
            WatchFailure::StateSave => "failed to save updated state for agent ",
            WatchFailure::StateLoad => "failed to load agent state for ",
            WatchFailure::Send { .. } => "failed to send prompt update message to agent ",
        };
        let mut out = concat3(what, agent_name, ": ");
        out.append(error);
        out
    }

    /// What the failure is about.
    pub fn details(&self, agent_name: &str) -> (r: Json)
        ensures
            r@ == failure_details(*self, agent_name@),
    {
        let head = ObjectBuilder::new().with_text("agent", agent_name);
        assert(head@ =~= seq![("agent"@, JsonView::Str(agent_name@))]);
        match self {
            WatchFailure::Load { config_path } | WatchFailure::Reload { config_path } => {
                head.with_text("config_path", config_path.as_str()).build()
            },
            WatchFailure::StateSave | WatchFailure::StateLoad => head.build(),
            WatchFailure::Send { target } => head.with_text("target", target.as_str()).build(),
        }
    }
}

// ─── Laws ───────────────────────────────────────────────────────────────────

/// A prompt that the session does not have is handed over: to the agent itself, word for
/// word, and to be stored as it is. One that it has is not.
pub proof fn law_new_prompt_is_handed_over(
    w: &PromptWatch,
    prompt: &str,
    agent_name: &str,
    r: Option<PromptUpdate>,
)
    requires
        call_ensures(PromptWatch::update_for, (w, prompt, agent_name), r),
    ensures
        r is Some <==> prompt@ != w.known(),
        r matches Some(u) ==> u.target@ == "agent:"@ + agent_name@ && u.system_prompt@ == prompt@
            && exists|k: int|
            0 <= k && k + prompt@.len() <= u.task@.len() && #[trigger] u.task@.subrange(
                k,
                k + prompt@.len(),
            ) == prompt@,
{
    if r is Some {
        let head = "Your system prompt has been updated. New instructions:\n\n"@;
        let k = head.len() as int;
        assert(update_text(prompt@).subrange(k, k + prompt@.len()) =~= prompt@);
    }
}

/// A prompt that was handed over is known: it is not handed over again, and any other
/// prompt is.
pub proof fn law_delivered_prompt_is_known(
    w: &mut PromptWatch,
    update: &PromptUpdate,
    after: &PromptWatch,
    prompt: &str,
    agent_name: &str,
    r: Option<PromptUpdate>,
)
    requires
        call_ensures(PromptWatch::delivered, (w, update), ()),
        *after == *final(w),
        call_ensures(PromptWatch::update_for, (after, prompt, agent_name), r),
    ensures
        r is None <==> prompt@ == update.system_prompt@,
{
}

/// A failure is reported under the kind of what failed, and its text names the agent and the
/// error.
pub proof fn law_failure_is_reported(
    f: &WatchFailure,
    agent: &str,
    error: &str,
    kind: &'static str,
    text: String,
    details: Json,
)
    requires
        call_ensures(WatchFailure::kind, (f,), kind),
        call_ensures(WatchFailure::message, (f, agent, error), text),
        call_ensures(WatchFailure::details, (f, agent), details),
    ensures
        f is Load ==> kind@ == "config.load_failed"@,
        f is Reload ==> kind@ == "config.reload_failed"@,
        f is StateSave ==> kind@ == "config.state_save_failed"@,
        f is StateLoad ==> kind@ == "config.state_load_failed"@,
        f is Send ==> kind@ == "transport.bus_send_failed"@,
        f is Load ==> text@ == "failed to load initial config for agent "@ + agent@ + ": "@
            + error@,
        f is Reload ==> text@ == "failed to reload config for agent "@ + agent@ + ": "@ + error@,
        f is StateSave ==> text@ == "failed to save updated state for agent "@ + agent@ + ": "@
            + error@,
        f is StateLoad ==> text@ == "failed to load agent state for "@ + agent@ + ": "@ + error@,
        f is Send ==> text@ == "failed to send prompt update message to agent "@ + agent@ + ": "@
            + error@,
        member(details@, "agent"@) == Some(JsonView::Str(agent@)),
        f matches WatchFailure::Load { config_path } ==> member(details@, "config_path"@) == Some(
            JsonView::Str(config_path@),
        ),
        f matches WatchFailure::Reload { config_path } ==> member(details@, "config_path"@)
            == Some(JsonView::Str(config_path@)),
        f matches WatchFailure::Send { target } ==> member(details@, "target"@) == Some(
            JsonView::Str(target@),
        ),
{
    reveal_strlit("agent");
    reveal_strlit("config_path");
    reveal_strlit("target");
    let head = seq![("agent"@, JsonView::Str(agent@))];
    match f {
        WatchFailure::Load { config_path } => {
            let members = head.push(("config_path"@, JsonView::Str(config_path@)));
            assert(members[1].0 == "config_path"@);
            lemma_object_member(members, 0);
            lemma_object_member(members, 1);
        },
        WatchFailure::Reload { config_path } => {
            let members = head.push(("config_path"@, JsonView::Str(config_path@)));
            assert(members[1].0 == "config_path"@);
            lemma_object_member(members, 0);
            lemma_object_member(members, 1);
        },
        WatchFailure::Send { target } => {
            let members = head.push(("target"@, JsonView::Str(target@)));
            assert(members[1].0 == "target"@);
            lemma_object_member(members, 0);
            lemma_object_member(members, 1);
        },
        _ => {
            lemma_object_member(head, 0);
        },
    }
}

} // verus!

//! Agent health: one verdict per agent, from its state and recent task log.
//!
//! All inputs are parameters; whoever calls `diagnose` collects them.

use crate::app::clock::Instant;
use crate::app::clock::instant_of;
use crate::app::clock::parse_instant;
use crate::app::tasklog::TaskLog;
use crate::app::tasklog::count;
use crate::app::tasklog::count_of;
use crate::text::concat2;
use crate::text::concat3;
use crate::text::decimal;
use crate::text::format_i64;
use crate::text::format_u64;
use crate::text::format_usize;
use crate::text::signed_decimal;
use vstd::prelude::*;

verus! {

pub const DEFAULT_EMPTY_COMPLETION_THRESHOLD: usize = 3;

pub const DEFAULT_IDLE_MINUTES_THRESHOLD: i64 = 60;

pub const DEFAULT_STUCK_QUEUE_MINUTES: i64 = 5;

/// An empty completion took less time than this and produced no output tokens.
pub const EMPTY_DURATION_MS_CEILING: u64 = 2_000;

/// Thresholds of the verdicts.
#[derive(Debug, Clone, Copy)]
pub struct DoctorThresholds {
    /// How many consecutive empty completions make an agent `Hung`.
    pub empty_completion_threshold: usize,
    /// After how many minutes without activity a healthy agent is `Idle`.
    pub idle_minutes_threshold: i64,
    /// After how many minutes in the queue without a completion an agent is `Stuck`.
    pub stuck_queue_minutes: i64,
}

impl Default for DoctorThresholds {
    fn default() -> (r: Self)
        ensures
            r.empty_completion_threshold == DEFAULT_EMPTY_COMPLETION_THRESHOLD,
            r.idle_minutes_threshold == DEFAULT_IDLE_MINUTES_THRESHOLD,
            r.stuck_queue_minutes == DEFAULT_STUCK_QUEUE_MINUTES,
    {
        DoctorThresholds {
            empty_completion_threshold: DEFAULT_EMPTY_COMPLETION_THRESHOLD,
            idle_minutes_threshold: DEFAULT_IDLE_MINUTES_THRESHOLD,
            stuck_queue_minutes: DEFAULT_STUCK_QUEUE_MINUTES,
        }
    }
}

/// What a verdict is derived from.
#[derive(Debug, Clone)]
pub struct DoctorInputs<'a> {
    pub agent_name: &'a str,
    /// PID of the agent state; `0` means that none is known.
    pub state_pid: u32,
    /// Whether a process with that PID exists.
    pub process_alive: bool,
    /// Recent task log entries, oldest first.
    pub recent_tasks: &'a [TaskLog],
    /// Time of the latest message in the agent's inbox.
    pub latest_inbox_ts: Option<Instant>,
    pub now: Instant,
}

/// The diagnosis of one agent.
#[derive(Debug, Clone, Copy, PartialEq, Eq, Structural)]
pub enum Verdict {
    /// The process lives, but the last tasks all completed at once and without output.
    Hung { empty_count: usize, last_good_age_secs: Option<i64> },
    /// A message has been queued for `queued_minutes` with no completion since.
    Stuck { queued_minutes: i64 },
    /// The state names a process that is gone.
    Dead { pid: u32 },
    /// The last completion was good, but it is long ago.
    Idle { last_good_age_secs: i64 },
    /// Nothing is wrong.
    Healthy { last_good_age_secs: Option<i64> },
}

/// An age in seconds as `45s`, `2m`, `3h` or `2d`; `now` for a time to come.
pub open spec fn age_text(secs: i64) -> Seq<char> {
    if secs < 0 {
        "now"@
    } else if secs < 60 {
        decimal(secs as nat) + "s"@
    } else if secs < 3600 {
        decimal((secs / 60) as nat) + "m"@
    } else if secs < 86400 {
        decimal((secs / 3600) as nat) + "h"@
    } else {
        decimal((secs / 86400) as nat) + "d"@
    }
}

/// Formats an age in seconds.
pub fn fmt_secs(secs: i64) -> (r: String)
    ensures
        r@ == age_text(secs),
{
    if secs < 0 {
        "now".to_owned()
    } else if secs < 60 {
        concat2(format_u64(secs as u64).as_str(), "s")
    } else if secs < 3600 {
        concat2(format_u64((secs / 60) as u64).as_str(), "m")
    } else if secs < 86400 {
        concat2(format_u64((secs / 3600) as u64).as_str(), "h")
    } else {
        concat2(format_u64((secs / 86400) as u64).as_str(), "d")
    }
}

impl Verdict {
    pub open spec fn problem(self) -> bool {
        self is Hung || self is Stuck || self is Dead
    }

    /// Single-character sign for tables.
    pub fn glyph(&self) -> (r: &'static str)
        ensures
            r@ == (if self.problem() {
                "🔴"@
            } else if self is Idle {
                "🟡"@
            } else {
                "🟢"@
            }),
    {
        match self {
            Verdict::Hung { .. } => "🔴",
            Verdict::Stuck { .. } => "🔴",
            Verdict::Dead { .. } => "🔴",
            Verdict::Idle { .. } => "🟡",
            Verdict::Healthy { .. } => "🟢",
        }
    }

    /// Short label.
    pub fn label(&self) -> (r: &'static str)
        ensures
            r@ == (match *self {
                Verdict::Hung { .. } => "hung"@,
                Verdict::Stuck { .. } => "stuck"@,
                Verdict::Dead { .. } => "dead"@,
                Verdict::Idle { .. } => "idle"@,
                Verdict::Healthy { .. } => "healthy"@,
            }),
    {
        match self {
            Verdict::Hung { .. } => "hung",
            Verdict::Stuck { .. } => "stuck",
            Verdict::Dead { .. } => "dead",
            Verdict::Idle { .. } => "idle",
            Verdict::Healthy { .. } => "healthy",
        }
    }

    /// Whether the operator should act.
    pub fn is_problem(&self) -> (r: bool)
        ensures
            r == self.problem(),
    {
        match self {
            Verdict::Hung { .. } => true,
            Verdict::Stuck { .. } => true,
            Verdict::Dead { .. } => true,
            Verdict::Idle { .. } => false,
            Verdict::Healthy { .. } => false,
        }
    }

    /// The command that remedies the problem, if there is one.
    pub fn recommended_action(&self, agent_name: &str) -> (r: Option<String>)
        ensures
            r is Some == self.problem(),
            r matches Some(command) ==> command@ == if self is Stuck {
                "deskd agent stderr "@ + agent_name@ + " && deskd agent restart "@ + agent_name@
            } else {
                "deskd agent restart "@ + agent_name@
            },
    {
        match self {
            Verdict::Hung { .. } => Some(concat2("deskd agent restart ", agent_name)),
            Verdict::Dead { .. } => Some(concat2("deskd agent restart ", agent_name)),
            Verdict::Stuck { .. } => {
                let mut command = concat2("deskd agent stderr ", agent_name);
                command.append(" && deskd agent restart ");
                command.append(agent_name);
                Some(command)
            },
            Verdict::Idle { .. } => None,
            Verdict::Healthy { .. } => None,
        }
    }

    /// What the verdict rests on, in words.
    pub fn signal(&self, threshold: usize) -> (r: String)
        ensures
            r@ == (match *self {
                Verdict::Hung { empty_count, .. } => decimal(empty_count as nat) + "/"@ + decimal(
                    threshold as nat,
                ) + " recent tasks 0 tokens, <2s duration"@,
                Verdict::Stuck { queued_minutes } => "queued "@ + signed_decimal(
                    queued_minutes as int,
                ) + "m ago, no completion"@,
                Verdict::Dead { pid } => "state says alive but pid "@ + decimal(pid as nat)
                    + " not found"@,
                Verdict::Idle { last_good_age_secs } => "no recent traffic ("@ + age_text(
                    last_good_age_secs,
                ) + " since last good)"@,
                Verdict::Healthy { .. } => "—"@,
            }),
    {
        match self {
            Verdict::Hung { empty_count, .. } => {
                let mut out = format_usize(*empty_count);
                out.append("/");
                out.append(format_usize(threshold).as_str());
                out.append(" recent tasks 0 tokens, <2s duration");
                out
            },
            Verdict::Stuck { queued_minutes } => concat3(
                "queued ",
                format_i64(*queued_minutes).as_str(),
                "m ago, no completion",
            ),
            Verdict::Dead { pid } => concat3(
                "state says alive but pid ",
                format_u64(*pid as u64).as_str(),
                " not found",
            ),
            Verdict::Idle { last_good_age_secs } => concat3(
                "no recent traffic (",
                fmt_secs(*last_good_age_secs).as_str(),
                " since last good)",
            ),
            Verdict::Healthy { .. } => "—".to_owned(),
        }
    }
}

/// Whether the task completed at once and without output.
pub open spec fn empty_completion(t: TaskLog) -> bool {
    count_of(t.output_tokens) == 0 && t.duration_ms < EMPTY_DURATION_MS_CEILING
}

/// Whether the task did real work.
pub open spec fn good_completion(t: TaskLog) -> bool {
    t.cost_nanos > 0 || count_of(t.output_tokens) > 0
}

/// Whether a task log entry counts as an empty completion.
pub fn is_empty_completion(t: &TaskLog) -> (r: bool)
    ensures
        r == empty_completion(*t),
{
    count(t.output_tokens) == 0 && t.duration_ms < EMPTY_DURATION_MS_CEILING
}

/// Whether a task log entry is a good completion.
pub fn is_good_completion(t: &TaskLog) -> (r: bool)
    ensures
        r == good_completion(*t),
{
    t.cost_nanos > 0 || count(t.output_tokens) > 0
}

/// How many entries at the end of the log are empty completions.
pub open spec fn trailing_empty(tasks: Seq<TaskLog>) -> nat
    decreases tasks.len(),
{
    if tasks.len() > 0 && empty_completion(tasks.last()) {
        1 + trailing_empty(tasks.drop_last())
    } else {
        0
    }
}

/// How many empty completions at the end of the log speak for a hung session: none where
/// the most recent entry is a good completion.
pub open spec fn empty_tail(tasks: Seq<TaskLog>) -> nat {
    if tasks.len() > 0 && good_completion(tasks.last()) {
        0
    } else {
        trailing_empty(tasks)
    }
}

/// Counts the empty completions at the end of the log; 0 where the most recent entry is a
/// good completion.
pub fn trailing_empty_count(tasks: &[TaskLog]) -> (r: usize)
    ensures
        r == (if tasks@.len() > 0 && good_completion(tasks@.last()) {
            0
        } else {
            trailing_empty(tasks@)
        }),
{
    let n: usize = tasks.len();
    if n > 0 && is_good_completion(&tasks[n - 1]) {
        return 0;
    }
    let mut i: usize = n;
    assert(tasks@.take(n as int) =~= tasks@);
    while i > 0 && is_empty_completion(&tasks[i - 1])
        invariant
            i <= n == tasks@.len(),
            trailing_empty(tasks@) == (n - i) + trailing_empty(tasks@.take(i as int)),
        decreases i,
    {
        assert(tasks@.take(i as int).drop_last() =~= tasks@.take(i - 1));
        i -= 1;
    }
    n - i
}

/// The time of the last good completion, where there is one with a readable time.
pub open spec fn last_good(tasks: Seq<TaskLog>) -> Option<Instant>
    decreases tasks.len(),
{
    if tasks.len() == 0 {
        None
    } else if good_completion(tasks.last()) {
        instant_of(tasks.last().ts@)
    } else {
        last_good(tasks.drop_last())
    }
}

/// Finds the time of the last good completion.
pub fn last_good_ts(tasks: &[TaskLog]) -> (r: Option<Instant>)
    ensures
        r == last_good(tasks@),
        r matches Some(t) ==> t.wf(),
{
    let n: usize = tasks.len();
    let mut i: usize = n;
    assert(tasks@.take(n as int) =~= tasks@);
    while i > 0
        invariant
            i <= tasks@.len(),
            last_good(tasks@) == last_good(tasks@.take(i as int)),
        decreases i,
    {
        assert(tasks@.take(i as int).drop_last() =~= tasks@.take(i - 1));
        i -= 1;
        if is_good_completion(&tasks[i]) {
            return parse_instant(tasks[i].ts.as_str());
        }
    }
    None
}

/// Whole minutes in a number of seconds; a fraction is dropped.
pub open spec fn minutes_of(secs: int) -> int {
    if secs >= 0 {
        secs / 60
    } else {
        -((-secs) / 60)
    }
}

/// Whether some task completed at `since` or later.
pub open spec fn completed_since(tasks: Seq<TaskLog>, since: Instant) -> bool {
    exists|i: int|
        0 <= i < tasks.len() && (instant_of((#[trigger] tasks[i]).ts@) matches Some(t)
            && !t.before(since))
}

fn any_completed_since(tasks: &[TaskLog], since: Instant) -> (r: bool)
    ensures
        r == completed_since(tasks@, since),
{
    let mut i: usize = 0;
    while i < tasks.len()
        invariant
            i <= tasks@.len(),
            forall|k: int|
                0 <= k < i ==> !(instant_of((#[trigger] tasks@[k]).ts@) matches Some(t)
                    && !t.before(since)),
        decreases tasks@.len() - i,
    {
        match parse_instant(tasks[i].ts.as_str()) {
            Some(t) => {
                if !t.is_before(since) {
                    assert(instant_of(tasks@[i as int].ts@) matches Some(u) && !u.before(since));
                    return true;
                }
            },
            None => {},
        }
        i += 1;
    }
    false
}

/// The age of the last good completion in seconds.
pub open spec fn last_good_age(input: DoctorInputs) -> Option<i64> {
    match last_good(input.recent_tasks@) {
        Some(t) => Some(input.now.secs_after(t) as i64),
        None => None,
    }
}

/// Whether the state names a process that is gone.
pub open spec fn finds_dead(input: DoctorInputs) -> bool {
    input.state_pid > 0 && !input.process_alive
}

/// Whether the process lives and the last tasks were empty completions.
pub open spec fn finds_hung(input: DoctorInputs, thresholds: DoctorThresholds) -> bool {
    input.process_alive && empty_tail(input.recent_tasks@)
        >= thresholds.empty_completion_threshold
}

/// For how many minutes a message has been queued without a completion since, where
/// that is long enough.
pub open spec fn finds_stuck(input: DoctorInputs, thresholds: DoctorThresholds) -> Option<i64> {
    match input.latest_inbox_ts {
        Some(t) => {
            let minutes = minutes_of(input.now.secs_after(t));
            if minutes >= thresholds.stuck_queue_minutes && !completed_since(
                input.recent_tasks@,
                t,
            ) {
                Some(minutes as i64)
            } else {
                None
            }
        },
        None => None,
    }
}

/// Whether the last good completion is too long ago.
pub open spec fn finds_idle(input: DoctorInputs, thresholds: DoctorThresholds) -> bool {
    last_good_age(input) matches Some(age) && age >= thresholds.idle_minutes_threshold * 60
}

/// What is diagnosed, the first of dead, hung, stuck and idle that applies, or healthy.
pub open spec fn verdict_of(input: DoctorInputs, thresholds: DoctorThresholds) -> Verdict {
    if finds_dead(input) {
        Verdict::Dead { pid: input.state_pid }
    } else if finds_hung(input, thresholds) {
        Verdict::Hung {
            empty_count: empty_tail(input.recent_tasks@) as usize,
            last_good_age_secs: last_good_age(input),
        }
    } else if finds_stuck(input, thresholds) is Some {
        Verdict::Stuck { queued_minutes: finds_stuck(input, thresholds)->0 }
    } else if finds_idle(input, thresholds) {
        Verdict::Idle { last_good_age_secs: last_good_age(input)->0 }
    } else {
        Verdict::Healthy { last_good_age_secs: last_good_age(input) }
    }
}

/// Runs the heuristics. The most severe verdict that applies wins: dead, hung,
/// stuck, idle, healthy.
pub fn diagnose(input: &DoctorInputs<'_>, thresholds: &DoctorThresholds) -> (r: Verdict)
    requires
        input.now.wf(),
        input.latest_inbox_ts matches Some(t) ==> t.wf(),
        i64::MIN <= thresholds.idle_minutes_threshold * 60 <= i64::MAX,
    ensures
        r == verdict_of(*input, *thresholds),
{
    let last_good_age_secs: Option<i64> = match last_good_ts(input.recent_tasks) {
        Some(t) => Some(input.now.seconds_since(t)),
        None => None,
    };
    if input.state_pid > 0 && !input.process_alive {
        return Verdict::Dead { pid: input.state_pid };
    }
    if input.process_alive {
        let empty: usize = trailing_empty_count(input.recent_tasks);
        if empty >= thresholds.empty_completion_threshold {
            return Verdict::Hung { empty_count: empty, last_good_age_secs };
        }
    }
    if let Some(inbox_ts) = input.latest_inbox_ts {
        let age: i64 = input.now.seconds_since(inbox_ts);
        let minutes: i64 = if age >= 0 {
            age / 60
        } else {
            -((-age) / 60)
        };
        if minutes >= thresholds.stuck_queue_minutes {
            if !any_completed_since(input.recent_tasks, inbox_ts) {
                return Verdict::Stuck { queued_minutes: minutes };
            }
        }
    }
    if let Some(age_secs) = last_good_age_secs {
        let idle_secs: i64 = thresholds.idle_minutes_threshold * 60;
        if age_secs >= idle_secs {
            return Verdict::Idle { last_good_age_secs: age_secs };
        }
    }
    Verdict::Healthy { last_good_age_secs }
}

// ─── Laws ───────────────────────────────────────────────────────────────────

/// A missing process outranks every other finding.
pub proof fn law_dead_outranks(input: DoctorInputs, thresholds: DoctorThresholds)
    ensures
        verdict_of(input, thresholds) is Dead <==> finds_dead(input),
{
}

/// A hung agent outranks all findings but a missing process, a stuck one all but
/// these two.
pub proof fn law_hung_outranks_stuck_outranks_idle(
    input: DoctorInputs,
    thresholds: DoctorThresholds,
)
    ensures
        verdict_of(input, thresholds) is Hung <==> !finds_dead(input) && finds_hung(
            input,
            thresholds,
        ),
        verdict_of(input, thresholds) is Stuck <==> !finds_dead(input) && !finds_hung(
            input,
            thresholds,
        ) && finds_stuck(input, thresholds) is Some,
        verdict_of(input, thresholds) is Idle ==> !verdict_of(input, thresholds).problem(),
{
}

/// An agent without history and without signals is healthy.
pub proof fn law_no_signals_healthy(input: DoctorInputs, thresholds: DoctorThresholds)
    requires
        input.recent_tasks@.len() == 0,
        input.latest_inbox_ts is None,
        !finds_dead(input),
        thresholds.empty_completion_threshold > 0,
    ensures
        verdict_of(input, thresholds) == (Verdict::Healthy { last_good_age_secs: None }),
{
}

/// A completion at or after the arrival of the latest message means not stuck.
pub proof fn law_completion_unsticks(input: DoctorInputs, thresholds: DoctorThresholds)
    requires
        input.latest_inbox_ts matches Some(t) ==> completed_since(input.recent_tasks@, t),
    ensures
        !(verdict_of(input, thresholds) is Stuck),
{
}

/// A good completion resets the count: an agent whose most recent task did real work is
/// not hung, however short that task was and whatever came before it.
pub proof fn law_good_completion_is_not_hung(input: DoctorInputs, thresholds: DoctorThresholds)
    requires
        input.recent_tasks@.len() > 0,
        good_completion(input.recent_tasks@.last()),
        thresholds.empty_completion_threshold > 0,
    ensures
        empty_tail(input.recent_tasks@) == 0,
        !(verdict_of(input, thresholds) is Hung),
{
}

/// The count covers nothing but empty completions at the end of the log.
pub proof fn law_counted_tasks_are_empty(tasks: Seq<TaskLog>, i: int)
    requires
        tasks.len() - empty_tail(tasks) <= i < tasks.len(),
    ensures
        0 <= i,
        empty_completion(tasks[i]),
{
    lemma_trailing_are_empty(tasks, i);
}

proof fn lemma_trailing_are_empty(tasks: Seq<TaskLog>, i: int)
    requires
        tasks.len() - trailing_empty(tasks) <= i < tasks.len(),
    ensures
        0 <= i,
        empty_completion(tasks[i]),
    decreases tasks.len(),
{
    if i < tasks.len() - 1 {
        lemma_trailing_are_empty(tasks.drop_last(), i);
    }
}

/// The last good completion is the latest one: a task that cost something or produced
/// output, after which none did.
pub proof fn law_last_good_is_the_latest(tasks: Seq<TaskLog>, i: int)
    requires
        0 <= i < tasks.len(),
        tasks[i].cost_nanos > 0 || (tasks[i].output_tokens matches Some(n) && n > 0),
        forall|j: int|
            i < j < tasks.len() ==> (#[trigger] tasks[j]).cost_nanos == 0 && (
            tasks[j].output_tokens is None || tasks[j].output_tokens == Some(0u64)),
    ensures
        last_good(tasks) == instant_of(tasks[i].ts@),
    decreases tasks.len(),
{
    if i < tasks.len() - 1 {
        assert(tasks[tasks.len() - 1].cost_nanos == 0);
        let front = tasks.drop_last();
        assert forall|j: int| i < j < front.len() implies (#[trigger] front[j]).cost_nanos == 0 && (
        front[j].output_tokens is None || front[j].output_tokens == Some(0u64)) by {
            assert(tasks[j].cost_nanos == 0);
        }
        law_last_good_is_the_latest(front, i);
    }
}

/// Where no task cost anything or produced output, there is no last good completion.
pub proof fn law_no_work_no_time(tasks: Seq<TaskLog>)
    requires
        forall|j: int|
            0 <= j < tasks.len() ==> (#[trigger] tasks[j]).cost_nanos == 0 && (
            tasks[j].output_tokens is None || tasks[j].output_tokens == Some(0u64)),
    ensures
        last_good(tasks) is None,
    decreases tasks.len(),
{
    if tasks.len() > 0 {
        assert(tasks[tasks.len() - 1].cost_nanos == 0);
        let front = tasks.drop_last();
        assert forall|j: int| 0 <= j < front.len() implies (#[trigger] front[j]).cost_nanos == 0
            && (front[j].output_tokens is None || front[j].output_tokens == Some(0u64)) by {
            assert(tasks[j].cost_nanos == 0);
        }
        law_no_work_no_time(front);
    }
}

/// An agent is idle by the age of its latest good completion: while that is younger than
/// the threshold, it is not, however old the others are. From the threshold on it is, if
/// nothing worse is found.
pub proof fn law_idle_by_the_latest_work(
    input: DoctorInputs,
    thresholds: DoctorThresholds,
    i: int,
    t: Instant,
)
    requires
        0 <= i < input.recent_tasks@.len(),
        input.recent_tasks@[i].cost_nanos > 0 || (
        input.recent_tasks@[i].output_tokens matches Some(n) && n > 0),
        forall|j: int|
            i < j < input.recent_tasks@.len() ==> (#[trigger] input.recent_tasks@[j]).cost_nanos
                == 0 && (input.recent_tasks@[j].output_tokens is None
                || input.recent_tasks@[j].output_tokens == Some(0u64)),
        instant_of(input.recent_tasks@[i].ts@) == Some(t),
        i64::MIN <= input.now.secs_after(t) <= i64::MAX,
    ensures
        input.now.secs_after(t) < thresholds.idle_minutes_threshold * 60 ==> !(verdict_of(
            input,
            thresholds,
        ) is Idle),
        input.now.secs_after(t) >= thresholds.idle_minutes_threshold * 60 ==> !(verdict_of(
            input,
            thresholds,
        ) is Healthy),
        verdict_of(input, thresholds) matches Verdict::Idle { last_good_age_secs }
            ==> last_good_age_secs == input.now.secs_after(t),
        verdict_of(input, thresholds) matches Verdict::Healthy { last_good_age_secs }
            ==> last_good_age_secs == Some(input.now.secs_after(t) as i64),
        verdict_of(input, thresholds) matches Verdict::Hung { last_good_age_secs, .. }
            ==> last_good_age_secs == Some(input.now.secs_after(t) as i64),
{
    law_last_good_is_the_latest(input.recent_tasks@, i);
}

/// An agent that never did any work is not idle.
pub proof fn law_no_work_is_not_idle(input: DoctorInputs, thresholds: DoctorThresholds)
    requires
        forall|j: int|
            0 <= j < input.recent_tasks@.len() ==> (#[trigger] input.recent_tasks@[j]).cost_nanos
                == 0 && (input.recent_tasks@[j].output_tokens is None
                || input.recent_tasks@[j].output_tokens == Some(0u64)),
    ensures
        !(verdict_of(input, thresholds) is Idle),
        verdict_of(input, thresholds) matches Verdict::Healthy { last_good_age_secs }
            ==> last_good_age_secs is None,
{
    law_no_work_no_time(input.recent_tasks@);
}

/// The count of empty completions is the length of the run at the end of the log: tasks
/// without output that took less than two seconds, up to one that is not such, where the
/// last of them cost nothing.
pub proof fn law_count_is_the_run_at_the_end(tasks: Seq<TaskLog>, n: nat)
    requires
        0 < n <= tasks.len(),
        forall|j: int|
            tasks.len() - n <= j < tasks.len() ==> (#[trigger] tasks[j]).duration_ms < 2_000 && (
            tasks[j].output_tokens is None || tasks[j].output_tokens == Some(0u64)),
        n < tasks.len() ==> tasks[tasks.len() - n - 1].duration_ms >= 2_000 || (
        tasks[tasks.len() - n - 1].output_tokens matches Some(k) && k > 0),
        tasks.last().cost_nanos == 0,
    ensures
        empty_tail(tasks) == n,
{
    lemma_run_at_the_end(tasks, n);
    assert(tasks[tasks.len() - 1].duration_ms < 2_000);
}

proof fn lemma_run_at_the_end(tasks: Seq<TaskLog>, n: nat)
    requires
        n <= tasks.len(),
        forall|j: int|
            tasks.len() - n <= j < tasks.len() ==> (#[trigger] tasks[j]).duration_ms < 2_000 && (
            tasks[j].output_tokens is None || tasks[j].output_tokens == Some(0u64)),
        n < tasks.len() ==> tasks[tasks.len() - n - 1].duration_ms >= 2_000 || (
        tasks[tasks.len() - n - 1].output_tokens matches Some(k) && k > 0),
    ensures
        trailing_empty(tasks) == n,
    decreases tasks.len(),
{
    if n > 0 {
        let front = tasks.drop_last();
        assert(tasks[tasks.len() - 1].duration_ms < 2_000);
        assert forall|j: int| front.len() - (n - 1) <= j < front.len() implies (
        #[trigger] front[j]).duration_ms < 2_000 && (front[j].output_tokens is None
            || front[j].output_tokens == Some(0u64)) by {
            assert(tasks[j].duration_ms < 2_000);
        }
        lemma_run_at_the_end(front, (n - 1) as nat);
    }
}

/// An agent whose process lives is hung where that run reaches the threshold, and the
/// verdict names its length.
pub proof fn law_hung_by_the_run(input: DoctorInputs, thresholds: DoctorThresholds)
    requires
        input.process_alive,
    ensures
        verdict_of(input, thresholds) is Hung <==> empty_tail(input.recent_tasks@)
            >= thresholds.empty_completion_threshold,
        verdict_of(input, thresholds) matches Verdict::Hung { empty_count, .. } ==> empty_count
            == empty_tail(input.recent_tasks@) as usize,
{
}

/// An agent is dead where its state names a process that is not there, and the verdict
/// names the process. A process that is not known to have been there is not missed.
pub proof fn law_dead_names_the_process(input: DoctorInputs, thresholds: DoctorThresholds)
    ensures
        verdict_of(input, thresholds) is Dead <==> input.state_pid != 0 && !input.process_alive,
        verdict_of(input, thresholds) matches Verdict::Dead { pid } ==> pid == input.state_pid,
        !input.process_alive ==> !(verdict_of(input, thresholds) is Hung),
{
}

/// An agent is stuck where a message has waited for the threshold, in whole minutes, and
/// no task has completed since it came; the verdict names the minutes.
pub proof fn law_stuck_by_the_waiting_message(
    input: DoctorInputs,
    thresholds: DoctorThresholds,
    t: Instant,
    minutes: int,
)
    requires
        input.latest_inbox_ts == Some(t),
        0 <= minutes <= i64::MAX,
        minutes * 60 <= input.now.secs_after(t) < (minutes + 1) * 60,
    ensures
        verdict_of(input, thresholds) matches Verdict::Stuck { queued_minutes } ==> queued_minutes
            == minutes,
        verdict_of(input, thresholds) is Stuck ==> minutes >= thresholds.stuck_queue_minutes,
        verdict_of(input, thresholds) is Stuck ==> forall|i: int|
            0 <= i < input.recent_tasks@.len() ==> (instant_of(
                (#[trigger] input.recent_tasks@[i]).ts@,
            ) matches Some(done) ==> done.before(t)),
        minutes >= thresholds.stuck_queue_minutes && (forall|i: int|
            0 <= i < input.recent_tasks@.len() ==> (instant_of(
                (#[trigger] input.recent_tasks@[i]).ts@,
            ) matches Some(done) ==> done.before(t))) ==> verdict_of(input, thresholds) is Dead
            || verdict_of(input, thresholds) is Hung || verdict_of(input, thresholds) is Stuck,
{
    assert(minutes_of(input.now.secs_after(t)) == minutes);
}

/// Without a message there is nothing to be stuck on.
pub proof fn law_no_message_is_not_stuck(input: DoctorInputs, thresholds: DoctorThresholds)
    requires
        input.latest_inbox_ts is None,
    ensures
        !(verdict_of(input, thresholds) is Stuck),
{
}

/// The default thresholds: three empty completions, an hour without work, five minutes in
/// the queue.
pub proof fn law_default_thresholds()
    ensures
        DEFAULT_EMPTY_COMPLETION_THRESHOLD == 3,
        DEFAULT_IDLE_MINUTES_THRESHOLD == 60,
        DEFAULT_STUCK_QUEUE_MINUTES == 5,
{
}

/// An age is shown in the largest unit of which it holds at least one, in whole units.
pub proof fn law_age_in_whole_units(secs: i64, n: nat)
    ensures
        secs < 0 ==> age_text(secs) == "now"@,
        n < 60 && secs == n ==> age_text(secs) == decimal(n) + "s"@,
        0 < n < 60 && n * 60 <= secs < (n + 1) * 60 ==> age_text(secs) == decimal(n) + "m"@,
        0 < n < 24 && n * 3600 <= secs < (n + 1) * 3600 ==> age_text(secs) == decimal(n) + "h"@,
        0 < n && n * 86400 <= secs < (n + 1) * 86400 ==> age_text(secs) == decimal(n) + "d"@,
{
}

/// What is diagnosed is the verdict of the signals, whose counts and times are those of the
/// log.
pub proof fn law_diagnosis_is_the_verdict(
    input: &DoctorInputs,
    thresholds: &DoctorThresholds,
    r: Verdict,
    tasks: &[TaskLog],
    good: Option<Instant>,
    empty: usize,
)
    requires
        call_ensures(diagnose, (input, thresholds), r),
        call_ensures(last_good_ts, (tasks,), good),
        call_ensures(trailing_empty_count, (tasks,), empty),
    ensures
        r == verdict_of(*input, *thresholds),
        good == last_good(tasks@),
        empty == empty_tail(tasks@),
{
}

/// An operator is called for a hung, stuck or dead agent, and told to restart it; a stuck
/// one is to be looked at first. Of an idle or healthy one there is nothing to do.
pub proof fn law_only_problems_need_action(
    v: &Verdict,
    agent: &str,
    r: Option<String>,
    problem: bool,
)
    requires
        call_ensures(Verdict::recommended_action, (v, agent), r),
        call_ensures(Verdict::is_problem, (v,), problem),
    ensures
        problem <==> *v is Hung || *v is Stuck || *v is Dead,
        r is Some <==> problem,
        *v is Hung || *v is Dead ==> (r matches Some(c) && c@ == "deskd agent restart "@
            + agent@),
        *v is Stuck ==> (r matches Some(c) && c@ == "deskd agent stderr "@ + agent@
            + " && deskd agent restart "@ + agent@),
{
}

/// A completion without output tokens that took less than two seconds is empty; one that
/// cost something or has output tokens is good.
pub proof fn law_completions_by_their_numbers(t: &TaskLog, empty: bool, good: bool)
    requires
        call_ensures(is_empty_completion, (t,), empty),
        call_ensures(is_good_completion, (t,), good),
    ensures
        empty <==> t.duration_ms < 2_000 && (t.output_tokens is None || t.output_tokens == Some(
            0u64,
        )),
        good <==> t.cost_nanos > 0 || (t.output_tokens matches Some(n) && n > 0),
{
}

/// Nothing is counted where the last task cost something, took two seconds or has output, or
/// where there is no task.
pub proof fn law_no_run_no_count(tasks: &[TaskLog], r: usize)
    requires
        call_ensures(trailing_empty_count, (tasks,), r),
        tasks@.len() == 0 || tasks@.last().cost_nanos > 0 || tasks@.last().duration_ms >= 2_000 || (
        tasks@.last().output_tokens matches Some(n) && n > 0),
    ensures
        r == 0,
{
}

/// A verdict is shown by its own mark and name, and its signal names the numbers that it
/// rests on.
pub proof fn law_verdict_is_told_as_it_is(
    v: &Verdict,
    threshold: usize,
    glyph: &'static str,
    label: &'static str,
    signal: String,
)
    requires
        call_ensures(Verdict::glyph, (v,), glyph),
        call_ensures(Verdict::label, (v,), label),
        call_ensures(Verdict::signal, (v, threshold), signal),
    ensures
        v is Hung || v is Stuck || v is Dead ==> glyph@ == "🔴"@,
        v is Idle ==> glyph@ == "🟡"@,
        v is Healthy ==> glyph@ == "🟢"@,
        v is Hung ==> label@ == "hung"@,
        v is Stuck ==> label@ == "stuck"@,
        v is Dead ==> label@ == "dead"@,
        v is Idle ==> label@ == "idle"@,
        v is Healthy ==> label@ == "healthy"@,
        v matches Verdict::Hung { empty_count, .. } ==> (decimal(empty_count as nat) + "/"@
            + decimal(threshold as nat)).is_prefix_of(signal@),
        v matches Verdict::Stuck { queued_minutes } ==> signal@ == "queued "@ + signed_decimal(
            queued_minutes as int,
        ) + "m ago, no completion"@,
        v matches Verdict::Dead { pid } ==> signal@ == "state says alive but pid "@ + decimal(
            pid as nat,
        ) + " not found"@,
        v matches Verdict::Idle { last_good_age_secs } ==> signal@ == "no recent traffic ("@
            + age_text(*last_good_age_secs) + " since last good)"@,
{
    if let Verdict::Hung { empty_count, .. } = *v {
        let head = decimal(empty_count as nat) + "/"@ + decimal(threshold as nat);
        assert(signal@.subrange(0, head.len() as int) =~= head);
    }
}

} // verus!

//! State machines: models, instances and their history.

use crate::domain::task::TaskCriteria;
use crate::json::Json;
use crate::json::JsonView;
use crate::text::concat2;
use crate::text::opt_text;
use crate::text::text_eq;
use crate::text::texts;
use vstd::prelude::*;

verus! {

/// A model of a state machine.
#[derive(Debug, Clone)]
pub struct ModelDef {
    pub name: String,
    pub description: String,
    pub states: Vec<String>,
    pub initial: String,
    pub terminal: Vec<String>,
    pub transitions: Vec<TransitionDef>,
}

/// How a step is executed.
#[derive(Debug, Clone, Copy, PartialEq, Eq, Structural)]
pub enum StepType {
    /// By an agent.
    Agent,
    /// By a shell command, whose exit code 0 is a pass.
    Check,
    /// By a lightweight review with structured output.
    Validate,
    /// By a human.
    Human,
}

/// The name of a step type.
pub open spec fn step_name(t: StepType) -> Seq<char> {
    match t {
        StepType::Agent => "agent"@,
        StepType::Check => "check"@,
        StepType::Validate => "validate"@,
        StepType::Human => "human"@,
    }
}

impl Default for StepType {
    fn default() -> (r: Self)
        ensures
            r == StepType::Agent,
    {
        StepType::Agent
    }
}

/// A text in quotes, as the `Debug` of `str` writes it. It is named, since what is escaped
/// goes by the character tables of the standard library.
pub uninterp spec fn quoted(s: Seq<char>) -> Seq<char>;

/// Calls `format!` with `{:?}` on a text. The result is named.
#[verifier::external_body]
fn quote(s: &str) -> (r: String)
    ensures
        r@ == quoted(s@),
{
    format!("{:?}", s)
}

impl StepType {
    /// Reads the name of a step type.
    pub fn parse(s: &str) -> (r: Result<Self, String>)
        ensures
            match r {
                Ok(t) => s@ == step_name(t),
                Err(e) => (forall|t: StepType| #![trigger step_name(t)] s@ != step_name(t)) && e@
                    == "unknown step_type: "@ + quoted(s@),
            },
    {
        if text_eq(s, "agent") {
            Ok(StepType::Agent)
        } else if text_eq(s, "check") {
            Ok(StepType::Check)
        } else if text_eq(s, "validate") {
            Ok(StepType::Validate)
        } else if text_eq(s, "human") {
            Ok(StepType::Human)
        } else {
            Err(concat2("unknown step_type: ", quote(s).as_str()))
        }
    }

    /// The name of the step type.
    pub fn as_str(&self) -> (r: &'static str)
        ensures
            r@ == step_name(*self),
    {
        match self {
            StepType::Agent => "agent",
            StepType::Check => "check",
            StepType::Validate => "validate",
            StepType::Human => "human",
        }
    }
}

/// The names of step types are different: `parse` gives back what `as_str` wrote.
pub proof fn law_step_names_differ(a: StepType, b: StepType)
    requires
        step_name(a) == step_name(b),
    ensures
        a == b,
{
    reveal_strlit("agent");
    reveal_strlit("check");
    reveal_strlit("validate");
    reveal_strlit("human");
    assert("agent"@[0] == 'a');
    assert("check"@[0] == 'c');
    assert("validate"@[0] == 'v');
    assert("human"@[0] == 'h');
}

/// A transition between two states of a model.
#[derive(Debug, Clone)]
pub struct TransitionDef {
    pub from: String,
    pub to: String,
    pub trigger: Option<String>,
    pub on: Option<String>,
    pub assignee: Option<String>,
    pub prompt: Option<String>,
    pub step_type: StepType,
    /// The shell command of a check.
    pub command: Option<String>,
    pub notify: Option<String>,
    pub timeout: Option<String>,
    pub timeout_goto: Option<String>,
    /// Where set, the step becomes a task in the queue.
    pub criteria: Option<TaskCriteria>,
    /// How often a task of this transition is tried again.
    pub max_retries: u32,
}

/// A transition that was applied.
#[derive(Debug, Clone)]
pub struct Transition {
    pub from: String,
    pub to: String,
    pub trigger: String,
    pub timestamp: String,
    pub note: Option<String>,
    /// Cost of the step in billionths of a dollar.
    pub cost_nanos: Option<u64>,
    pub turns: Option<u32>,
    /// The task that was dispatched for the step.
    pub task_id: Option<String>,
}

#[verifier::ext_equal]
pub ghost struct TransitionView {
    pub from: Seq<char>,
    pub to: Seq<char>,
    pub trigger: Seq<char>,
    pub timestamp: Seq<char>,
    pub note: Option<Seq<char>>,
    pub cost_nanos: Option<u64>,
    pub turns: Option<u32>,
    pub task_id: Option<Seq<char>>,
}

impl View for Transition {
    type V = TransitionView;

    open spec fn view(&self) -> TransitionView {
        TransitionView {
            from: self.from@,
            to: self.to@,
            trigger: self.trigger@,
            timestamp: self.timestamp@,
            note: opt_text(self.note),
            cost_nanos: self.cost_nanos,
            turns: self.turns,
            task_id: opt_text(self.task_id),
        }
    }
}

pub open spec fn transition_views(v: Seq<Transition>) -> Seq<TransitionView> {
    Seq::new(v.len(), |i: int| v[i]@)
}

/// An instance of a model.
pub struct Instance {
    pub id: String,
    pub model: String,
    pub title: String,
    pub body: String,
    pub state: String,
    pub assignee: String,
    pub result: Option<String>,
    pub error: Option<String>,
    pub created_by: String,
    pub created_at: String,
    pub updated_at: String,
    pub history: Vec<Transition>,
    pub metadata: Json,
    /// Cost of all steps in billionths of a dollar.
    pub total_cost_nanos: u64,
    pub total_turns: u32,
    /// The tasks of the instance, oldest first.
    pub task_ids: Vec<String>,
}

#[verifier::ext_equal]
pub ghost struct InstanceView {
    pub id: Seq<char>,
    pub model: Seq<char>,
    pub title: Seq<char>,
    pub body: Seq<char>,
    pub state: Seq<char>,
    pub assignee: Seq<char>,
    pub result: Option<Seq<char>>,
    pub error: Option<Seq<char>>,
    pub created_by: Seq<char>,
    pub created_at: Seq<char>,
    pub updated_at: Seq<char>,
    pub history: Seq<TransitionView>,
    pub metadata: JsonView,
    pub total_cost_nanos: u64,
    pub total_turns: u32,
    pub task_ids: Seq<Seq<char>>,
}

impl View for Instance {
    type V = InstanceView;

    open spec fn view(&self) -> InstanceView {
        InstanceView {
            id: self.id@,
            model: self.model@,
            title: self.title@,
            body: self.body@,
            state: self.state@,
            assignee: self.assignee@,
            result: opt_text(self.result),
            error: opt_text(self.error),
            created_by: self.created_by@,
            created_at: self.created_at@,
            updated_at: self.updated_at@,
            history: transition_views(self.history@),
            metadata: self.metadata@,
            total_cost_nanos: self.total_cost_nanos,
            total_turns: self.total_turns,
            task_ids: texts(self.task_ids@),
        }
    }
}

/// The tasks with one more, unless it is among them.
pub open spec fn recorded(task_ids: Seq<Seq<char>>, id: Seq<char>) -> Seq<Seq<char>> {
    if task_ids.contains(id) {
        task_ids
    } else {
        task_ids.push(id)
    }
}

/// The task of the last transition.
pub open spec fn current_task(history: Seq<TransitionView>) -> Option<Seq<char>> {
    if history.len() == 0 {
        None
    } else {
        history.last().task_id
    }
}

impl Instance {
    /// Takes note of a task, once.
    pub fn record_task(&mut self, task_id: &str)
        ensures
            final(self)@ == (InstanceView {
                task_ids: recorded(old(self)@.task_ids, task_id@),
                ..old(self)@
            }),
    {
        let mut i: usize = 0;
        while i < self.task_ids.len()
            invariant
                *self == *old(self),
                i <= self.task_ids@.len(),
                forall|k: int| 0 <= k < i ==> (#[trigger] self.task_ids@[k])@ != task_id@,
            decreases self.task_ids@.len() - i,
        {
            if text_eq(self.task_ids[i].as_str(), task_id) {
                assert(texts(self.task_ids@)[i as int] == task_id@);
                return;
            }
            i += 1;
        }
        let ghost before = self.task_ids@;
        assert forall|k: int| 0 <= k < texts(before).len() implies texts(before)[k] != task_id@ by {
            assert(before[k]@ != task_id@);
        }
        self.task_ids.push(task_id.to_owned());
        assert(texts(self.task_ids@) =~= texts(before).push(task_id@));
    }

    /// The task of the last transition, if it has one.
    pub fn current_task_id(&self) -> (r: Option<&str>)
        ensures
            match r {
                Some(t) => current_task(self@.history) == Some(t@),
                None => current_task(self@.history) is None,
            },
    {
        let n: usize = self.history.len();
        if n == 0 {
            return None;
        }
        match &self.history[n - 1].task_id {
            Some(t) => Some(t.as_str()),
            None => None,
        }
    }
}

/// A task that was recorded stays recorded, and recording it again changes nothing.
pub proof fn law_record_once(task_ids: Seq<Seq<char>>, id: Seq<char>)
    ensures
        recorded(task_ids, id).contains(id),
        recorded(recorded(task_ids, id), id) == recorded(task_ids, id),
        forall|k: int| 0 <= k < task_ids.len() ==> recorded(task_ids, id)[k] == task_ids[k],
{
    if !task_ids.contains(id) {
        assert(task_ids.push(id)[task_ids.len() as int] == id);
    }
}

/// No task is recorded twice.
pub proof fn law_recorded_unique(task_ids: Seq<Seq<char>>, id: Seq<char>)
    requires
        task_ids.no_duplicates(),
    ensures
        recorded(task_ids, id).no_duplicates(),
{
    if !task_ids.contains(id) {
        assert forall|i: int, j: int|
            0 <= i < task_ids.push(id).len() && 0 <= j < task_ids.push(id).len() && i
                != j implies #[trigger] task_ids.push(id)[i] != #[trigger] task_ids.push(
            id,
        )[j] by {
            if i < task_ids.len() {
                assert(task_ids.contains(task_ids[i]));
            }
            if j < task_ids.len() {
                assert(task_ids.contains(task_ids[j]));
            }
        }
    }
}

/// A step type is read from its name, and from no other.
pub proof fn law_step_types_by_name(s: &str, r: Result<StepType, String>)
    requires
        call_ensures(StepType::parse, (s,), r),
    ensures
        s@ == "agent"@ <==> r == Ok::<StepType, String>(StepType::Agent),
        s@ == "check"@ <==> r == Ok::<StepType, String>(StepType::Check),
        s@ == "validate"@ <==> r == Ok::<StepType, String>(StepType::Validate),
        s@ == "human"@ <==> r == Ok::<StepType, String>(StepType::Human),
{
    if let Ok(t) = r {
        if s@ == "agent"@ {
            law_step_names_differ(t, StepType::Agent);
        }
        if s@ == "check"@ {
            law_step_names_differ(t, StepType::Check);
        }
        if s@ == "validate"@ {
            law_step_names_differ(t, StepType::Validate);
        }
        if s@ == "human"@ {
            law_step_names_differ(t, StepType::Human);
        }
    } else {
        assert(s@ != step_name(StepType::Agent));
        assert(s@ != step_name(StepType::Check));
        assert(s@ != step_name(StepType::Validate));
        assert(s@ != step_name(StepType::Human));
    }
}

/// A new task stands behind those that were recorded, and a known one changes nothing. All
/// else of the instance stays as it was.
pub proof fn law_task_is_recorded_last(inst: &mut Instance, task_id: &str)
    requires
        call_ensures(Instance::record_task, (inst, task_id), ()),
    ensures
        (forall|k: int|
            0 <= k < old(inst).task_ids@.len() ==> (#[trigger] old(inst).task_ids@[k])@
                != task_id@) ==> final(inst).task_ids@.len() == old(inst).task_ids@.len() + 1
            && final(inst).task_ids@.last()@ == task_id@,
        (exists|k: int|
            0 <= k < old(inst).task_ids@.len() && (#[trigger] old(inst).task_ids@[k])@ == task_id@)
            ==> final(inst).task_ids@.len() == old(inst).task_ids@.len(),
        forall|k: int|
            0 <= k < old(inst).task_ids@.len() ==> (#[trigger] final(inst).task_ids@[k])@
                == old(inst).task_ids@[k]@,
        final(inst).id@ == old(inst).id@,
        final(inst).state@ == old(inst).state@,
        final(inst).assignee@ == old(inst).assignee@,
        opt_text(final(inst).result) == opt_text(old(inst).result),
        opt_text(final(inst).error) == opt_text(old(inst).error),
        final(inst).updated_at@ == old(inst).updated_at@,
        transition_views(final(inst).history@) == transition_views(old(inst).history@),
        final(inst).total_cost_nanos == old(inst).total_cost_nanos,
        final(inst).total_turns == old(inst).total_turns,
{
    let before = texts(old(inst).task_ids@);
    let after = texts(final(inst).task_ids@);
    assert(after == recorded(before, task_id@));
    assert(after.len() == final(inst).task_ids@.len());
    assert(before.len() == old(inst).task_ids@.len());
    if exists|k: int|
        0 <= k < old(inst).task_ids@.len() && (#[trigger] old(inst).task_ids@[k])@ == task_id@ {
        let k = choose|k: int|
            0 <= k < old(inst).task_ids@.len() && (#[trigger] old(inst).task_ids@[k])@ == task_id@;
        assert(before[k] == task_id@);
    } else {
        assert forall|k: int| 0 <= k < before.len() implies before[k] != task_id@ by {
            assert(old(inst).task_ids@[k]@ != task_id@);
        }
        assert(after[before.len() as int] == final(inst).task_ids@[before.len() as int]@);
    }
    assert forall|k: int| 0 <= k < old(inst).task_ids@.len() implies (
    #[trigger] final(inst).task_ids@[k])@ == old(inst).task_ids@[k]@ by {
        assert(after[k] == before[k]);
    }
}

/// The current task is that of the last transition, and of no earlier one.
pub proof fn law_current_task_is_the_last(inst: &Instance, r: Option<&str>)
    requires
        call_ensures(Instance::current_task_id, (inst,), r),
    ensures
        inst.history@.len() == 0 ==> r is None,
        inst.history@.len() > 0 ==> match inst.history@.last().task_id {
            Some(t) => r matches Some(s) && s@ == t@,
            None => r is None,
        },
{
    if inst.history@.len() > 0 {
        assert(inst@.history.last() == inst.history@.last()@);
    }
}

} // verus!

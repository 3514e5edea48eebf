//! The restartable components of an agent, and how they are stopped.
//!
//! Each running task has a number. The methods say which tasks are to be cancelled or
//! aborted, and in which order; whoever holds the tasks does so.

use crate::text::concat3;
use crate::text::decimal;
use crate::text::format_usize;
use vstd::prelude::*;

verus! {

/// One step of a shutdown.
#[derive(Debug, Clone, Copy, PartialEq, Eq, Structural)]
pub enum StopStep {
    /// Ask the task to end.
    Cancel(u64),
    /// Wait a second for the tasks that were asked.
    Grace,
    /// End the task.
    Abort(u64),
}

/// The restartable components of an agent.
#[derive(Debug)]
pub struct AgentComponents {
    pub adapter_handles: Vec<u64>,
    /// What cancels the adapters, one each, in the same order.
    pub adapter_cancel_tokens: Vec<u64>,
    pub schedule_watcher: Option<u64>,
    pub config_watcher: Option<u64>,
    pub reminder_runner: Option<u64>,
    pub sub_agent_handles: Vec<u64>,
}

#[verifier::ext_equal]
pub ghost struct ComponentsView {
    pub adapters: Seq<u64>,
    pub tokens: Seq<u64>,
    pub schedule_watcher: Option<u64>,
    pub config_watcher: Option<u64>,
    pub reminder_runner: Option<u64>,
    pub sub_agents: Seq<u64>,
}

impl View for AgentComponents {
    type V = ComponentsView;

    open spec fn view(&self) -> ComponentsView {
        ComponentsView {
            adapters: self.adapter_handles@,
            tokens: self.adapter_cancel_tokens@,
            schedule_watcher: self.schedule_watcher,
            config_watcher: self.config_watcher,
            reminder_runner: self.reminder_runner,
            sub_agents: self.sub_agent_handles@,
        }
    }
}

/// Components of which none runs.
pub open spec fn no_components() -> ComponentsView {
    ComponentsView {
        adapters: Seq::empty(),
        tokens: Seq::empty(),
        schedule_watcher: None,
        config_watcher: None,
        reminder_runner: None,
        sub_agents: Seq::empty(),
    }
}

pub open spec fn cancels(tokens: Seq<u64>) -> Seq<StopStep> {
    Seq::new(tokens.len(), |i: int| StopStep::Cancel(tokens[i]))
}

pub open spec fn aborts(handles: Seq<u64>) -> Seq<StopStep> {
    Seq::new(handles.len(), |i: int| StopStep::Abort(handles[i]))
}

pub open spec fn abort_one(handle: Option<u64>) -> Seq<StopStep> {
    match handle {
        Some(h) => seq![StopStep::Abort(h)],
        None => Seq::empty(),
    }
}

/// The steps that stop the adapters: all are asked to end, given a second if there is
/// any, and then ended.
pub open spec fn adapter_steps(c: ComponentsView) -> Seq<StopStep> {
    cancels(c.tokens) + (if c.adapters.len() > 0 {
        seq![StopStep::Grace]
    } else {
        Seq::empty()
    }) + aborts(c.adapters)
}

/// The steps that stop the schedules.
pub open spec fn schedule_steps(c: ComponentsView) -> Seq<StopStep> {
    abort_one(c.schedule_watcher) + abort_one(c.reminder_runner)
}

/// The steps that stop everything: the adapters first, then the rest at once.
pub open spec fn all_steps(c: ComponentsView) -> Seq<StopStep> {
    adapter_steps(c) + abort_one(c.schedule_watcher) + abort_one(c.config_watcher) + abort_one(
        c.reminder_runner,
    ) + aborts(c.sub_agents)
}

fn push_cancels(out: &mut Vec<StopStep>, tokens: &Vec<u64>)
    ensures
        final(out)@ == old(out)@ + cancels(tokens@),
{
    let mut i: usize = 0;
    while i < tokens.len()
        invariant
            i <= tokens@.len(),
            out@ =~= old(out)@ + cancels(tokens@).take(i as int),
        decreases tokens@.len() - i,
    {
        out.push(StopStep::Cancel(tokens[i]));
        i += 1;
    }
    assert(cancels(tokens@).take(tokens@.len() as int) =~= cancels(tokens@));
}

fn push_aborts(out: &mut Vec<StopStep>, handles: &Vec<u64>)
    ensures
        final(out)@ == old(out)@ + aborts(handles@),
{
    let mut i: usize = 0;
    while i < handles.len()
        invariant
            i <= handles@.len(),
            out@ =~= old(out)@ + aborts(handles@).take(i as int),
        decreases handles@.len() - i,
    {
        out.push(StopStep::Abort(handles[i]));
        i += 1;
    }
    assert(aborts(handles@).take(handles@.len() as int) =~= aborts(handles@));
}

fn push_abort(out: &mut Vec<StopStep>, handle: Option<u64>)
    ensures
        final(out)@ == old(out)@ + abort_one(handle),
{
    match handle {
        Some(h) => {
            out.push(StopStep::Abort(h));
            assert(out@ =~= old(out)@ + abort_one(handle));
        },
        None => {
            assert(out@ =~= old(out)@ + abort_one(handle));
        },
    }
}

impl AgentComponents {
    /// Components of which none runs.
    pub fn new() -> (r: Self)
        ensures
            r@ == no_components(),
    {
        let r = AgentComponents {
            adapter_handles: Vec::new(),
            adapter_cancel_tokens: Vec::new(),
            schedule_watcher: None,
            config_watcher: None,
            reminder_runner: None,
            sub_agent_handles: Vec::new(),
        };
        assert(r@ =~= no_components());
        r
    }

    /// Stops the adapters; the other components stay.
    pub fn abort_adapters(&mut self) -> (r: Vec<StopStep>)
        ensures
            r@ == adapter_steps(old(self)@),
            final(self)@ == (ComponentsView {
                adapters: Seq::empty(),
                tokens: Seq::empty(),
                ..old(self)@
            }),
    {
        let mut out: Vec<StopStep> = Vec::new();
        push_cancels(&mut out, &self.adapter_cancel_tokens);
        if self.adapter_handles.len() > 0 {
            out.push(StopStep::Grace);
        }
        let ghost head = out@;
        push_aborts(&mut out, &self.adapter_handles);
        self.adapter_handles = Vec::new();
        self.adapter_cancel_tokens = Vec::new();
        assert(out@ =~= adapter_steps(old(self)@));
        assert(self@ =~= (ComponentsView {
            adapters: Seq::empty(),
            tokens: Seq::empty(),
            ..old(self)@
        }));
        out
    }

    /// Stops the schedule watcher and the reminders; the other components stay.
    pub fn abort_schedules(&mut self) -> (r: Vec<StopStep>)
        ensures
            r@ == schedule_steps(old(self)@),
            final(self)@ == (ComponentsView {
                schedule_watcher: None,
                reminder_runner: None,
                ..old(self)@
            }),
    {
        let mut out: Vec<StopStep> = Vec::new();
        push_abort(&mut out, self.schedule_watcher);
        push_abort(&mut out, self.reminder_runner);
        self.schedule_watcher = None;
        self.reminder_runner = None;
        assert(out@ =~= schedule_steps(old(self)@));
        out
    }

    /// Stops the sub-agents; the other components stay.
    pub fn abort_sub_agents(&mut self) -> (r: Vec<StopStep>)
        ensures
            r@ == aborts(old(self)@.sub_agents),
            final(self)@ == (ComponentsView { sub_agents: Seq::empty(), ..old(self)@ }),
    {
        let mut out: Vec<StopStep> = Vec::new();
        push_aborts(&mut out, &self.sub_agent_handles);
        self.sub_agent_handles = Vec::new();
        assert(out@ =~= aborts(old(self)@.sub_agents));
        assert(self@ =~= (ComponentsView { sub_agents: Seq::empty(), ..old(self)@ }));
        out
    }

    /// Stops everything.
    pub fn abort_all(&mut self) -> (r: Vec<StopStep>)
        ensures
            r@ == all_steps(old(self)@),
            final(self)@ == no_components(),
    {
        let mut out = self.abort_adapters();
        push_abort(&mut out, self.schedule_watcher);
        push_abort(&mut out, self.config_watcher);
        push_abort(&mut out, self.reminder_runner);
        push_aborts(&mut out, &self.sub_agent_handles);
        self.schedule_watcher = None;
        self.config_watcher = None;
        self.reminder_runner = None;
        self.sub_agent_handles = Vec::new();
        assert(self@ =~= no_components());
        out
    }

    /// Adds an adapter with what cancels it.
    pub fn add_adapter(&mut self, handle: u64, token: u64)
        ensures
            final(self)@ == (ComponentsView {
                adapters: old(self)@.adapters.push(handle),
                tokens: old(self)@.tokens.push(token),
                ..old(self)@
            }),
    {
        self.adapter_handles.push(handle);
        self.adapter_cancel_tokens.push(token);
    }

    /// The components in numbers.
    pub fn summary(&self) -> (r: String)
        ensures
            r@ == "adapters="@ + decimal(self@.adapters.len()) + ", schedules="@ + (
            if self@.schedule_watcher is Some {
                "1"@
            } else {
                "0"@
            }) + ", sub_agents="@ + decimal(self@.sub_agents.len()),
    {
        let adapters = format_usize(self.adapter_handles.len());
        let mut out = concat3("adapters=", adapters.as_str(), ", schedules=");
        out.append(if self.schedule_watcher.is_some() { "1" } else { "0" });
        out.append(", sub_agents=");
        let subs = format_usize(self.sub_agent_handles.len());
        out.append(subs.as_str());
        out
    }
}

/// A component to be started.
#[derive(Debug, Clone, Copy, PartialEq, Eq, Structural)]
pub enum StartStep {
    /// The adapters of the configuration, each with what cancels it.
    Adapters,
    ScheduleWatcher,
    /// The watcher that hands a new prompt to the session.
    ConfigWatcher,
    ReminderRunner,
    /// The worker of the sub-agent at that place of the configuration.
    SubAgent(usize),
}

/// The components once the one of the step runs. Adapters are added one by one.
pub open spec fn with_started(c: ComponentsView, step: StartStep, handle: u64) -> ComponentsView {
    match step {
        StartStep::Adapters => c,
        StartStep::ScheduleWatcher => ComponentsView { schedule_watcher: Some(handle), ..c },
        StartStep::ConfigWatcher => ComponentsView { config_watcher: Some(handle), ..c },
        StartStep::ReminderRunner => ComponentsView { reminder_runner: Some(handle), ..c },
        StartStep::SubAgent(_) => ComponentsView { sub_agents: c.sub_agents.push(handle), ..c },
    }
}

/// The components once those of the steps run, each as the task of the same place.
pub open spec fn with_all_started(
    c: ComponentsView,
    steps: Seq<StartStep>,
    handles: Seq<u64>,
) -> ComponentsView
    decreases steps.len(),
{
    if steps.len() == 0 {
        c
    } else {
        with_started(
            with_all_started(c, steps.drop_last(), handles),
            steps.last(),
            handles[steps.len() - 1],
        )
    }
}

impl AgentComponents {
    /// Takes note of the task that runs the component of a step.
    pub fn started(&mut self, step: StartStep, handle: u64)
        ensures
            final(self)@ == with_started(old(self)@, step, handle),
    {
        match step {
            StartStep::Adapters => {},
            StartStep::ScheduleWatcher => {
                self.schedule_watcher = Some(handle);
            },
            StartStep::ConfigWatcher => {
                self.config_watcher = Some(handle);
            },
            StartStep::ReminderRunner => {
                self.reminder_runner = Some(handle);
            },
            StartStep::SubAgent(_) => {
                self.sub_agent_handles.push(handle);
            },
        }
        assert(self@ =~= with_started(old(self)@, step, handle));
    }
}

/// Whether the steps end the task.
pub open spec fn ends(steps: Seq<StopStep>, handle: u64) -> bool {
    exists|i: int| 0 <= i < steps.len() && #[trigger] steps[i] == StopStep::Abort(handle)
}

/// Whether a task is one of the components.
pub open spec fn runs(c: ComponentsView, handle: u64) -> bool {
    c.adapters.contains(handle) || c.schedule_watcher == Some(handle) || c.config_watcher == Some(
        handle,
    ) || c.reminder_runner == Some(handle) || c.sub_agents.contains(handle)
}

/// Stopping everything ends every task that ran, and no other.
pub proof fn law_abort_all_ends_all(c: ComponentsView, handle: u64)
    ensures
        ends(all_steps(c), handle) <==> runs(c, handle),
{
    let a = cancels(c.tokens) + (if c.adapters.len() > 0 {
        seq![StopStep::Grace]
    } else {
        Seq::empty()
    });
    let s1 = a.len() as int;
    let s2 = s1 + c.adapters.len();
    let s3 = s2 + abort_one(c.schedule_watcher).len();
    let s4 = s3 + abort_one(c.config_watcher).len();
    let s5 = s4 + abort_one(c.reminder_runner).len();
    let steps = all_steps(c);
    if runs(c, handle) {
        if c.adapters.contains(handle) {
            let k = choose|k: int| 0 <= k < c.adapters.len() && c.adapters[k] == handle;
            assert(steps[s1 + k] == StopStep::Abort(handle));
        } else if c.schedule_watcher == Some(handle) {
            assert(steps[s2] == StopStep::Abort(handle));
        } else if c.config_watcher == Some(handle) {
            assert(steps[s3] == StopStep::Abort(handle));
        } else if c.reminder_runner == Some(handle) {
            assert(steps[s4] == StopStep::Abort(handle));
        } else {
            let k = choose|k: int| 0 <= k < c.sub_agents.len() && c.sub_agents[k] == handle;
            assert(steps[s5 + k] == StopStep::Abort(handle));
        }
    }
    if ends(steps, handle) {
        let i = choose|i: int| 0 <= i < steps.len() && #[trigger] steps[i] == StopStep::Abort(
            handle,
        );
        if i < s1 {
            assert(steps[i] == a[i]);
            assert(a[i] is Cancel || a[i] is Grace);
        } else if i < s2 {
            assert(c.adapters[i - s1] == handle);
        } else if i >= s5 {
            assert(c.sub_agents[i - s5] == handle);
        }
    }
}

/// An adapter is asked to end before any adapter is ended.
pub proof fn law_cancel_before_abort(c: ComponentsView, i: int, j: int)
    requires
        0 <= i < adapter_steps(c).len(),
        0 <= j < adapter_steps(c).len(),
        adapter_steps(c)[i] is Cancel,
        adapter_steps(c)[j] is Abort,
    ensures
        i < j,
{
}

/// Whether the steps ask for the token's task to end.
pub open spec fn asks(steps: Seq<StopStep>, token: u64) -> bool {
    exists|i: int| 0 <= i < steps.len() && #[trigger] steps[i] == StopStep::Cancel(token)
}

proof fn lemma_cancels_found(c: ComponentsView, token: u64)
    ensures
        asks(adapter_steps(c), token) <==> c.tokens.contains(token),
        asks(all_steps(c), token) <==> c.tokens.contains(token),
{
    let steps = adapter_steps(c);
    let all = all_steps(c);
    if c.tokens.contains(token) {
        let k = choose|k: int| 0 <= k < c.tokens.len() && c.tokens[k] == token;
        assert(steps[k] == StopStep::Cancel(token));
        assert(all[k] == StopStep::Cancel(token));
    }
    if asks(steps, token) {
        let i = choose|i: int| 0 <= i < steps.len() && #[trigger] steps[i] == StopStep::Cancel(
            token,
        );
        assert(i < c.tokens.len());
        assert(c.tokens[i] == token);
    }
    if asks(all, token) {
        let i = choose|i: int| 0 <= i < all.len() && #[trigger] all[i] == StopStep::Cancel(token);
        assert(i < c.tokens.len());
        assert(c.tokens[i] == token);
    }
}

/// Stopping the adapters asks each of them to end, and then ends each of them, with a
/// second in between if there is any. It ends nothing else, and nothing else is forgotten.
pub proof fn law_adapters_are_stopped(c: &mut AgentComponents, r: Vec<StopStep>)
    requires
        call_ensures(AgentComponents::abort_adapters, (c,), r),
    ensures
        forall|t: u64| old(c).adapter_cancel_tokens@.contains(t) <==> #[trigger] asks(r@, t),
        forall|h: u64| old(c).adapter_handles@.contains(h) <==> #[trigger] ends(r@, h),
        old(c).adapter_handles@.len() > 0 <==> r@.contains(StopStep::Grace),
        forall|i: int, j: int|
            0 <= i < r@.len() && 0 <= j < r@.len() && !(#[trigger] r@[i] is Abort)
                && #[trigger] r@[j] is Abort ==> i < j,
        final(c).adapter_handles@.len() == 0,
        final(c).adapter_cancel_tokens@.len() == 0,
        final(c).schedule_watcher == old(c).schedule_watcher,
        final(c).config_watcher == old(c).config_watcher,
        final(c).reminder_runner == old(c).reminder_runner,
        final(c).sub_agent_handles@ == old(c).sub_agent_handles@,
{
    let v = old(c)@;
    let steps = adapter_steps(v);
    assert forall|t: u64| old(c).adapter_cancel_tokens@.contains(t) <==> #[trigger] asks(
        r@,
        t,
    ) by {
        lemma_cancels_found(v, t);
    }
    let n = v.tokens.len() as int;
    let g = if v.adapters.len() > 0 {
        1int
    } else {
        0int
    };
    assert forall|h: u64| old(c).adapter_handles@.contains(h) <==> #[trigger] ends(r@, h) by {
        if v.adapters.contains(h) {
            let k = choose|k: int| 0 <= k < v.adapters.len() && v.adapters[k] == h;
            assert(steps[n + g + k] == StopStep::Abort(h));
        }
        if ends(r@, h) {
            let i = choose|i: int| 0 <= i < steps.len() && #[trigger] steps[i] == StopStep::Abort(
                h,
            );
            assert(i >= n + g);
            assert(v.adapters[i - n - g] == h);
        }
    }
    if v.adapters.len() > 0 {
        assert(steps[n] == StopStep::Grace);
    }
}

/// Stopping the schedules ends the schedule watcher and the reminders, and nothing else.
pub proof fn law_schedules_are_stopped(c: &mut AgentComponents, r: Vec<StopStep>)
    requires
        call_ensures(AgentComponents::abort_schedules, (c,), r),
    ensures
        forall|h: u64| #[trigger]
            ends(r@, h) <==> old(c).schedule_watcher == Some(h) || old(c).reminder_runner == Some(
                h,
            ),
        final(c).schedule_watcher is None,
        final(c).reminder_runner is None,
        final(c).config_watcher == old(c).config_watcher,
        final(c).adapter_handles@ == old(c).adapter_handles@,
        final(c).adapter_cancel_tokens@ == old(c).adapter_cancel_tokens@,
        final(c).sub_agent_handles@ == old(c).sub_agent_handles@,
{
    let v = old(c)@;
    let steps = schedule_steps(v);
    assert forall|h: u64| #[trigger]
        ends(r@, h) <==> old(c).schedule_watcher == Some(h) || old(c).reminder_runner == Some(
            h,
        ) by {
        let n = abort_one(v.schedule_watcher).len() as int;
        if v.schedule_watcher == Some(h) {
            assert(steps[0] == StopStep::Abort(h));
        }
        if v.reminder_runner == Some(h) {
            assert(steps[n] == StopStep::Abort(h));
        }
    }
}

/// Stopping the sub-agents ends each of them, and nothing else.
pub proof fn law_sub_agents_are_stopped(c: &mut AgentComponents, r: Vec<StopStep>)
    requires
        call_ensures(AgentComponents::abort_sub_agents, (c,), r),
    ensures
        r@.len() == old(c).sub_agent_handles@.len(),
        forall|i: int|
            0 <= i < r@.len() ==> #[trigger] r@[i] == StopStep::Abort(
                old(c).sub_agent_handles@[i],
            ),
        final(c).sub_agent_handles@.len() == 0,
        final(c).schedule_watcher == old(c).schedule_watcher,
        final(c).reminder_runner == old(c).reminder_runner,
        final(c).config_watcher == old(c).config_watcher,
        final(c).adapter_handles@ == old(c).adapter_handles@,
        final(c).adapter_cancel_tokens@ == old(c).adapter_cancel_tokens@,
{
}

/// Stopping everything asks each adapter to end, ends every task, and leaves nothing that
/// runs.
pub proof fn law_everything_is_stopped(c: &mut AgentComponents, r: Vec<StopStep>)
    requires
        call_ensures(AgentComponents::abort_all, (c,), r),
    ensures
        forall|t: u64| old(c).adapter_cancel_tokens@.contains(t) <==> #[trigger] asks(r@, t),
        forall|h: u64| #[trigger]
            ends(r@, h) <==> old(c).adapter_handles@.contains(h) || old(c).schedule_watcher == Some(
                h,
            ) || old(c).config_watcher == Some(h) || old(c).reminder_runner == Some(h)
                || old(c).sub_agent_handles@.contains(h),
        final(c).adapter_handles@.len() == 0,
        final(c).adapter_cancel_tokens@.len() == 0,
        final(c).schedule_watcher is None,
        final(c).config_watcher is None,
        final(c).reminder_runner is None,
        final(c).sub_agent_handles@.len() == 0,
{
    let v = old(c)@;
    assert forall|t: u64| old(c).adapter_cancel_tokens@.contains(t) <==> #[trigger] asks(
        r@,
        t,
    ) by {
        lemma_cancels_found(v, t);
    }
    assert forall|h: u64| #[trigger]
        ends(r@, h) <==> old(c).adapter_handles@.contains(h) || old(c).schedule_watcher == Some(h)
            || old(c).config_watcher == Some(h) || old(c).reminder_runner == Some(h)
            || old(c).sub_agent_handles@.contains(h) by {
        law_abort_all_ends_all(v, h);
    }
}

/// An adapter that was added is the last one, with what cancels it.
pub proof fn law_adapter_is_added(c: &mut AgentComponents, handle: u64, token: u64)
    requires
        call_ensures(AgentComponents::add_adapter, (c, handle, token), ()),
    ensures
        final(c).adapter_handles@ == old(c).adapter_handles@.push(handle),
        final(c).adapter_cancel_tokens@ == old(c).adapter_cancel_tokens@.push(token),
        final(c).schedule_watcher == old(c).schedule_watcher,
        final(c).config_watcher == old(c).config_watcher,
        final(c).reminder_runner == old(c).reminder_runner,
        final(c).sub_agent_handles@ == old(c).sub_agent_handles@,
{
}

/// What was started is noted as what it is, and as nothing else.
pub proof fn law_started_as_what_it_is(c: &mut AgentComponents, step: StartStep, handle: u64)
    requires
        call_ensures(AgentComponents::started, (c, step, handle), ()),
    ensures
        final(c).schedule_watcher == if step is ScheduleWatcher {
            Some(handle)
        } else {
            old(c).schedule_watcher
        },
        final(c).config_watcher == if step is ConfigWatcher {
            Some(handle)
        } else {
            old(c).config_watcher
        },
        final(c).reminder_runner == if step is ReminderRunner {
            Some(handle)
        } else {
            old(c).reminder_runner
        },
        final(c).sub_agent_handles@ == if step is SubAgent {
            old(c).sub_agent_handles@.push(handle)
        } else {
            old(c).sub_agent_handles@
        },
        final(c).adapter_handles@ == old(c).adapter_handles@,
        final(c).adapter_cancel_tokens@ == old(c).adapter_cancel_tokens@,
{
}

} // verus!

//! Token usage and cost, per agent and over all.
//!
//! A task that an agent did for another counts for both of them; in the totals
//! it counts once.

use crate::app::clock::Instant;
use crate::app::clock::SECS_LIMIT;
use crate::app::clock::second_of_day;
use crate::app::tasklog::TaskLog;
use crate::app::tasklog::count;
use crate::app::tasklog::count_of;
use crate::app::tasklog::small_count;
use crate::app::tasklog::small_count_of;
use crate::text::CharClass;
use crate::text::align_left;
use crate::text::align_right;
use crate::text::ascending;
use crate::text::concat2;
use crate::text::concat3;
use crate::text::decimal;
use crate::text::format_u64;
use crate::text::format_usize;
use crate::text::is_digit;
use crate::text::law_columns_are_filled;
use crate::text::law_placed_adds_one;
use crate::text::lemma_decimal_value;
use crate::text::lemma_placed_ascending;
use crate::text::lemma_signed_decimal_parses;
use crate::text::opt_text;
use crate::text::parse_i64;
use crate::text::parsed_i64;
use crate::text::place;
use crate::text::placed;
use crate::text::repeated;
use crate::text::signed_decimal;
use crate::text::text_eq;
use crate::text::texts;
use crate::text::to_chars;
use crate::text::to_left;
use crate::text::to_right;
use crate::text::trim_end;
use crate::text::trimmed_end;
use crate::text_map::TextMap;
use vstd::prelude::*;

verus! {

/// A task log entry, with the agent that ran the task.
#[derive(Debug, Clone)]
pub struct AgentEntry {
    pub agent: String,
    pub log: TaskLog,
}

/// Sums over the tasks of one agent.
#[derive(Debug, Clone)]
pub struct AgentStats {
    pub agent: String,
    pub tasks: usize,
    pub cost_nanos: u64,
    pub turns: u32,
    pub input_tokens: u64,
    pub output_tokens: u64,
    pub cache_creation_input_tokens: u64,
    pub cache_read_input_tokens: u64,
    pub duration_ms: u64,
    /// Number of sessions started.
    pub sessions: u32,
    /// Number of tools used.
    pub tool_calls: u32,
    /// Input and output tokens per task.
    pub avg_tokens_per_task: u64,
}

/// Sums over all tasks.
#[derive(Debug, Clone)]
pub struct UsageStats {
    pub period: String,
    pub total_tasks: usize,
    pub total_cost_nanos: u64,
    pub total_turns: u32,
    pub total_input_tokens: u64,
    pub total_output_tokens: u64,
    pub total_cache_creation_input_tokens: u64,
    pub total_cache_read_input_tokens: u64,
    pub total_duration_ms: u64,
    pub total_sessions: u32,
    pub total_tool_calls: u32,
    /// The agents, the costliest first.
    pub by_agent: Vec<AgentStats>,
}

// ─── Sums ───────────────────────────────────────────────────────────────────

/// Sums over tasks.
pub ghost struct Sums {
    pub tasks: nat,
    pub cost: nat,
    pub turns: nat,
    pub input: nat,
    pub output: nat,
    pub cache_creation: nat,
    pub cache_read: nat,
    pub duration: nat,
    pub sessions: nat,
    pub tools: nat,
}

pub open spec fn no_sums() -> Sums {
    Sums {
        tasks: 0,
        cost: 0,
        turns: 0,
        input: 0,
        output: 0,
        cache_creation: 0,
        cache_read: 0,
        duration: 0,
        sessions: 0,
        tools: 0,
    }
}

/// The sums with one more task.
pub open spec fn with_task(s: Sums, t: TaskLog) -> Sums {
    Sums {
        tasks: s.tasks + 1,
        cost: s.cost + t.cost_nanos as nat,
        turns: s.turns + t.turns as nat,
        input: s.input + count_of(t.input_tokens),
        output: s.output + count_of(t.output_tokens),
        cache_creation: s.cache_creation + count_of(t.cache_creation_input_tokens),
        cache_read: s.cache_read + count_of(t.cache_read_input_tokens),
        duration: s.duration + t.duration_ms as nat,
        sessions: s.sessions + small_count_of(t.session_count),
        tools: s.tools + small_count_of(t.tool_use_count),
    }
}

/// Whether the task counts for the agent: it ran the task, or delegated it.
pub open spec fn counts_for(e: AgentEntry, agent: Seq<char>) -> bool {
    e.agent@ == agent || (e.log.parent_agent matches Some(p) && p@ == agent)
}

/// The sums over all entries.
pub open spec fn totals(entries: Seq<AgentEntry>) -> Sums
    decreases entries.len(),
{
    if entries.len() == 0 {
        no_sums()
    } else {
        with_task(totals(entries.drop_last()), entries.last().log)
    }
}

/// The sums over the entries that count for the agent.
pub open spec fn agent_sums(entries: Seq<AgentEntry>, agent: Seq<char>) -> Sums
    decreases entries.len(),
{
    if entries.len() == 0 {
        no_sums()
    } else {
        let front = agent_sums(entries.drop_last(), agent);
        if counts_for(entries.last(), agent) {
            with_task(front, entries.last().log)
        } else {
            front
        }
    }
}

/// Whether some entry counts for the agent.
pub open spec fn has_bucket(entries: Seq<AgentEntry>, agent: Seq<char>) -> bool {
    exists|i: int| 0 <= i < entries.len() && counts_for(#[trigger] entries[i], agent)
}

pub open spec fn at_most(a: Sums, b: Sums) -> bool {
    &&& a.tasks <= b.tasks
    &&& a.cost <= b.cost
    &&& a.turns <= b.turns
    &&& a.input <= b.input
    &&& a.output <= b.output
    &&& a.cache_creation <= b.cache_creation
    &&& a.cache_read <= b.cache_read
    &&& a.duration <= b.duration
    &&& a.sessions <= b.sessions
    &&& a.tools <= b.tools
}

/// Whether the sums fit in the counters.
pub open spec fn countable(s: Sums) -> bool {
    &&& s.tasks <= usize::MAX
    &&& s.cost <= u64::MAX
    &&& s.turns <= u32::MAX
    &&& s.input <= u64::MAX
    &&& s.output <= u64::MAX
    &&& s.cache_creation <= u64::MAX
    &&& s.cache_read <= u64::MAX
    &&& s.duration <= u64::MAX
    &&& s.sessions <= u32::MAX
    &&& s.tools <= u32::MAX
}

/// Whether the tokens of every agent, input and output together, fit in a counter.
pub open spec fn tokens_countable(entries: Seq<AgentEntry>) -> bool {
    forall|agent: Seq<char>|
        (#[trigger] agent_sums(entries, agent)).input + agent_sums(entries, agent).output
            <= u64::MAX
}

/// Whether all numbers of the report fit in the counters.
pub open spec fn reportable(entries: Seq<AgentEntry>) -> bool {
    countable(totals(entries)) && tokens_countable(entries)
}

pub open spec fn sums_of(s: AgentStats) -> Sums {
    Sums {
        tasks: s.tasks as nat,
        cost: s.cost_nanos as nat,
        turns: s.turns as nat,
        input: s.input_tokens as nat,
        output: s.output_tokens as nat,
        cache_creation: s.cache_creation_input_tokens as nat,
        cache_read: s.cache_read_input_tokens as nat,
        duration: s.duration_ms as nat,
        sessions: s.sessions as nat,
        tools: s.tool_calls as nat,
    }
}

pub open spec fn totals_of(s: UsageStats) -> Sums {
    Sums {
        tasks: s.total_tasks as nat,
        cost: s.total_cost_nanos as nat,
        turns: s.total_turns as nat,
        input: s.total_input_tokens as nat,
        output: s.total_output_tokens as nat,
        cache_creation: s.total_cache_creation_input_tokens as nat,
        cache_read: s.total_cache_read_input_tokens as nat,
        duration: s.total_duration_ms as nat,
        sessions: s.total_sessions as nat,
        tools: s.total_tool_calls as nat,
    }
}

/// What an agent gets never exceeds the totals.
pub proof fn law_agent_at_most_totals(entries: Seq<AgentEntry>, agent: Seq<char>)
    ensures
        at_most(agent_sums(entries, agent), totals(entries)),
    decreases entries.len(),
{
    if entries.len() > 0 {
        law_agent_at_most_totals(entries.drop_last(), agent);
    }
}

/// A task counts once in the totals, whoever delegated it.
pub proof fn law_totals_count_once(entries: Seq<AgentEntry>)
    ensures
        totals(entries).tasks == entries.len(),
    decreases entries.len(),
{
    if entries.len() > 0 {
        law_totals_count_once(entries.drop_last());
    }
}

/// A delegated task counts in full for the agent that ran it and for the one that
/// delegated it, and for no other.
pub proof fn law_delegation_counts_for_both(
    entries: Seq<AgentEntry>,
    e: AgentEntry,
    agent: Seq<char>,
)
    ensures
        agent_sums(entries.push(e), agent) == if agent == e.agent@ || (
        e.log.parent_agent matches Some(p) && p@ == agent) {
            with_task(agent_sums(entries, agent), e.log)
        } else {
            agent_sums(entries, agent)
        },
{
    assert(entries.push(e).drop_last() =~= entries);
}

/// A report on an agent for which nothing counts is empty, whatever the others did.
pub proof fn law_unknown_agent_gives_nothing(
    entries: Seq<AgentEntry>,
    agent: &str,
    list: Seq<AgentStats>,
)
    requires
        !has_bucket(entries, agent@),
        ranking(list, entries, Some(agent)),
    ensures
        report_totals(entries, Some(agent)) == no_sums(),
        list.len() == 0,
{
    lemma_no_bucket(entries, agent@);
    if list.len() > 0 {
        assert(has_bucket(entries, list[0].agent@) && list[0].agent@ == agent@);
    }
}

/// A report on one agent has at most one row, and its totals are those of the row.
pub proof fn law_filtered_totals_are_the_row(
    entries: Seq<AgentEntry>,
    agent: &str,
    list: Seq<AgentStats>,
)
    requires
        has_bucket(entries, agent@),
        ranking(list, entries, Some(agent)),
    ensures
        list.len() == 1,
        sums_of(list[0]) == report_totals(entries, Some(agent)),
{
    assert(shown(Some(agent), agent@));
    let i = choose|i: int| 0 <= i < list.len() && (#[trigger] list[i]).agent@ == agent@;
    assert(row_of(entries, list[i]));
    if list.len() > 1 {
        assert(list[0].agent@ == agent@ && list[1].agent@ == agent@);
    }
}

proof fn lemma_totals_grow(entries: Seq<AgentEntry>, k: int)
    requires
        0 <= k <= entries.len(),
    ensures
        at_most(totals(entries.take(k)), totals(entries)),
    decreases entries.len(),
{
    if k == entries.len() {
        assert(entries.take(k) =~= entries);
    } else {
        assert(entries.drop_last().take(k) =~= entries.take(k));
        lemma_totals_grow(entries.drop_last(), k);
    }
}

/// An agent for which nothing counts has no sums.
proof fn lemma_no_bucket(entries: Seq<AgentEntry>, agent: Seq<char>)
    ensures
        !has_bucket(entries, agent) ==> agent_sums(entries, agent) == no_sums(),
        has_bucket(entries, agent) ==> agent_sums(entries, agent).tasks > 0,
    decreases entries.len(),
{
    if entries.len() > 0 {
        let front = entries.drop_last();
        lemma_no_bucket(front, agent);
        if has_bucket(front, agent) {
            let i = choose|i: int| 0 <= i < front.len() && counts_for(#[trigger] front[i], agent);
            assert(counts_for(entries[i], agent));
        }
        if counts_for(entries.last(), agent) {
            assert(counts_for(entries[entries.len() - 1], agent));
        }
        if has_bucket(entries, agent) && !counts_for(entries.last(), agent) {
            let i = choose|i: int|
                0 <= i < entries.len() && counts_for(#[trigger] entries[i], agent);
            assert(counts_for(front[i], agent));
        }
    }
}

// ─── Attribution ────────────────────────────────────────────────────────────

/// The sums that the map holds for the agent.
pub open spec fn bucket(m: Map<Seq<char>, AgentStats>, agent: Seq<char>) -> Sums {
    if m.contains_key(agent) {
        sums_of(m[agent])
    } else {
        no_sums()
    }
}

fn fresh_stats(agent: &str) -> (r: AgentStats)
    ensures
        r.agent@ == agent@,
        sums_of(r) == no_sums(),
        r.avg_tokens_per_task == 0,
{
    AgentStats {
        agent: agent.to_owned(),
        tasks: 0,
        cost_nanos: 0,
        turns: 0,
        input_tokens: 0,
        output_tokens: 0,
        cache_creation_input_tokens: 0,
        cache_read_input_tokens: 0,
        duration_ms: 0,
        sessions: 0,
        tool_calls: 0,
        avg_tokens_per_task: 0,
    }
}

/// Adds a task to the agent's bucket, which is made where there is none.
pub fn attribute_entry(by_agent: &mut TextMap<AgentStats>, agent_name: &str, e: &TaskLog)
    requires
        old(by_agent).wf(),
        countable(with_task(bucket(old(by_agent)@, agent_name@), *e)),
    ensures
        final(by_agent).wf(),
        final(by_agent)@.dom() == old(by_agent)@.dom().insert(agent_name@),
        sums_of(final(by_agent)@[agent_name@]) == with_task(
            bucket(old(by_agent)@, agent_name@),
            *e,
        ),
        final(by_agent)@[agent_name@].agent@ == if old(by_agent)@.contains_key(agent_name@) {
            old(by_agent)@[agent_name@].agent@
        } else {
            agent_name@
        },
        final(by_agent)@[agent_name@].avg_tokens_per_task == if old(by_agent)@.contains_key(
            agent_name@,
        ) {
            old(by_agent)@[agent_name@].avg_tokens_per_task
        } else {
            0
        },
        forall|k: Seq<char>|
            k != agent_name@ && #[trigger] old(by_agent)@.contains_key(k) ==> final(by_agent)@[k]
                == old(by_agent)@[k],
{
    let current: AgentStats = match by_agent.remove(agent_name) {
        Some(stats) => stats,
        None => fresh_stats(agent_name),
    };
    let stats = AgentStats {
        agent: current.agent,
        tasks: current.tasks + 1,
        cost_nanos: current.cost_nanos + e.cost_nanos,
        turns: current.turns + e.turns,
        input_tokens: current.input_tokens + count(e.input_tokens),
        output_tokens: current.output_tokens + count(e.output_tokens),
        cache_creation_input_tokens: current.cache_creation_input_tokens + count(
            e.cache_creation_input_tokens,
        ),
        cache_read_input_tokens: current.cache_read_input_tokens + count(
            e.cache_read_input_tokens,
        ),
        duration_ms: current.duration_ms + e.duration_ms,
        sessions: current.sessions + small_count(e.session_count),
        tool_calls: current.tool_calls + small_count(e.tool_use_count),
        avg_tokens_per_task: current.avg_tokens_per_task,
    };
    by_agent.insert(agent_name.to_owned(), stats);
    assert(by_agent@.dom() =~= old(by_agent)@.dom().insert(agent_name@));
}

/// Whether the map holds the sums of every agent over the entries.
pub open spec fn attributed(m: Map<Seq<char>, AgentStats>, entries: Seq<AgentEntry>) -> bool {
    &&& forall|k: Seq<char>| #[trigger] m.contains_key(k) <==> has_bucket(entries, k)
    &&& forall|k: Seq<char>| #[trigger]
        m.contains_key(k) ==> m[k].agent@ == k && sums_of(m[k]) == agent_sums(entries, k)
}

/// Attributes every task to the agent that ran it, and to the one that delegated it.
pub fn attribute_entries(entries: &Vec<AgentEntry>) -> (r: TextMap<AgentStats>)
    requires
        countable(totals(entries@)),
    ensures
        r.wf(),
        attributed(r@, entries@),
{
    let mut by_agent: TextMap<AgentStats> = TextMap::new();
    let mut i: usize = 0;
    assert(entries@.take(0) =~= Seq::<AgentEntry>::empty());
    while i < entries.len()
        invariant
            i <= entries@.len(),
            countable(totals(entries@)),
            by_agent.wf(),
            attributed(by_agent@, entries@.take(i as int)),
        decreases entries@.len() - i,
    {
        let ghost front = entries@.take(i as int);
        let ghost next = entries@.take(i + 1);
        let ghost m0 = by_agent@;
        let e = &entries[i];
        proof {
            assert(next.drop_last() =~= front);
            assert(next.last() == *e);
            lemma_totals_grow(entries@, i + 1);
            assert forall|k: Seq<char>| counts_for(*e, k) implies #[trigger] countable(
                with_task(bucket(m0, k), e.log),
            ) by {
                law_agent_at_most_totals(next, k);
                lemma_no_bucket(front, k);
                assert(m0.contains_key(k) <==> has_bucket(front, k));
            }
            assert(countable(with_task(bucket(m0, e.agent@), e.log)));
        }
        attribute_entry(&mut by_agent, e.agent.as_str(), &e.log);
        let ghost m1 = by_agent@;
        match &e.log.parent_agent {
            Some(parent) => {
                if !text_eq(parent.as_str(), e.agent.as_str()) {
                    proof {
                        assert(bucket(m1, parent@) == bucket(m0, parent@)) by {
                            assert(m0.dom().insert(e.agent@).contains(parent@)
                                <==> m0.contains_key(parent@));
                            assert(m1.dom().contains(parent@) <==> m0.contains_key(parent@));
                        }
                        assert(countable(with_task(bucket(m0, parent@), e.log)));
                    }
                    attribute_entry(&mut by_agent, parent.as_str(), &e.log);
                }
            },
            None => {},
        }
        proof {
            let m2 = by_agent@;
            assert forall|k: Seq<char>| #[trigger] m2.contains_key(k) <==> has_bucket(next, k) by {
                assert(m0.contains_key(k) <==> has_bucket(front, k));
                assert(m1.dom().contains(k) <==> m0.contains_key(k) || k == e.agent@);
                lemma_bucket_step(entries@, i as int, k);
            }
            assert forall|k: Seq<char>| #[trigger] m2.contains_key(k) implies m2[k].agent@ == k
                && sums_of(m2[k]) == agent_sums(next, k) by {
                lemma_no_bucket(front, k);
                lemma_bucket_step(entries@, i as int, k);
                assert(m0.contains_key(k) <==> has_bucket(front, k));
                assert(m1.dom().contains(k) <==> m0.contains_key(k) || k == e.agent@);
            }
        }
        i += 1;
    }
    assert(entries@.take(entries@.len() as int) =~= entries@);
    by_agent
}

proof fn lemma_bucket_step(entries: Seq<AgentEntry>, i: int, k: Seq<char>)
    requires
        0 <= i < entries.len(),
    ensures
        has_bucket(entries.take(i + 1), k) <==> has_bucket(entries.take(i), k) || counts_for(
            entries[i],
            k,
        ),
{
    let front = entries.take(i);
    let next = entries.take(i + 1);
    if has_bucket(front, k) {
        let j = choose|j: int| 0 <= j < front.len() && counts_for(#[trigger] front[j], k);
        assert(counts_for(next[j], k));
    }
    if counts_for(entries[i], k) {
        assert(counts_for(next[i], k));
    }
    if has_bucket(next, k) {
        let j = choose|j: int| 0 <= j < next.len() && counts_for(#[trigger] next[j], k);
        if j < i {
            assert(counts_for(front[j], k));
        }
    }
}

// ─── The report ─────────────────────────────────────────────────────────────

/// The mean number of input and output tokens per task, rounded down.
pub open spec fn mean_tokens(s: Sums) -> nat {
    if s.tasks > 0 {
        (s.input + s.output) / s.tasks
    } else {
        0
    }
}

/// Whether the agent is shown under the filter.
pub open spec fn shown(filter: Option<&str>, agent: Seq<char>) -> bool {
    match filter {
        Some(f) => f@ == agent,
        None => true,
    }
}

/// Whether the stats are those of their agent over the entries.
pub open spec fn row_of(entries: Seq<AgentEntry>, s: AgentStats) -> bool {
    &&& sums_of(s) == agent_sums(entries, s.agent@)
    &&& s.avg_tokens_per_task == mean_tokens(sums_of(s))
}

/// Whether the list holds each agent with a task that the filter shows, once, the
/// costliest first.
pub open spec fn ranking(
    list: Seq<AgentStats>,
    entries: Seq<AgentEntry>,
    filter: Option<&str>,
) -> bool {
    &&& forall|i: int| 0 <= i < list.len() ==> row_of(entries, #[trigger] list[i])
    &&& forall|i: int|
        0 <= i < list.len() ==> has_bucket(entries, (#[trigger] list[i]).agent@) && shown(
            filter,
            list[i].agent@,
        )
    &&& forall|k: Seq<char>| #[trigger]
        has_bucket(entries, k) && shown(filter, k) ==> exists|i: int|
            0 <= i < list.len() && (#[trigger] list[i]).agent@ == k
    &&& forall|i: int, j: int|
        0 <= i < j < list.len() ==> (#[trigger] list[i]).agent@ != (#[trigger] list[j]).agent@
            && list[i].cost_nanos >= list[j].cost_nanos
}

/// The stats with the mean filled in.
fn finished(s: &AgentStats) -> (r: AgentStats)
    requires
        s.input_tokens + s.output_tokens <= u64::MAX,
        s.tasks > 0,
    ensures
        r.agent@ == s.agent@,
        sums_of(r) == sums_of(*s),
        r.avg_tokens_per_task == mean_tokens(sums_of(*s)),
{
    let tokens: u64 = s.input_tokens + s.output_tokens;
    AgentStats {
        agent: s.agent.clone(),
        tasks: s.tasks,
        cost_nanos: s.cost_nanos,
        turns: s.turns,
        input_tokens: s.input_tokens,
        output_tokens: s.output_tokens,
        cache_creation_input_tokens: s.cache_creation_input_tokens,
        cache_read_input_tokens: s.cache_read_input_tokens,
        duration_ms: s.duration_ms,
        sessions: s.sessions,
        tool_calls: s.tool_calls,
        avg_tokens_per_task: tokens / s.tasks as u64,
    }
}

/// The first place behind every row that costs at least as much.
fn rank(list: &Vec<AgentStats>, cost: u64) -> (r: usize)
    requires
        forall|i: int, j: int|
            0 <= i < j < list@.len() ==> (#[trigger] list@[i]).cost_nanos >= (
            #[trigger] list@[j]).cost_nanos,
    ensures
        r <= list@.len(),
        forall|i: int| 0 <= i < r ==> (#[trigger] list@[i]).cost_nanos >= cost,
        forall|i: int| r <= i < list@.len() ==> (#[trigger] list@[i]).cost_nanos < cost,
{
    let mut i: usize = 0;
    while i < list.len() && list[i].cost_nanos >= cost
        invariant
            i <= list@.len(),
            forall|k: int| 0 <= k < i ==> (#[trigger] list@[k]).cost_nanos >= cost,
        decreases list@.len() - i,
    {
        i += 1;
    }
    i
}

/// The rows of the agents that the filter shows, the costliest first.
fn ranked(
    by_agent: &TextMap<AgentStats>,
    entries: &Vec<AgentEntry>,
    filter: Option<&str>,
) -> (r: Vec<AgentStats>)
    requires
        by_agent.wf(),
        attributed(by_agent@, entries@),
        tokens_countable(entries@),
    ensures
        ranking(r@, entries@, filter),
{
    let names = by_agent.keys();
    let mut list: Vec<AgentStats> = Vec::new();
    let mut n: usize = 0;
    while n < names.len()
        invariant
            n <= names@.len(),
            by_agent.wf(),
            attributed(by_agent@, entries@),
            tokens_countable(entries@),
            forall|i: int| 0 <= i < names@.len() ==> by_agent@.contains_key((#[trigger] names@[i])@),
            forall|i: int| 0 <= i < list@.len() ==> row_of(entries@, #[trigger] list@[i]),
            forall|i: int|
                0 <= i < list@.len() ==> has_bucket(entries@, (#[trigger] list@[i]).agent@)
                    && shown(filter, list@[i].agent@),
            forall|k: int|
                0 <= k < n && shown(filter, (#[trigger] names@[k])@) ==> exists|i: int|
                    0 <= i < list@.len() && (#[trigger] list@[i]).agent@ == names@[k]@,
            forall|i: int, j: int|
                0 <= i < j < list@.len() ==> (#[trigger] list@[i]).agent@ != (
                #[trigger] list@[j]).agent@ && list@[i].cost_nanos >= list@[j].cost_nanos,
        decreases names@.len() - n,
    {
        let name = names[n].as_str();
        let ghost before = list@;
        assert(by_agent@.contains_key(names@[n as int]@));
        let passes = match filter {
            Some(f) => text_eq(f, name),
            None => true,
        };
        if passes && !listed(&list, name) {
            match by_agent.get(name) {
                Some(stats) => {
                    proof {
                        assert(sums_of(*stats) == agent_sums(entries@, name@));
                        lemma_no_bucket(entries@, name@);
                    }
                    let row = finished(stats);
                    let at: usize = rank(&list, row.cost_nanos);
                    list.insert(at, row);
                    proof {
                        let after = list@;
                        assert(after == before.insert(at as int, row));
                        assert forall|i: int, j: int| 0 <= i < j < after.len() implies (
                        #[trigger] after[i]).agent@ != (#[trigger] after[j]).agent@
                            && after[i].cost_nanos >= after[j].cost_nanos by {
                            let i0 = if i < at { i } else { i - 1 };
                            let j0 = if j < at { j } else { j - 1 };
                            if i != at {
                                assert(before[i0] == after[i]);
                            }
                            if j != at {
                                assert(before[j0] == after[j]);
                            }
                        }
                        assert forall|i: int| 0 <= i < after.len() implies row_of(
                            entries@,
                            #[trigger] after[i],
                        ) && has_bucket(entries@, after[i].agent@) && shown(
                            filter,
                            after[i].agent@,
                        ) by {
                            if i < at {
                                assert(after[i] == before[i]);
                            } else if i > at {
                                assert(after[i] == before[i - 1]);
                            }
                        }
                        assert forall|k: int| 0 <= k < n + 1 && shown(
                            filter,
                            (#[trigger] names@[k])@,
                        ) implies exists|i: int|
                            0 <= i < after.len() && (#[trigger] after[i]).agent@ == names@[k]@ by {
                            if k == n {
                                assert(after[at as int].agent@ == names@[k]@);
                            } else {
                                let i = choose|i: int|
                                    0 <= i < before.len() && (#[trigger] before[i]).agent@
                                        == names@[k]@;
                                if i < at {
                                    assert(after[i] == before[i]);
                                } else {
                                    assert(after[i + 1] == before[i]);
                                }
                            }
                        }
                    }
                },
                None => {},
            }
        }
        n += 1;
    }
    proof {
        assert forall|k: Seq<char>| #[trigger]
            has_bucket(entries@, k) && shown(filter, k) implies exists|i: int|
            0 <= i < list@.len() && (#[trigger] list@[i]).agent@ == k by {
            assert(by_agent@.contains_key(k));
            let j = choose|j: int| 0 <= j < names@.len() && (#[trigger] names@[j])@ == k;
            assert(shown(filter, names@[j]@));
        }
    }
    list
}

/// Whether the list has a row of the agent.
fn listed(list: &Vec<AgentStats>, agent: &str) -> (r: bool)
    ensures
        r == exists|i: int| 0 <= i < list@.len() && (#[trigger] list@[i]).agent@ == agent@,
{
    let mut i: usize = 0;
    while i < list.len()
        invariant
            i <= list@.len(),
            forall|k: int| 0 <= k < i ==> (#[trigger] list@[k]).agent@ != agent@,
        decreases list@.len() - i,
    {
        if text_eq(list[i].agent.as_str(), agent) {
            assert(list@[i as int].agent@ == agent@);
            return true;
        }
        i += 1;
    }
    false
}

/// The totals of the report: over all entries or, under a filter, over those that count
/// for the agent. Either way an entry counts once.
pub open spec fn report_totals(entries: Seq<AgentEntry>, filter: Option<&str>) -> Sums {
    match filter {
        Some(f) => agent_sums(entries, f@),
        None => totals(entries),
    }
}

/// Whether the task counts for the agent that the filter shows.
fn counts_under(e: &AgentEntry, filter: Option<&str>) -> (r: bool)
    ensures
        r == (match filter {
            Some(f) => counts_for(*e, f@),
            None => true,
        }),
{
    match filter {
        Some(f) => text_eq(e.agent.as_str(), f) || match &e.log.parent_agent {
            Some(parent) => text_eq(parent.as_str(), f),
            None => false,
        },
        None => true,
    }
}

/// Sums the usage of the entries of a period, over all agents and per agent. Under a
/// filter the totals are those of the agent that it shows.
pub fn compute_stats(
    period: &str,
    entries: &Vec<AgentEntry>,
    agent_filter: Option<&str>,
) -> (r: UsageStats)
    requires
        reportable(entries@),
    ensures
        r.period@ == period@,
        totals_of(r) == (match agent_filter {
            Some(f) => agent_sums(entries@, f@),
            None => totals(entries@),
        }),
        ranking(r.by_agent@, entries@, agent_filter),
{
    let mut stats = UsageStats {
        period: period.to_owned(),
        total_tasks: 0,
        total_cost_nanos: 0,
        total_turns: 0,
        total_input_tokens: 0,
        total_output_tokens: 0,
        total_cache_creation_input_tokens: 0,
        total_cache_read_input_tokens: 0,
        total_duration_ms: 0,
        total_sessions: 0,
        total_tool_calls: 0,
        by_agent: Vec::new(),
    };
    let mut i: usize = 0;
    assert(entries@.take(0) =~= Seq::<AgentEntry>::empty());
    while i < entries.len()
        invariant
            i <= entries@.len(),
            countable(totals(entries@)),
            stats.period@ == period@,
            totals_of(stats) == report_totals(entries@.take(i as int), agent_filter),
        decreases entries@.len() - i,
    {
        proof {
            let next = entries@.take(i + 1);
            assert(next.drop_last() =~= entries@.take(i as int));
            assert(next.last() == entries@[i as int]);
            lemma_totals_grow(entries@, i + 1);
            if let Some(f) = agent_filter {
                law_agent_at_most_totals(next, f@);
            }
        }
        if counts_under(&entries[i], agent_filter) {
            let e = &entries[i].log;
            stats.total_tasks += 1;
            stats.total_cost_nanos += e.cost_nanos;
            stats.total_turns += e.turns;
            stats.total_input_tokens += count(e.input_tokens);
            stats.total_output_tokens += count(e.output_tokens);
            stats.total_cache_creation_input_tokens += count(e.cache_creation_input_tokens);
            stats.total_cache_read_input_tokens += count(e.cache_read_input_tokens);
            stats.total_duration_ms += e.duration_ms;
            stats.total_sessions += small_count(e.session_count);
            stats.total_tool_calls += small_count(e.tool_use_count);
        }
        i += 1;
    }
    assert(entries@.take(entries@.len() as int) =~= entries@);
    let by_agent = attribute_entries(entries);
    stats.by_agent = ranked(&by_agent, entries, agent_filter);
    stats
}

/// Whether the sums over all entries fit in the counters.
fn totals_fit(entries: &Vec<AgentEntry>) -> (r: bool)
    ensures
        r == countable(totals(entries@)),
{
    let wide: u128 = u64::MAX as u128;
    let narrow: u64 = u32::MAX as u64;
    let mut cost: u128 = 0;
    let mut input: u128 = 0;
    let mut output: u128 = 0;
    let mut cache_creation: u128 = 0;
    let mut cache_read: u128 = 0;
    let mut duration: u128 = 0;
    let mut turns: u64 = 0;
    let mut sessions: u64 = 0;
    let mut tools: u64 = 0;
    let mut i: usize = 0;
    assert(entries@.take(0) =~= Seq::<AgentEntry>::empty());
    while i < entries.len()
        invariant
            i <= entries@.len(),
            wide == u64::MAX,
            narrow == u32::MAX,
            countable(totals(entries@.take(i as int))),
            totals(entries@.take(i as int)).tasks == i,
            totals(entries@.take(i as int)).cost == cost,
            totals(entries@.take(i as int)).input == input,
            totals(entries@.take(i as int)).output == output,
            totals(entries@.take(i as int)).cache_creation == cache_creation,
            totals(entries@.take(i as int)).cache_read == cache_read,
            totals(entries@.take(i as int)).duration == duration,
            totals(entries@.take(i as int)).turns == turns,
            totals(entries@.take(i as int)).sessions == sessions,
            totals(entries@.take(i as int)).tools == tools,
        decreases entries@.len() - i,
    {
        let e = &entries[i].log;
        proof {
            assert(entries@.take(i + 1).drop_last() =~= entries@.take(i as int));
            assert(entries@.take(i + 1).last().log == *e);
            lemma_totals_grow(entries@, i + 1);
        }
        cost += e.cost_nanos as u128;
        input += count(e.input_tokens) as u128;
        output += count(e.output_tokens) as u128;
        cache_creation += count(e.cache_creation_input_tokens) as u128;
        cache_read += count(e.cache_read_input_tokens) as u128;
        duration += e.duration_ms as u128;
        turns += e.turns as u64;
        sessions += small_count(e.session_count) as u64;
        tools += small_count(e.tool_use_count) as u64;
        i += 1;
        if cost > wide || input > wide || output > wide || cache_creation > wide || cache_read
            > wide || duration > wide || turns > narrow || sessions > narrow || tools > narrow {
            return false;
        }
    }
    assert(entries@.take(entries@.len() as int) =~= entries@);
    true
}

/// Whether all numbers of the report on the entries fit in the counters.
pub fn can_compute_stats(entries: &Vec<AgentEntry>) -> (r: bool)
    ensures
        r == reportable(entries@),
{
    if !totals_fit(entries) {
        return false;
    }
    let by_agent = attribute_entries(entries);
    let names = by_agent.keys();
    let mut n: usize = 0;
    while n < names.len()
        invariant
            n <= names@.len(),
            by_agent.wf(),
            attributed(by_agent@, entries@),
            forall|i: int| 0 <= i < names@.len() ==> by_agent@.contains_key((#[trigger] names@[i])@),
            forall|i: int|
                0 <= i < n ==> agent_sums(entries@, (#[trigger] names@[i])@).input + agent_sums(
                    entries@,
                    names@[i]@,
                ).output <= u64::MAX,
        decreases names@.len() - n,
    {
        assert(by_agent@.contains_key(names@[n as int]@));
        match by_agent.get(names[n].as_str()) {
            Some(stats) => {
                assert(sums_of(*stats) == agent_sums(entries@, names@[n as int]@));
                if stats.input_tokens > u64::MAX - stats.output_tokens {
                    return false;
                }
            },
            None => {},
        }
        n += 1;
    }
    proof {
        assert forall|agent: Seq<char>|
            (#[trigger] agent_sums(entries@, agent)).input + agent_sums(entries@, agent).output
                <= u64::MAX by {
            lemma_no_bucket(entries@, agent);
            if has_bucket(entries@, agent) {
                assert(by_agent@.contains_key(agent));
                let j = choose|j: int| 0 <= j < names@.len() && (#[trigger] names@[j])@ == agent;
                assert(agent_sums(entries@, names@[j]@).input + agent_sums(
                    entries@,
                    names@[j]@,
                ).output <= u64::MAX);
            }
        }
    }
    true
}

// ─── Periods ────────────────────────────────────────────────────────────────

/// What a period text asks for.
pub ghost enum PeriodView {
    All,
    Today,
    Days(int),
    Hours(int),
    BadDays,
    BadHours,
    Unknown,
}

/// The meaning of a period: `all`, `today`, or a number and trailing `d` or `h`.
pub open spec fn period_of(period: Seq<char>) -> PeriodView {
    if period == "all"@ {
        PeriodView::All
    } else if period == "today"@ {
        PeriodView::Today
    } else if period.len() > 0 && period.last() == 'd' {
        match parsed_i64(trimmed_end(period, CharClass::One('d'))) {
            Some(n) => PeriodView::Days(n as int),
            None => PeriodView::BadDays,
        }
    } else if period.len() > 0 && period.last() == 'h' {
        match parsed_i64(trimmed_end(period, CharClass::One('h'))) {
            Some(n) => PeriodView::Hours(n as int),
            None => PeriodView::BadHours,
        }
    } else {
        PeriodView::Unknown
    }
}

/// Whether the period reaches back to a date of the calendar.
pub open spec fn period_in_calendar(period: Seq<char>, now: Instant) -> bool {
    match period_of(period) {
        PeriodView::Days(n) => -SECS_LIMIT <= now.secs - n * 86400 <= SECS_LIMIT,
        PeriodView::Hours(n) => -SECS_LIMIT <= now.secs - n * 3600 <= SECS_LIMIT,
        _ => true,
    }
}

/// The start of a period, or why there is none.
pub open spec fn cutoff_of(period: Seq<char>, now: Instant) -> Result<Option<Instant>, Seq<char>> {
    match period_of(period) {
        PeriodView::All => Ok(None),
        PeriodView::Today => Ok(
            Some(Instant { secs: (now.secs - now.secs as int % 86400) as i64, nanos: 0 }),
        ),
        PeriodView::Days(n) => Ok(
            Some(Instant { secs: (now.secs - n * 86400) as i64, nanos: now.nanos }),
        ),
        PeriodView::Hours(n) => Ok(
            Some(Instant { secs: (now.secs - n * 3600) as i64, nanos: now.nanos }),
        ),
        PeriodView::BadDays => Err(
            "invalid period '"@ + period + "' — expected e.g. 7d, 30d, today, all"@,
        ),
        PeriodView::BadHours => Err(
            "invalid period '"@ + period + "' — expected e.g. 24h, 7d, today, all"@,
        ),
        PeriodView::Unknown => Err(
            "unknown period '"@ + period + "' — use today, 24h, 7d, 30d, or all"@,
        ),
    }
}

/// Parses a period into the time before which entries are left out.
pub fn parse_period(period: &str, now: Instant) -> (r: Result<Option<Instant>, String>)
    requires
        now.wf(),
        period_in_calendar(period@, now),
    ensures
        match r {
            Ok(cutoff) => cutoff_of(period@, now) == Ok::<Option<Instant>, Seq<char>>(cutoff),
            Err(message) => cutoff_of(period@, now) == Err::<Option<Instant>, Seq<char>>(message@),
        },
{
    if text_eq(period, "all") {
        return Ok(None);
    }
    if text_eq(period, "today") {
        return Ok(Some(Instant { secs: now.secs - second_of_day(now.secs), nanos: 0 }));
    }
    let chars = to_chars(period);
    if chars.len() > 0 && chars[chars.len() - 1] == 'd' {
        return match parse_i64(trim_end(period, CharClass::One('d')).as_str()) {
            Some(days) => Ok(Some(Instant { secs: now.secs - days * 86400, nanos: now.nanos })),
            None => Err(
                concat3(
                    "invalid period '",
                    period,
                    "' — expected e.g. 7d, 30d, today, all",
                ),
            ),
        };
    }
    if chars.len() > 0 && chars[chars.len() - 1] == 'h' {
        return match parse_i64(trim_end(period, CharClass::One('h')).as_str()) {
            Some(hours) => Ok(Some(Instant { secs: now.secs - hours * 3600, nanos: now.nanos })),
            None => Err(
                concat3(
                    "invalid period '",
                    period,
                    "' — expected e.g. 24h, 7d, today, all",
                ),
            ),
        };
    }
    Err(concat3("unknown period '", period, "' — use today, 24h, 7d, 30d, or all"))
}

/// Whether the period reaches back to a date of the calendar.
pub fn can_parse_period(period: &str, now: Instant) -> (r: bool)
    requires
        now.wf(),
    ensures
        r == period_in_calendar(period@, now),
{
    if text_eq(period, "all") || text_eq(period, "today") {
        return true;
    }
    let chars = to_chars(period);
    if chars.len() == 0 {
        return true;
    }
    let last = chars[chars.len() - 1];
    let (count, unit): (Option<i64>, i128) = if last == 'd' {
        (parse_i64(trim_end(period, CharClass::One('d')).as_str()), 86400)
    } else if last == 'h' {
        (parse_i64(trim_end(period, CharClass::One('h')).as_str()), 3600)
    } else {
        (None, 0)
    };
    match count {
        Some(n) => {
            let start: i128 = now.secs as i128 - n as i128 * unit;
            let limit: i128 = SECS_LIMIT as i128;
            -limit <= start && start <= limit
        },
        None => true,
    }
}

// ─── Token counts ───────────────────────────────────────────────────────────
//
// A count is shown as the binary64 quotient of the count and a thousand (or a
// million), to one decimal place.

/// `a / b` rounded to an integer; halfway between two, to the even one.
pub open spec fn round_even(a: nat, b: nat) -> nat {
    let q = a / b;
    let r = a % b;
    if 2 * r < b || (2 * r == b && q % 2 == 0) {
        q
    } else {
        q + 1
    }
}

/// The first doubling of `unit` in which `n` has at most 53 bits.
pub open spec fn binary64_unit(n: nat, unit: nat) -> nat
    decreases n - unit,
    when unit > 0
{
    if n < 0x20_0000_0000_0000 * unit {
        unit
    } else {
        binary64_unit(n, 2 * unit)
    }
}

/// The binary64 number nearest to `n`.
pub open spec fn nearest_binary64(n: nat) -> nat {
    round_even(n, binary64_unit(n, 1)) * binary64_unit(n, 1)
}

/// `m` and `f`, doubled until `m / d` has 53 bits before its point.
pub open spec fn scaled(m: nat, d: nat, f: nat) -> (nat, nat)
    decreases (if m < d * 0x10_0000_0000_0000 { d * 0x10_0000_0000_0000 - m } else { 0 }),
    when m > 0
{
    if m >= d * 0x10_0000_0000_0000 {
        (m, f)
    } else {
        scaled(2 * m, d, 2 * f)
    }
}

/// How many tenths are shown of the binary64 quotient `n / d`.
pub open spec fn quotient_tenths(n: nat, d: nat) -> nat {
    let s = scaled(nearest_binary64(n), d, 1);
    round_even(10 * round_even(s.0, d), s.1)
}

/// A number of tenths as a decimal number.
pub open spec fn tenths_text(t: nat) -> Seq<char> {
    decimal(t / 10) + "."@ + decimal(t % 10)
}

/// A token count for reading: `-` for none, thousands and millions with one
/// decimal place.
pub open spec fn tokens_text(n: nat) -> Seq<char> {
    if n == 0 {
        "-"@
    } else if n < 1_000 {
        decimal(n)
    } else if n < 1_000_000 {
        tenths_text(quotient_tenths(n, 1_000)) + "K"@
    } else {
        tenths_text(quotient_tenths(n, 1_000_000)) + "M"@
    }
}

fn divide_even(a: u128, b: u128) -> (r: u128)
    requires
        0 < b < 0x1_0000_0000_0000_0000_0000,
        a < 0x1_0000_0000_0000_0000_0000_0000,
    ensures
        r == round_even(a as nat, b as nat),
        r <= a + 1,
{
    let q: u128 = a / b;
    let rest: u128 = a % b;
    proof {
        assert(q <= a) by (nonlinear_arith)
            requires
                q == a / b,
                b > 0,
        ;
    }
    if 2 * rest < b || (2 * rest == b && q % 2 == 0) {
        q
    } else {
        q + 1
    }
}

fn to_binary64(n: u64) -> (r: u128)
    ensures
        r == nearest_binary64(n as nat),
        n >= 1 ==> r >= 1,
        r <= 0x4_0000_0000_0000_0000,
{
    let mut unit: u128 = 1;
    while n as u128 >= 0x20_0000_0000_0000u128 * unit
        invariant
            1 <= unit <= 0x1000,
            binary64_unit(n as nat, 1) == binary64_unit(n as nat, unit as nat),
        decreases 0x1000 - unit,
    {
        unit = 2 * unit;
    }
    let q: u128 = divide_even(n as u128, unit);
    proof {
        lemma_round_even_bounds(n as nat, unit as nat, 0x20_0000_0000_0000);
        assert(q * unit <= 0x20_0000_0000_0000 * 0x1000) by (nonlinear_arith)
            requires
                q <= 0x20_0000_0000_0000,
                unit <= 0x1000,
        ;
        if n >= 1 {
            if unit == 1 {
                assert(n as nat / 1 == n && n as nat % 1 == 0);
            } else {
                lemma_unit_is_tight(n as nat, 1, unit as nat);
                assert(n as nat / unit as nat >= 1) by (nonlinear_arith)
                    requires
                        n >= unit,
                        unit > 0,
                ;
                assert(q >= 1);
            }
            assert(q * unit >= 1) by (nonlinear_arith)
                requires
                    q >= 1,
                    unit >= 1,
            ;
        }
    }
    q * unit
}

proof fn lemma_unit_is_tight(n: nat, from: nat, unit: nat)
    requires
        from > 0,
        unit == binary64_unit(n, from),
        unit != from,
    ensures
        n >= unit,
    decreases n - from,
{
    if n < 0x20_0000_0000_0000 * from {
    } else if binary64_unit(n, 2 * from) != 2 * from {
        lemma_unit_is_tight(n, 2 * from, unit);
    }
}

proof fn lemma_round_even_bounds(a: nat, b: nat, top: nat)
    requires
        b > 0,
        a < top * b,
    ensures
        round_even(a, b) <= top,
{
    assert(a / b < top) by (nonlinear_arith)
        requires
            b > 0,
            a < top * b,
    ;
}

fn tenths_shown(n: u64, d: u64) -> (r: u64)
    requires
        n >= 1,
        1_000 <= d <= 1_000_000,
        d == 1_000 ==> n < 1_000_000,
        d != 1_000 ==> d == 1_000_000,
    ensures
        r == quotient_tenths(n as nat, d as nat),
{
    let x: u128 = to_binary64(n);
    let limit: u128 = d as u128 * 0x10_0000_0000_0000u128;
    let mut m: u128 = x;
    let mut f: u128 = 1;
    proof {
        lemma_small_is_binary64(n as nat);
    }
    while m < limit
        invariant
            limit == d * 0x10_0000_0000_0000,
            1_000 <= d <= 1_000_000,
            1 <= x,
            m == x * f,
            1 <= f,
            1 <= m < 2 * limit,
            scaled(x as nat, d as nat, 1) == scaled(m as nat, d as nat, f as nat),
        decreases 2 * limit - m,
    {
        proof {
            assert(2 * m == x * (2 * f)) by (nonlinear_arith)
                requires
                    m == x * f,
            ;
            assert(f <= m) by (nonlinear_arith)
                requires
                    m == x * f,
                    x >= 1,
                    f >= 1,
            ;
        }
        m = 2 * m;
        f = 2 * f;
    }
    proof {
        assert(f <= m) by (nonlinear_arith)
            requires
                m == x * f,
                x >= 1,
                f >= 1,
        ;
        assert(m < 0x20_0000_0000_0000 * d);
        lemma_round_even_bounds(m as nat, d as nat, 0x20_0000_0000_0000);
    }
    let q: u128 = divide_even(m, d as u128);
    let t: u128 = divide_even(10 * q, f);
    proof {
        assert(10 * q < 0x1_0000_0000_0000_0000);
    }
    t as u64
}

proof fn lemma_small_is_binary64(n: nat)
    ensures
        n < 0x20_0000_0000_0000 ==> nearest_binary64(n) == n,
{
    if n < 0x20_0000_0000_0000 {
        assert(binary64_unit(n, 1) == 1);
        assert(n / 1 == n && n % 1 == 0);
    }
}

fn tenths(t: u64) -> (r: String)
    ensures
        r@ == tenths_text(t as nat),
{
    concat3(format_u64(t / 10).as_str(), ".", format_u64(t % 10).as_str())
}

/// Formats a token count for reading.
pub fn format_tokens(n: u64) -> (r: String)
    ensures
        r@ == tokens_text(n as nat),
{
    if n == 0 {
        "-".to_owned()
    } else if n < 1_000 {
        format_u64(n)
    } else if n < 1_000_000 {
        concat2(tenths(tenths_shown(n, 1_000)).as_str(), "K")
    } else {
        concat2(tenths(tenths_shown(n, 1_000_000)).as_str(), "M")
    }
}

// ─── Agents with logs ───────────────────────────────────────────────────────

/// An entry of the directory of logs.
#[derive(Debug, Clone)]
pub struct LogDirEntry {
    pub name: String,
    pub is_dir: bool,
    /// Whether a task log lies in it.
    pub has_task_log: bool,
}

/// The agents that have a task log, in ascending order.
pub open spec fn agents_in(entries: Seq<LogDirEntry>) -> Seq<Seq<char>>
    decreases entries.len(),
{
    if entries.len() == 0 {
        Seq::empty()
    } else {
        let front = agents_in(entries.drop_last());
        if entries.last().is_dir && entries.last().has_task_log {
            placed(front, entries.last().name@)
        } else {
            front
        }
    }
}

/// Finds the agents that have a task log.
pub fn discover_agents(entries: &Vec<LogDirEntry>) -> (r: Vec<String>)
    ensures
        texts(r@) == agents_in(entries@),
{
    let mut out: Vec<String> = Vec::new();
    let mut i: usize = 0;
    assert(entries@.take(0) =~= Seq::<LogDirEntry>::empty());
    assert(texts(out@) =~= agents_in(entries@.take(0)));
    while i < entries.len()
        invariant
            i <= entries@.len(),
            texts(out@) == agents_in(entries@.take(i as int)),
        decreases entries@.len() - i,
    {
        assert(entries@.take(i + 1).drop_last() =~= entries@.take(i as int));
        if entries[i].is_dir && entries[i].has_task_log {
            place(&mut out, entries[i].name.clone());
        }
        i += 1;
    }
    assert(entries@.take(entries@.len() as int) =~= entries@);
    out
}

// ─── The table ──────────────────────────────────────────────────────────────

/// The cells of a row in their columns.
pub open spec fn table_row(
    agent: Seq<char>,
    tasks: Seq<char>,
    sessions: Seq<char>,
    tools: Seq<char>,
    cost: Seq<char>,
    input: Seq<char>,
    output: Seq<char>,
    duration: Seq<char>,
) -> Seq<char> {
    to_left(agent, 20) + " "@ + to_right(tasks, 5) + "  "@ + to_right(sessions, 4) + "  "@
        + to_right(tools, 5) + "  "@ + cost + "  "@ + to_right(input, 8) + "  "@ + to_right(
        output,
        8,
    ) + "  "@ + to_right(duration, 9)
}

fn build_row(cells: [&str; 8]) -> (r: String)
    ensures
        r@ == table_row(
            cells[0]@,
            cells[1]@,
            cells[2]@,
            cells[3]@,
            cells[4]@,
            cells[5]@,
            cells[6]@,
            cells[7]@,
        ),
{
    let mut out = align_left(cells[0], 20);
    out.append(" ");
    out.append(align_right(cells[1], 5).as_str());
    out.append("  ");
    out.append(align_right(cells[2], 4).as_str());
    out.append("  ");
    out.append(align_right(cells[3], 5).as_str());
    out.append("  ");
    out.append(cells[4]);
    out.append("  ");
    out.append(align_right(cells[5], 8).as_str());
    out.append("  ");
    out.append(align_right(cells[6], 8).as_str());
    out.append("  ");
    out.append(align_right(cells[7], 9).as_str());
    out
}

/// The line between the parts of the table.
pub fn table_rule() -> (r: String)
    ensures
        r@ == Seq::new(95, |i: int| '─'),
{
    repeated('─', 95)
}

/// The title of the table.
pub fn table_title(period: &str) -> (r: String)
    ensures
        r@ == "Token Usage ("@ + period@ + ")"@,
{
    concat3("Token Usage (", period, ")")
}

/// The names of the columns.
pub fn table_head() -> (r: String)
    ensures
        r@ == table_row(
            "Agent"@,
            "Tasks"@,
            "Sess"@,
            "Tools"@,
            to_right("Cost"@, 7),
            "Input"@,
            "Output"@,
            "Duration"@,
        ),
{
    let cost = align_right("Cost", 7);
    build_row(["Agent", "Tasks", "Sess", "Tools", cost.as_str(), "Input", "Output", "Duration"])
}

/// A cost in its column; `cost` is the amount in dollars, with its cents.
pub open spec fn cost_cell(cost: Seq<char>) -> Seq<char> {
    "$"@ + to_right(cost, 6)
}

/// The row of an agent. Its cost and duration are given in words.
pub fn agent_row(a: &AgentStats, cost: &str, duration: &str) -> (r: String)
    ensures
        r@ == table_row(
            a.agent@,
            decimal(a.tasks as nat),
            decimal(a.sessions as nat),
            decimal(a.tool_calls as nat),
            cost_cell(cost@),
            tokens_text(a.input_tokens as nat),
            tokens_text(a.output_tokens as nat),
            duration@,
        ),
{
    let tasks = format_usize(a.tasks);
    let sessions = format_u64(a.sessions as u64);
    let tools = format_u64(a.tool_calls as u64);
    let amount = concat2("$", align_right(cost, 6).as_str());
    let input = format_tokens(a.input_tokens);
    let output = format_tokens(a.output_tokens);
    build_row(
        [
            a.agent.as_str(),
            tasks.as_str(),
            sessions.as_str(),
            tools.as_str(),
            amount.as_str(),
            input.as_str(),
            output.as_str(),
            duration,
        ],
    )
}

/// The row of the totals. Their cost and duration are given in words.
pub fn total_row(stats: &UsageStats, cost: &str, duration: &str) -> (r: String)
    ensures
        r@ == table_row(
            "TOTAL"@,
            decimal(stats.total_tasks as nat),
            decimal(stats.total_sessions as nat),
            decimal(stats.total_tool_calls as nat),
            cost_cell(cost@),
            tokens_text(stats.total_input_tokens as nat),
            tokens_text(stats.total_output_tokens as nat),
            duration@,
        ),
{
    let tasks = format_usize(stats.total_tasks);
    let sessions = format_u64(stats.total_sessions as u64);
    let tools = format_u64(stats.total_tool_calls as u64);
    let amount = concat2("$", align_right(cost, 6).as_str());
    let input = format_tokens(stats.total_input_tokens);
    let output = format_tokens(stats.total_output_tokens);
    build_row(
        [
            "TOTAL",
            tasks.as_str(),
            sessions.as_str(),
            tools.as_str(),
            amount.as_str(),
            input.as_str(),
            output.as_str(),
            duration,
        ],
    )
}

/// The averages over all tasks; `None` where there is no task. The cost per task is
/// given in words.
pub fn averages_line(stats: &UsageStats, cost: &str) -> (r: Option<String>)
    ensures
        opt_text(r) == if stats.total_tasks == 0 {
            None
        } else {
            Some(
                "Avg per task: "@ + tokens_text(
                    (stats.total_input_tokens / stats.total_tasks as u64) as nat,
                ) + " input, "@ + tokens_text(
                    (stats.total_output_tokens / stats.total_tasks as u64) as nat,
                ) + " output, $"@ + cost@,
            )
        },
{
    if stats.total_tasks == 0 {
        return None;
    }
    let tasks: u64 = stats.total_tasks as u64;
    let mut out = concat2(
        "Avg per task: ",
        format_tokens(stats.total_input_tokens / tasks).as_str(),
    );
    out.append(" input, ");
    out.append(format_tokens(stats.total_output_tokens / tasks).as_str());
    out.append(" output, $");
    out.append(cost);
    Some(out)
}

// ─── Laws ───────────────────────────────────────────────────────────────────

/// The totals of one task are its own numbers; what is not known of it counts as zero.
pub proof fn law_totals_of_one_task(e: AgentEntry)
    ensures
        totals(seq![e]).tasks == 1,
        totals(seq![e]).cost == e.log.cost_nanos,
        totals(seq![e]).turns == e.log.turns,
        totals(seq![e]).duration == e.log.duration_ms,
        totals(seq![e]).input == (match e.log.input_tokens {
            Some(n) => n as nat,
            None => 0,
        }),
        totals(seq![e]).output == (match e.log.output_tokens {
            Some(n) => n as nat,
            None => 0,
        }),
        totals(seq![e]).cache_creation == (match e.log.cache_creation_input_tokens {
            Some(n) => n as nat,
            None => 0,
        }),
        totals(seq![e]).cache_read == (match e.log.cache_read_input_tokens {
            Some(n) => n as nat,
            None => 0,
        }),
        totals(seq![e]).sessions == (match e.log.session_count {
            Some(n) => n as nat,
            None => 0,
        }),
        totals(seq![e]).tools == (match e.log.tool_use_count {
            Some(n) => n as nat,
            None => 0,
        }),
{
    reveal_with_fuel(totals, 2);
    assert(seq![e].drop_last() =~= Seq::<AgentEntry>::empty());
}

/// Totals add up: those of two lists together are, number by number, the sums of those of
/// each.
pub proof fn law_totals_add_up(a: Seq<AgentEntry>, b: Seq<AgentEntry>)
    ensures
        totals(a + b).tasks == totals(a).tasks + totals(b).tasks,
        totals(a + b).cost == totals(a).cost + totals(b).cost,
        totals(a + b).turns == totals(a).turns + totals(b).turns,
        totals(a + b).input == totals(a).input + totals(b).input,
        totals(a + b).output == totals(a).output + totals(b).output,
        totals(a + b).cache_creation == totals(a).cache_creation + totals(b).cache_creation,
        totals(a + b).cache_read == totals(a).cache_read + totals(b).cache_read,
        totals(a + b).duration == totals(a).duration + totals(b).duration,
        totals(a + b).sessions == totals(a).sessions + totals(b).sessions,
        totals(a + b).tools == totals(a).tools + totals(b).tools,
    decreases b.len(),
{
    if b.len() == 0 {
        assert(a + b =~= a);
    } else {
        law_totals_add_up(a, b.drop_last());
        assert((a + b).drop_last() =~= a + b.drop_last());
        assert((a + b).last() == b.last());
    }
}

/// One task counts with all its numbers for the agent that ran it and for the one that
/// delegated it, and with none for any other.
pub proof fn law_agent_sums_of_one_task(e: AgentEntry, agent: Seq<char>)
    ensures
        e.agent@ == agent ==> agent_sums(seq![e], agent) == totals(seq![e]),
        (e.log.parent_agent matches Some(p) && p@ == agent) ==> agent_sums(seq![e], agent)
            == totals(seq![e]),
        e.agent@ != agent && !(e.log.parent_agent matches Some(p) && p@ == agent) ==> agent_sums(
            seq![e],
            agent,
        ) == totals(Seq::empty()),
        totals(Seq::empty()).tasks == 0,
        totals(Seq::empty()).cost == 0,
        totals(Seq::empty()).turns == 0,
        totals(Seq::empty()).input == 0,
        totals(Seq::empty()).output == 0,
        totals(Seq::empty()).cache_creation == 0,
        totals(Seq::empty()).cache_read == 0,
        totals(Seq::empty()).duration == 0,
        totals(Seq::empty()).sessions == 0,
        totals(Seq::empty()).tools == 0,
{
    reveal_with_fuel(totals, 2);
    reveal_with_fuel(agent_sums, 2);
    assert(seq![e].drop_last() =~= Seq::<AgentEntry>::empty());
}

/// The sums of an agent add up, too.
pub proof fn law_agent_sums_add_up(a: Seq<AgentEntry>, b: Seq<AgentEntry>, agent: Seq<char>)
    ensures
        agent_sums(a + b, agent).tasks == agent_sums(a, agent).tasks + agent_sums(b, agent).tasks,
        agent_sums(a + b, agent).cost == agent_sums(a, agent).cost + agent_sums(b, agent).cost,
        agent_sums(a + b, agent).turns == agent_sums(a, agent).turns + agent_sums(b, agent).turns,
        agent_sums(a + b, agent).input == agent_sums(a, agent).input + agent_sums(b, agent).input,
        agent_sums(a + b, agent).output == agent_sums(a, agent).output + agent_sums(
            b,
            agent,
        ).output,
        agent_sums(a + b, agent).cache_creation == agent_sums(a, agent).cache_creation
            + agent_sums(b, agent).cache_creation,
        agent_sums(a + b, agent).cache_read == agent_sums(a, agent).cache_read + agent_sums(
            b,
            agent,
        ).cache_read,
        agent_sums(a + b, agent).duration == agent_sums(a, agent).duration + agent_sums(
            b,
            agent,
        ).duration,
        agent_sums(a + b, agent).sessions == agent_sums(a, agent).sessions + agent_sums(
            b,
            agent,
        ).sessions,
        agent_sums(a + b, agent).tools == agent_sums(a, agent).tools + agent_sums(b, agent).tools,
    decreases b.len(),
{
    if b.len() == 0 {
        assert(a + b =~= a);
    } else {
        law_agent_sums_add_up(a, b.drop_last(), agent);
        assert((a + b).drop_last() =~= a + b.drop_last());
        assert((a + b).last() == b.last());
    }
}

/// The rows of a report stand in the order of their costs, the highest first; no agent has
/// two, and none is shown that the filter does not name.
pub proof fn law_costliest_agent_first(
    list: Seq<AgentStats>,
    entries: Seq<AgentEntry>,
    filter: Option<&str>,
    i: int,
    j: int,
)
    requires
        ranking(list, entries, filter),
        0 <= i < j < list.len(),
    ensures
        list[i].cost_nanos >= list[j].cost_nanos,
        list[i].agent@ != list[j].agent@,
        filter matches Some(f) ==> list[i].agent@ == f@ && list[j].agent@ == f@,
{
}

/// Whoever ran or delegated a task has a row in the report on all agents, and only they.
pub proof fn law_every_worker_has_a_row(
    list: Seq<AgentStats>,
    entries: Seq<AgentEntry>,
    agent: Seq<char>,
)
    requires
        ranking(list, entries, None),
    ensures
        (exists|i: int| 0 <= i < list.len() && (#[trigger] list[i]).agent@ == agent) <==> (exists|
            k: int,
        |
            0 <= k < entries.len() && ((#[trigger] entries[k]).agent@ == agent || (
            entries[k].log.parent_agent matches Some(p) && p@ == agent))),
{
    if exists|k: int|
        0 <= k < entries.len() && ((#[trigger] entries[k]).agent@ == agent || (
        entries[k].log.parent_agent matches Some(p) && p@ == agent)) {
        let k = choose|k: int|
            0 <= k < entries.len() && ((#[trigger] entries[k]).agent@ == agent || (
            entries[k].log.parent_agent matches Some(p) && p@ == agent));
        assert(counts_for(entries[k], agent));
        assert(has_bucket(entries, agent) && shown(None, agent));
    }
    if exists|i: int| 0 <= i < list.len() && (#[trigger] list[i]).agent@ == agent {
        let i = choose|i: int| 0 <= i < list.len() && (#[trigger] list[i]).agent@ == agent;
        assert(has_bucket(entries, list[i].agent@));
        let k = choose|k: int| 0 <= k < entries.len() && counts_for(#[trigger] entries[k], agent);
        assert(entries[k].agent@ == agent || (entries[k].log.parent_agent matches Some(p) && p@
            == agent));
    }
}

/// The row of an agent holds the numbers of the agent, and its mean is the number of
/// tokens per task, rounded down.
pub proof fn law_row_holds_the_numbers(
    list: Seq<AgentStats>,
    entries: Seq<AgentEntry>,
    filter: Option<&str>,
    i: int,
)
    requires
        ranking(list, entries, filter),
        0 <= i < list.len(),
    ensures
        list[i].tasks == agent_sums(entries, list[i].agent@).tasks,
        list[i].cost_nanos == agent_sums(entries, list[i].agent@).cost,
        list[i].turns == agent_sums(entries, list[i].agent@).turns,
        list[i].input_tokens == agent_sums(entries, list[i].agent@).input,
        list[i].output_tokens == agent_sums(entries, list[i].agent@).output,
        list[i].cache_creation_input_tokens == agent_sums(
            entries,
            list[i].agent@,
        ).cache_creation,
        list[i].cache_read_input_tokens == agent_sums(entries, list[i].agent@).cache_read,
        list[i].duration_ms == agent_sums(entries, list[i].agent@).duration,
        list[i].sessions == agent_sums(entries, list[i].agent@).sessions,
        list[i].tool_calls == agent_sums(entries, list[i].agent@).tools,
        list[i].tasks > 0,
        list[i].avg_tokens_per_task * list[i].tasks <= list[i].input_tokens
            + list[i].output_tokens,
        list[i].input_tokens + list[i].output_tokens < (list[i].avg_tokens_per_task + 1)
            * list[i].tasks,
{
    let s = list[i];
    assert(row_of(entries, s));
    lemma_no_bucket(entries, s.agent@);
    assert(has_bucket(entries, s.agent@));
    let total = s.input_tokens + s.output_tokens;
    let n = s.tasks as int;
    let q = s.avg_tokens_per_task as int;
    assert(q == total / n);
    assert(q * n <= total && total < (q + 1) * n) by (nonlinear_arith)
        requires
            n > 0,
            q == total / n,
    ;
}

/// What a report counts under its totals, field by field.
pub proof fn law_report_names_its_totals(r: UsageStats, s: Sums)
    requires
        totals_of(r) == s,
    ensures
        r.total_tasks == s.tasks,
        r.total_cost_nanos == s.cost,
        r.total_turns == s.turns,
        r.total_input_tokens == s.input,
        r.total_output_tokens == s.output,
        r.total_cache_creation_input_tokens == s.cache_creation,
        r.total_cache_read_input_tokens == s.cache_read,
        r.total_duration_ms == s.duration,
        r.total_sessions == s.sessions,
        r.total_tool_calls == s.tools,
{
}

proof fn lemma_period_with_unit(n: i64, unit: char)
    requires
        unit == 'd' || unit == 'h',
    ensures
        (signed_decimal(n as int).push(unit)).last() == unit,
        trimmed_end(signed_decimal(n as int).push(unit), CharClass::One(unit)) == signed_decimal(
            n as int,
        ),
        parsed_i64(signed_decimal(n as int)) == Some(n),
        signed_decimal(n as int).push(unit) != "all"@,
        signed_decimal(n as int).push(unit) != "today"@,
{
    reveal_strlit("all");
    reveal_strlit("today");
    let digits = signed_decimal(n as int);
    let text = digits.push(unit);
    lemma_signed_decimal_parses(n);
    let size: nat = if n < 0 {
        (-(n as int)) as nat
    } else {
        n as nat
    };
    lemma_decimal_value(size);
    assert(is_digit(decimal(size)[decimal(size).len() - 1]));
    assert(digits.last() == decimal(size).last());
    assert(text.drop_last() =~= digits);
    reveal_with_fuel(trimmed_end, 2);
    assert("all"@.last() == 'l' && "today"@.last() == 'y');
}

/// A number of days reaches back as many days, a number of hours as many hours, to the
/// moment.
pub proof fn law_period_reaches_back(n: i64, now: Instant)
    requires
        i64::MIN <= now.secs - n * 86400 <= i64::MAX,
        i64::MIN <= now.secs - n * 3600 <= i64::MAX,
    ensures
        cutoff_of(signed_decimal(n as int).push('d'), now) matches Ok(Some(t)) && now.secs - t.secs
            == n * 86400 && t.nanos == now.nanos,
        cutoff_of(signed_decimal(n as int).push('h'), now) matches Ok(Some(t)) && now.secs - t.secs
            == n * 3600 && t.nanos == now.nanos,
{
    lemma_period_with_unit(n, 'd');
    lemma_period_with_unit(n, 'h');
}

/// `all` leaves nothing out; `today` begins at midnight.
pub proof fn law_all_and_today(now: Instant)
    requires
        now.wf(),
    ensures
        cutoff_of("all"@, now) == Ok::<Option<Instant>, Seq<char>>(None),
        cutoff_of("today"@, now) matches Ok(Some(t)) && t.secs <= now.secs < t.secs + 86400
            && t.secs as int % 86400 == 0 && t.nanos == 0,
{
    reveal_strlit("all");
    reveal_strlit("today");
    assert("all"@.len() == 3 && "today"@.len() == 5);
    let m = now.secs as int % 86400;
    assert((now.secs - m) % 86400 == 0);
}

/// A text that names no period is refused.
pub proof fn law_other_periods_are_refused(period: Seq<char>, now: Instant)
    requires
        period != "all"@,
        period != "today"@,
        period.len() == 0 || (period.last() != 'd' && period.last() != 'h'),
    ensures
        cutoff_of(period, now) is Err,
{
}

/// The agents with a task log are those directories that hold one, in ascending order.
pub proof fn law_agents_with_logs(entries: Seq<LogDirEntry>, name: Seq<char>)
    ensures
        ascending(agents_in(entries)),
        agents_in(entries).contains(name) <==> exists|i: int|
            0 <= i < entries.len() && (#[trigger] entries[i]).is_dir && entries[i].has_task_log
                && entries[i].name@ == name,
    decreases entries.len(),
{
    if entries.len() > 0 {
        let front = entries.drop_last();
        let last = entries.last();
        law_agents_with_logs(front, name);
        if last.is_dir && last.has_task_log {
            law_placed_adds_one(agents_in(front), last.name@);
            lemma_placed_ascending(agents_in(front), last.name@);
            assert(agents_in(entries).contains(name) <==> agents_in(front).contains(name) || name
                == last.name@);
        }
        if exists|i: int|
            0 <= i < front.len() && (#[trigger] front[i]).is_dir && front[i].has_task_log
                && front[i].name@ == name {
            let i = choose|i: int|
                0 <= i < front.len() && (#[trigger] front[i]).is_dir && front[i].has_task_log
                    && front[i].name@ == name;
            assert(entries[i].is_dir && entries[i].has_task_log && entries[i].name@ == name);
        }
        if exists|i: int|
            0 <= i < entries.len() && (#[trigger] entries[i]).is_dir && entries[i].has_task_log
                && entries[i].name@ == name {
            let i = choose|i: int|
                0 <= i < entries.len() && (#[trigger] entries[i]).is_dir && entries[i].has_task_log
                    && entries[i].name@ == name;
            if i < front.len() {
                assert(front[i].is_dir && front[i].has_task_log && front[i].name@ == name);
            }
        }
        if last.is_dir && last.has_task_log && last.name@ == name {
            assert(entries[entries.len() - 1].is_dir && entries[entries.len() - 1].has_task_log
                && entries[entries.len() - 1].name@ == name);
        }
    }
}

/// Small counts are written out, and a bar stands for none; from a thousand on a count is
/// in thousands, from a million on in millions.
pub proof fn law_token_units(n: nat)
    ensures
        n == 0 ==> tokens_text(n) == "-"@,
        0 < n < 1_000 ==> tokens_text(n) == decimal(n),
        1_000 <= n < 1_000_000 ==> tokens_text(n).last() == 'K',
        n >= 1_000_000 ==> tokens_text(n).last() == 'M',
{
    reveal_strlit("K");
    reveal_strlit("M");
}

/// A report is that of its period and its entries: its totals are the sums over all
/// entries, or over those of the agent that it is on, and its rows are those of the agents.
pub proof fn law_report_sums_its_entries(
    period: &str,
    entries: &Vec<AgentEntry>,
    filter: Option<&str>,
    r: UsageStats,
)
    requires
        call_ensures(compute_stats, (period, entries, filter), r),
    ensures
        r.period@ == period@,
        ranking(r.by_agent@, entries@, filter),
        filter is None ==> r.total_tasks == totals(entries@).tasks && r.total_cost_nanos == totals(
            entries@,
        ).cost && r.total_turns == totals(entries@).turns && r.total_input_tokens == totals(
            entries@,
        ).input && r.total_output_tokens == totals(entries@).output
            && r.total_cache_creation_input_tokens == totals(entries@).cache_creation
            && r.total_cache_read_input_tokens == totals(entries@).cache_read
            && r.total_duration_ms == totals(entries@).duration && r.total_sessions == totals(
            entries@,
        ).sessions && r.total_tool_calls == totals(entries@).tools,
        filter matches Some(f) ==> r.total_tasks == agent_sums(entries@, f@).tasks
            && r.total_cost_nanos == agent_sums(entries@, f@).cost && r.total_turns == agent_sums(
            entries@,
            f@,
        ).turns && r.total_input_tokens == agent_sums(entries@, f@).input && r.total_output_tokens
            == agent_sums(entries@, f@).output && r.total_cache_creation_input_tokens
            == agent_sums(entries@, f@).cache_creation && r.total_cache_read_input_tokens
            == agent_sums(entries@, f@).cache_read && r.total_duration_ms == agent_sums(
            entries@,
            f@,
        ).duration && r.total_sessions == agent_sums(entries@, f@).sessions && r.total_tool_calls
            == agent_sums(entries@, f@).tools,
{
}

/// Attributing a task adds it to the row of the agent and leaves the other rows alone.
pub proof fn law_task_is_attributed_to_its_agent(
    by_agent: &mut TextMap<AgentStats>,
    agent: &str,
    log: &TaskLog,
    other: Seq<char>,
)
    requires
        call_ensures(attribute_entry, (by_agent, agent, log), ()),
    ensures
        final(by_agent)@.contains_key(agent@),
        old(by_agent)@.contains_key(agent@) ==> final(by_agent)@[agent@].tasks == old(
            by_agent
        )@[agent@].tasks + 1 && final(by_agent)@[agent@].cost_nanos == old(
            by_agent
        )@[agent@].cost_nanos + log.cost_nanos && final(by_agent)@[agent@].duration_ms == old(
            by_agent
        )@[agent@].duration_ms + log.duration_ms,
        !old(by_agent)@.contains_key(agent@) ==> final(by_agent)@[agent@].tasks == 1 && final(
            by_agent
        )@[agent@].cost_nanos == log.cost_nanos && final(by_agent)@[agent@].duration_ms
            == log.duration_ms && final(by_agent)@[agent@].agent@ == agent@,
        other != agent@ && old(by_agent)@.contains_key(other) ==> final(by_agent)@.contains_key(
            other,
        ) && final(by_agent)@[other] == old(by_agent)@[other],
{
    let after = final(by_agent)@;
    let before = old(by_agent)@;
    assert(after.dom() == before.dom().insert(agent@));
    assert(after.dom().contains(agent@));
    if other != agent@ && before.contains_key(other) {
        assert(after.dom().contains(other));
    }
}

/// The start of a period is the cutoff of its text.
pub proof fn law_period_is_parsed(period: &str, now: Instant, r: Result<Option<Instant>, String>)
    requires
        call_ensures(parse_period, (period, now), r),
    ensures
        r matches Ok(c) ==> cutoff_of(period@, now) == Ok::<Option<Instant>, Seq<char>>(c),
        r is Err ==> cutoff_of(period@, now) is Err,
{
}

/// The row of an agent shows its name, its tasks, its sessions, its tool calls, its cost,
/// its input, its output and its duration in columns that end at fixed places, where each
/// fits its column.
pub proof fn law_agent_row_in_columns(a: &AgentStats, cost: &str, duration: &str, r: String)
    requires
        call_ensures(agent_row, (a, cost, duration), r),
        a.agent@.len() <= 20,
        decimal(a.tasks as nat).len() <= 5,
        decimal(a.sessions as nat).len() <= 4,
        decimal(a.tool_calls as nat).len() <= 5,
        cost@.len() <= 6,
        tokens_text(a.input_tokens as nat).len() <= 8,
        tokens_text(a.output_tokens as nat).len() <= 8,
        duration@.len() <= 9,
    ensures
        r@.len() == 79,
        r@.take(a.agent@.len() as int) == a.agent@,
        ends_at(r@, decimal(a.tasks as nat), 26),
        ends_at(r@, decimal(a.sessions as nat), 32),
        ends_at(r@, decimal(a.tool_calls as nat), 39),
        r@[41] == '$',
        ends_at(r@, cost@, 48),
        ends_at(r@, tokens_text(a.input_tokens as nat), 58),
        ends_at(r@, tokens_text(a.output_tokens as nat), 68),
        ends_at(r@, duration@, 79),
{
    lemma_row_columns(
        a.agent@,
        decimal(a.tasks as nat),
        decimal(a.sessions as nat),
        decimal(a.tool_calls as nat),
        cost@,
        tokens_text(a.input_tokens as nat),
        tokens_text(a.output_tokens as nat),
        duration@,
    );
}

/// The row of the totals shows the totals in the same columns.
pub proof fn law_total_row_in_columns(s: &UsageStats, cost: &str, duration: &str, r: String)
    requires
        call_ensures(total_row, (s, cost, duration), r),
        decimal(s.total_tasks as nat).len() <= 5,
        decimal(s.total_sessions as nat).len() <= 4,
        decimal(s.total_tool_calls as nat).len() <= 5,
        cost@.len() <= 6,
        tokens_text(s.total_input_tokens as nat).len() <= 8,
        tokens_text(s.total_output_tokens as nat).len() <= 8,
        duration@.len() <= 9,
    ensures
        r@.take(5) == "TOTAL"@,
        ends_at(r@, decimal(s.total_tasks as nat), 26),
        ends_at(r@, decimal(s.total_sessions as nat), 32),
        ends_at(r@, decimal(s.total_tool_calls as nat), 39),
        r@[41] == '$',
        ends_at(r@, cost@, 48),
        ends_at(r@, tokens_text(s.total_input_tokens as nat), 58),
        ends_at(r@, tokens_text(s.total_output_tokens as nat), 68),
        ends_at(r@, duration@, 79),
{
    reveal_strlit("TOTAL");
    lemma_row_columns(
        "TOTAL"@,
        decimal(s.total_tasks as nat),
        decimal(s.total_sessions as nat),
        decimal(s.total_tool_calls as nat),
        cost@,
        tokens_text(s.total_input_tokens as nat),
        tokens_text(s.total_output_tokens as nat),
        duration@,
    );
}

/// Whether the cell stands in the row and ends in front of the column.
pub open spec fn ends_at(row: Seq<char>, cell: Seq<char>, column: int) -> bool {
    cell.len() <= column <= row.len() && row.subrange(column - cell.len(), column) == cell
}

proof fn lemma_row_columns(
    agent: Seq<char>,
    tasks: Seq<char>,
    sessions: Seq<char>,
    tools: Seq<char>,
    cost: Seq<char>,
    input: Seq<char>,
    output: Seq<char>,
    duration: Seq<char>,
)
    requires
        agent.len() <= 20,
        tasks.len() <= 5,
        sessions.len() <= 4,
        tools.len() <= 5,
        cost.len() <= 6,
        input.len() <= 8,
        output.len() <= 8,
        duration.len() <= 9,
    ensures
        ({
            let r = table_row(
                agent,
                tasks,
                sessions,
                tools,
                cost_cell(cost),
                input,
                output,
                duration,
            );
            &&& r.len() == 79
            &&& r.take(agent.len() as int) == agent
            &&& ends_at(r, tasks, 26)
            &&& ends_at(r, sessions, 32)
            &&& ends_at(r, tools, 39)
            &&& r[41] == '$'
            &&& ends_at(r, cost, 48)
            &&& ends_at(r, input, 58)
            &&& ends_at(r, output, 68)
            &&& ends_at(r, duration, 79)
        }),
{
    reveal_strlit(" ");
    reveal_strlit("  ");
    reveal_strlit("$");
    law_columns_are_filled(agent, 20);
    law_columns_are_filled(tasks, 5);
    law_columns_are_filled(sessions, 4);
    law_columns_are_filled(tools, 5);
    law_columns_are_filled(cost, 6);
    law_columns_are_filled(input, 8);
    law_columns_are_filled(output, 8);
    law_columns_are_filled(duration, 9);
    let r = table_row(agent, tasks, sessions, tools, cost_cell(cost), input, output, duration);
    assert(r.take(agent.len() as int) =~= agent);
    assert(r.subrange(26 - tasks.len(), 26) =~= tasks);
    assert(r.subrange(32 - sessions.len(), 32) =~= sessions);
    assert(r.subrange(39 - tools.len(), 39) =~= tools);
    assert(r.subrange(48 - cost.len(), 48) =~= cost);
    assert(r.subrange(58 - input.len(), 58) =~= input);
    assert(r.subrange(68 - output.len(), 68) =~= output);
    assert(r.subrange(79 - duration.len(), 79) =~= duration);
}

/// A refusal names the period that was refused, and which forms are known.
pub proof fn law_refusal_names_the_period(
    period: &str,
    now: Instant,
    r: Result<Option<Instant>, String>,
)
    requires
        call_ensures(parse_period, (period, now), r),
        r is Err,
        period@ != "all"@,
        period@ != "today"@,
    ensures
        period@.len() > 0 && period@.last() == 'd' ==> r->Err_0@ == "invalid period '"@ + period@
            + "' — expected e.g. 7d, 30d, today, all"@,
        period@.len() > 0 && period@.last() == 'h' ==> r->Err_0@ == "invalid period '"@ + period@
            + "' — expected e.g. 24h, 7d, today, all"@,
        period@.len() == 0 || (period@.last() != 'd' && period@.last() != 'h') ==> r->Err_0@
            == "unknown period '"@ + period@ + "' — use today, 24h, 7d, 30d, or all"@,
{
}

proof fn lemma_round_even_near(a: nat, b: nat)
    requires
        b > 0,
    ensures
        -(b as int) <= 2 * (round_even(a, b) * b - a) <= b,
{
    let q = a / b;
    let r = a % b;
    assert(a == q * b + r && r < b) by (nonlinear_arith)
        requires
            b > 0,
            q == a / b,
            r == a % b,
    ;
    assert((q + 1) * b == q * b + b) by (nonlinear_arith);
}

proof fn lemma_scaled(m: nat, d: nat, f: nat)
    requires
        m > 0,
        f > 0,
    ensures
        scaled(m, d, f).0 * f == m * scaled(m, d, f).1,
        scaled(m, d, f).0 >= d * 0x10_0000_0000_0000,
        scaled(m, d, f).1 > 0,
    decreases (if m < d * 0x10_0000_0000_0000 { d * 0x10_0000_0000_0000 - m } else { 0 }),
{
    if m < d * 0x10_0000_0000_0000 {
        lemma_scaled(2 * m, d, 2 * f);
        let s = scaled(2 * m, d, 2 * f);
        assert(s.0 * f == m * s.1) by (nonlinear_arith)
            requires
                s.0 * (2 * f) == (2 * m) * s.1,
        ;
    } else {
        assert(m * f == m * f);
    }
}

/// Within `slack / 2` of a tenth of the divisor, where the fraction is fine enough.
proof fn lemma_tenths_near(n: nat, d: nat, slack: nat)
    requires
        0 < n < 0x20_0000_0000_0000,
        d > 0,
        slack > 0,
        10 * n <= slack * 0x10_0000_0000_0000,
    ensures
        -(d as int) - slack <= 2 * (quotient_tenths(n, d) * d - 10 * n) <= d + slack,
{
    lemma_small_is_binary64(n);
    lemma_scaled(n, d, 1);
    let s = scaled(n, d, 1);
    let f = s.1;
    let q = round_even(s.0, d);
    let t = round_even(10 * q, f);
    assert(s.0 == n * f);
    lemma_round_even_near(s.0, d);
    lemma_round_even_near(10 * q, f);
    let e = q * d - n * f;
    let g = t * f - 10 * q;
    assert(10 * d <= slack * f) by (nonlinear_arith)
        requires
            n * f >= d * 0x10_0000_0000_0000,
            10 * n <= slack * 0x10_0000_0000_0000,
            n > 0,
            f > 0,
    ;
    let x = t * d - 10 * n;
    assert(f * x == g * d + 10 * e) by (nonlinear_arith)
        requires
            x == t * d - 10 * n,
            g == t * f - 10 * q,
            e == q * d - n * f,
    ;
    assert(-(f * d) <= 2 * (g * d) <= f * d) by (nonlinear_arith)
        requires
            -(f as int) <= 2 * g <= f,
            d > 0,
    ;
    assert(-(f * (d + slack)) <= f * (2 * x) <= f * (d + slack)) by (nonlinear_arith)
        requires
            f * x == g * d + 10 * e,
            -(f * d) <= 2 * (g * d) <= f * d,
            -(d as int) <= 2 * e <= d,
            10 * d <= slack * f,
    ;
    assert(-((d + slack) as int) <= 2 * x <= d + slack) by (nonlinear_arith)
        requires
            -(f * (d + slack)) <= f * (2 * x) <= f * (d + slack),
            f > 0,
    ;
}

/// A count of thousands, or of millions, is shown in tenths of its unit: the tenth that is
/// nearest to it, up to what is lost in a division of floating-point numbers.
pub proof fn law_tokens_in_tenths(n: nat)
    ensures
        1_000 <= n < 1_000_000 ==> ({
            let t = quotient_tenths(n, 1_000);
            &&& tokens_text(n) == decimal(t / 10) + "."@ + decimal(t % 10) + "K"@
            &&& -51 < t * 100 - n < 51
        }),
        1_000_000 <= n < 0x20_0000_0000_0000 ==> ({
            let t = quotient_tenths(n, 1_000_000);
            &&& tokens_text(n) == decimal(t / 10) + "."@ + decimal(t % 10) + "M"@
            &&& -50_002 < t * 100_000 - n < 50_002
        }),
{
    if 1_000 <= n < 1_000_000 {
        lemma_tenths_near(n, 1_000, 1);
    }
    if 1_000_000 <= n < 0x20_0000_0000_0000 {
        lemma_tenths_near(n, 1_000_000, 20);
    }
}

/// The averages are whole tokens per task: what all tasks took in, and gave out, is shared
/// out evenly among them, and what is left over is less than one token per task.
pub proof fn law_averages_share_out_the_totals(
    stats: &UsageStats,
    cost: &str,
    r: Option<String>,
    input: nat,
    output: nat,
)
    requires
        call_ensures(averages_line, (stats, cost), r),
        stats.total_tasks <= u64::MAX,
        input * stats.total_tasks <= stats.total_input_tokens < (input + 1) * stats.total_tasks,
        output * stats.total_tasks <= stats.total_output_tokens < (output + 1) * stats.total_tasks,
    ensures
        r matches Some(line) && line@ == "Avg per task: "@ + tokens_text(input) + " input, "@
            + tokens_text(output) + " output, $"@ + cost@,
{
    let n = stats.total_tasks as u64;
    let a = stats.total_input_tokens;
    let b = stats.total_output_tokens;
    assert(stats.total_tasks > 0) by (nonlinear_arith)
        requires
            input * stats.total_tasks <= a < (input + 1) * stats.total_tasks,
    ;
    assert(a / n == input) by (nonlinear_arith)
        requires
            n > 0,
            input * n <= a < (input + 1) * n,
    ;
    assert(b / n == output) by (nonlinear_arith)
        requires
            n > 0,
            output * n <= b < (output + 1) * n,
    ;
}

} // verus!

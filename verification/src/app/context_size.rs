//! How much of its context window each live session uses.

use crate::app::agent::AgentState;
use crate::app::clock::Instant;
use crate::app::clock::instant_of;
use crate::app::clock::parse_instant;
use crate::app::tasklog::TaskLog;
use crate::app::tasklog::count;
use crate::app::tasklog::count_of;
use crate::text::CharClass;
use crate::text::concat2;
use crate::text::concat3;
use crate::text::decimal;
use crate::text::format_u64;
use crate::text::from_chars;
use crate::text::has_prefix;
use crate::text::join;
use crate::text::joined;
use crate::text::lemma_text_less_total;
use crate::text::lemma_text_less_transitive;
use crate::text::less;
use crate::text::starts_with;
use crate::text::text_eq;
use crate::text::text_less;
use crate::text::texts;
use crate::text::to_chars;
use crate::text::trim;
use crate::text::trimmed;
use vstd::prelude::*;

verus! {

/// Context window of older and unknown models, in tokens.
pub const DEFAULT_CONTEXT_WINDOW: u64 = 200_000;

/// Context window of the models of the fourth generation, in tokens.
pub const CONTEXT_WINDOW_CLAUDE_4: u64 = 1_000_000;

/// Auto-compact threshold where none is configured, in tokens.
pub const DEFAULT_AUTO_COMPACT_THRESHOLD: u64 = 300_000;

/// Largest percentage that the auto-compact override takes.
pub const AUTO_COMPACT_PCT_MAX: u64 = 83;

/// A session that has reached this percentage of its auto-compact threshold is
/// marked.
pub const WARN_PERCENT: u64 = 80;

/// An agent's current session.
#[derive(Debug, Clone)]
pub struct SessionContext {
    pub agent: String,
    pub model: String,
    pub session_id: String,
    /// Tokens in the session's window, where they are known.
    pub context_tokens: Option<u64>,
    /// Context window of the model.
    pub context_limit: u64,
    /// Auto-compact threshold, in tokens.
    pub auto_compact_threshold: u64,
}

pub ghost struct SessionView {
    pub agent: Seq<char>,
    pub model: Seq<char>,
    pub session_id: Seq<char>,
    pub context_tokens: Option<u64>,
    pub context_limit: u64,
    pub auto_compact_threshold: u64,
}

impl View for SessionContext {
    type V = SessionView;

    open spec fn view(&self) -> SessionView {
        SessionView {
            agent: self.agent@,
            model: self.model@,
            session_id: self.session_id@,
            context_tokens: self.context_tokens,
            context_limit: self.context_limit,
            auto_compact_threshold: self.auto_compact_threshold,
        }
    }
}

/// The first eight characters of a session id, or a note that there is none.
pub open spec fn short_id(session_id: Seq<char>) -> Seq<char> {
    let id = trimmed(session_id, CharClass::White);
    if id.len() == 0 {
        "(no session)"@
    } else if id.len() <= 8 {
        id
    } else {
        id.take(8)
    }
}

/// Whether the session has reached the share of its threshold that is marked.
pub open spec fn warns(s: SessionView) -> bool {
    s.context_tokens matches Some(t) && s.auto_compact_threshold > 0 && t * 100
        >= s.auto_compact_threshold * WARN_PERCENT
}

/// Whether the threshold lies at or beyond the largest percentage of the window.
pub open spec fn clamps(s: SessionView) -> bool {
    s.context_limit > 0 && s.auto_compact_threshold * 100 >= s.context_limit * AUTO_COMPACT_PCT_MAX
}

impl SessionContext {
    /// The first eight characters of the session id.
    pub fn session_short(&self) -> (r: String)
        ensures
            r@ == short_id(self.session_id@),
    {
        let id = trim(self.session_id.as_str());
        let chars = to_chars(id.as_str());
        if chars.len() == 0 {
            "(no session)".to_owned()
        } else if chars.len() <= 8 {
            id
        } else {
            let out = from_chars(&chars, 0, 8);
            assert(out@ =~= id@.take(8));
            out
        }
    }

    /// Whether the session uses 80% of its auto-compact threshold or more.
    pub fn is_warning(&self) -> (r: bool)
        ensures
            r == warns(self@),
    {
        match self.context_tokens {
            Some(t) => self.auto_compact_threshold > 0 && t as u128 * 100
                >= self.auto_compact_threshold as u128 * WARN_PERCENT as u128,
            None => false,
        }
    }

    /// Whether the threshold is so close to the window that it would be clamped.
    pub fn threshold_would_clamp(&self) -> (r: bool)
        ensures
            r == clamps(self@),
    {
        let most: u128 = AUTO_COMPACT_PCT_MAX as u128;
        assert(most == 83);
        self.context_limit > 0 && self.auto_compact_threshold as u128 * 100
            >= self.context_limit as u128 * most
    }
}

/// Whether the name is that of a model of the fourth generation with its version. The
/// names of a family's models begin with the name of the family.
pub open spec fn is_claude_4(model: Seq<char>, family: Seq<char>) -> bool {
    has_prefix(model, family + "-opus-4-"@) || has_prefix(model, family + "-sonnet-4-"@)
        || has_prefix(model, family + "-haiku-4-"@)
}

pub open spec fn window_of(model: Seq<char>, family: Seq<char>) -> u64 {
    if is_claude_4(model, family) {
        CONTEXT_WINDOW_CLAUDE_4
    } else {
        DEFAULT_CONTEXT_WINDOW
    }
}

/// The context window of a model. It rests on the model's name and that of the family
/// alone, whatever program runs the session.
pub fn context_window_for_model(model: &str, family: &str) -> (r: u64)
    ensures
        r == window_of(model@, family@),
{
    let opus = concat2(family, "-opus-4-");
    let sonnet = concat2(family, "-sonnet-4-");
    let haiku = concat2(family, "-haiku-4-");
    if starts_with(model, opus.as_str()) || starts_with(model, sonnet.as_str()) || starts_with(
        model,
        haiku.as_str(),
    ) {
        CONTEXT_WINDOW_CLAUDE_4
    } else {
        DEFAULT_CONTEXT_WINDOW
    }
}

/// The threshold in percent of the window, rounded half up.
pub open spec fn rounded_percent(threshold: u64, window: u64) -> int {
    (threshold * 200 + window) / (2 * window)
}

/// The percentage for the auto-compact override, between 1 and 83, and whether it
/// had to be lowered.
pub open spec fn override_percent(threshold: u64, window: u64) -> (u64, bool) {
    if window == 0 {
        (AUTO_COMPACT_PCT_MAX, false)
    } else {
        let raw = rounded_percent(threshold, window);
        (
            if raw < 1 {
                1
            } else if raw > AUTO_COMPACT_PCT_MAX {
                AUTO_COMPACT_PCT_MAX
            } else {
                raw as u64
            },
            raw > AUTO_COMPACT_PCT_MAX,
        )
    }
}

/// The auto-compact override for a threshold, and whether it had to be lowered.
pub fn autocompact_pct(threshold_tokens: u64, window_tokens: u64) -> (r: (u64, bool))
    ensures
        r == override_percent(threshold_tokens, window_tokens),
{
    if window_tokens == 0 {
        return (AUTO_COMPACT_PCT_MAX, false);
    }
    let raw: u128 = (threshold_tokens as u128 * 200 + window_tokens as u128) / (2
        * window_tokens as u128);
    if raw < 1 {
        (1, false)
    } else if raw > AUTO_COMPACT_PCT_MAX as u128 {
        (AUTO_COMPACT_PCT_MAX, true)
    } else {
        (raw as u64, false)
    }
}

/// Whether a session is to be reported: it has an id, and its agent is run by the
/// server itself or by a process that exists.
pub open spec fn live(state: AgentState, process_alive: bool) -> bool {
    state.session_id@.len() > 0 && (state.pid == 0 || process_alive)
}

/// Whether the agent's session is live. `process_alive` says whether a process with
/// the agent's PID exists.
pub fn is_live(state: &AgentState, process_alive: bool) -> (r: bool)
    ensures
        r == live(*state, process_alive),
{
    if state.session_id.as_str().is_empty() {
        return false;
    }
    state.pid == 0 || process_alive
}

/// The time from which on log entries belong to the agent's session.
pub fn session_since(state: &AgentState) -> (r: Option<Instant>)
    ensures
        r == (match state.session_start {
            Some(s) => instant_of(s@),
            None => None,
        }),
{
    match &state.session_start {
        Some(s) => parse_instant(s.as_str()),
        None => None,
    }
}

/// Tokens in the window after the task: its input, and what was written to or read
/// from the cache.
pub open spec fn tokens_after(entry: TaskLog) -> Option<int> {
    match entry.input_tokens {
        Some(input) => Some(
            input + count_of(entry.cache_creation_input_tokens) + count_of(
                entry.cache_read_input_tokens,
            ),
        ),
        None => None,
    }
}

/// The tokens in the window after a task.
pub fn entry_context_tokens(entry: &TaskLog) -> (r: Option<u64>)
    requires
        tokens_after(*entry) matches Some(n) ==> n <= u64::MAX,
    ensures
        match r {
            Some(n) => tokens_after(*entry) == Some(n as int),
            None => tokens_after(*entry) is None,
        },
{
    match entry.input_tokens {
        Some(input) => Some(
            input + count(entry.cache_creation_input_tokens) + count(entry.cache_read_input_tokens),
        ),
        None => None,
    }
}

/// An agent's state, with what was found out about it.
pub struct AgentReading {
    pub state: AgentState,
    /// Whether a process with the agent's PID exists.
    pub process_alive: bool,
    /// The last log entry of the agent's session.
    pub latest_entry: Option<TaskLog>,
    /// The name of the family of models, the first word of their names.
    pub family: String,
}

/// Whether the tokens after the latest entry are a `u64`.
pub open spec fn reading_fits(r: AgentReading) -> bool {
    r.latest_entry matches Some(e) ==> (tokens_after(e) matches Some(n) ==> n <= u64::MAX)
}

/// Whether the token count of the reading is a `u64`.
pub fn can_snapshot(reading: &AgentReading) -> (r: bool)
    ensures
        r == reading_fits(*reading),
{
    match &reading.latest_entry {
        Some(e) => match e.input_tokens {
            Some(input) => input as u128 + count(e.cache_creation_input_tokens) as u128 + count(
                e.cache_read_input_tokens,
            ) as u128 <= u64::MAX as u128,
            None => true,
        },
        None => true,
    }
}

/// The session of a live agent.
pub open spec fn session_of(r: AgentReading) -> Option<SessionView> {
    if !live(r.state, r.process_alive) {
        None
    } else {
        Some(
            SessionView {
                agent: r.state.config.name@,
                model: r.state.config.model@,
                session_id: r.state.session_id@,
                context_tokens: match r.latest_entry {
                    Some(e) => match tokens_after(e) {
                        Some(n) => Some(n as u64),
                        None => None,
                    },
                    None => None,
                },
                context_limit: window_of(r.state.config.model@, r.family@),
                auto_compact_threshold: match r.state.config.auto_compact_threshold_tokens {
                    Some(n) => n,
                    None => DEFAULT_AUTO_COMPACT_THRESHOLD,
                },
            },
        )
    }
}

/// The session of the agent, where it is live.
pub fn snapshot_for(reading: &AgentReading) -> (r: Option<SessionContext>)
    requires
        reading_fits(*reading),
    ensures
        match r {
            Some(s) => session_of(*reading) == Some(s@),
            None => session_of(*reading) is None,
        },
{
    let state = &reading.state;
    if !is_live(state, reading.process_alive) {
        return None;
    }
    let context_tokens: Option<u64> = match &reading.latest_entry {
        Some(e) => entry_context_tokens(e),
        None => None,
    };
    let auto_compact_threshold: u64 = match state.config.auto_compact_threshold_tokens {
        Some(n) => n,
        None => DEFAULT_AUTO_COMPACT_THRESHOLD,
    };
    Some(
        SessionContext {
            agent: state.config.name.clone(),
            model: state.config.model.clone(),
            session_id: state.session_id.clone(),
            context_tokens,
            context_limit: context_window_for_model(
                state.config.model.as_str(),
                reading.family.as_str(),
            ),
            auto_compact_threshold,
        },
    )
}

// ─── Snapshots ──────────────────────────────────────────────────────────────

/// Whether `a` is listed before `b`: by agent, then by session id.
pub open spec fn listed_before(a: SessionView, b: SessionView) -> bool {
    text_less(a.agent, b.agent) || (a.agent == b.agent && text_less(a.session_id, b.session_id))
}

/// How many of the sessions stand before a new one: all up to the last that the new
/// one is not listed before.
pub open spec fn place_of(list: Seq<SessionView>, s: SessionView) -> nat
    decreases list.len(),
{
    if list.len() == 0 || !listed_before(s, list.last()) {
        list.len()
    } else {
        place_of(list.drop_last(), s)
    }
}

/// The live sessions of the readings, in order; equal ones keep theirs.
pub open spec fn snapshot_of(readings: Seq<AgentReading>) -> Seq<SessionView>
    decreases readings.len(),
{
    if readings.len() == 0 {
        Seq::empty()
    } else {
        let front = snapshot_of(readings.drop_last());
        match session_of(readings.last()) {
            Some(s) => front.insert(place_of(front, s) as int, s),
            None => front,
        }
    }
}

pub open spec fn session_views(v: Seq<SessionContext>) -> Seq<SessionView> {
    Seq::new(v.len(), |i: int| v[i]@)
}

fn is_listed_before(a: &SessionContext, b: &SessionContext) -> (r: bool)
    ensures
        r == listed_before(a@, b@),
{
    less(a.agent.as_str(), b.agent.as_str()) || (text_eq(a.agent.as_str(), b.agent.as_str())
        && less(a.session_id.as_str(), b.session_id.as_str()))
}

/// Collects the live sessions, ordered by agent and session id.
pub fn gather(readings: &Vec<AgentReading>) -> (r: Vec<SessionContext>)
    requires
        forall|i: int| 0 <= i < readings@.len() ==> reading_fits(#[trigger] readings@[i]),
    ensures
        session_views(r@) == snapshot_of(readings@),
{
    let mut out: Vec<SessionContext> = Vec::new();
    let mut i: usize = 0;
    assert(readings@.take(0) =~= Seq::<AgentReading>::empty());
    assert(session_views(out@) =~= snapshot_of(readings@.take(0)));
    while i < readings.len()
        invariant
            i <= readings@.len(),
            forall|k: int| 0 <= k < readings@.len() ==> reading_fits(#[trigger] readings@[k]),
            session_views(out@) == snapshot_of(readings@.take(i as int)),
        decreases readings@.len() - i,
    {
        let ghost next = readings@.take(i + 1);
        proof {
            assert(next.drop_last() =~= readings@.take(i as int));
            assert(next.last() == readings@[i as int]);
            assert(reading_fits(readings@[i as int]));
        }
        match snapshot_for(&readings[i]) {
            Some(s) => {
                let ghost before = out@;
                let ghost views = session_views(before);
                let mut at: usize = out.len();
                assert(views.take(at as int) =~= views);
                while at > 0 && is_listed_before(&s, &out[at - 1])
                    invariant
                        at <= out@.len(),
                        out@ == before,
                        views == session_views(before),
                        place_of(views, s@) == place_of(views.take(at as int), s@),
                    decreases at,
                {
                    assert(views.take(at as int).drop_last() =~= views.take(at - 1));
                    at -= 1;
                }
                proof {
                    if at > 0 {
                        assert(views.take(at as int).last() == before[at - 1]@);
                    }
                    assert(place_of(views, s@) == at);
                    assert(session_views(before.insert(at as int, s)) =~= views.insert(
                        at as int,
                        s@,
                    ));
                }
                out.insert(at, s);
            },
            None => {},
        }
        i += 1;
    }
    assert(readings@.take(readings@.len() as int) =~= readings@);
    out
}

proof fn lemma_place(list: Seq<SessionView>, s: SessionView)
    ensures
        place_of(list, s) <= list.len(),
        forall|i: int| place_of(list, s) <= i < list.len() ==> listed_before(s, #[trigger] list[i]),
        place_of(list, s) > 0 ==> !listed_before(s, list[place_of(list, s) - 1]),
    decreases list.len(),
{
    if list.len() > 0 && listed_before(s, list.last()) {
        lemma_place(list.drop_last(), s);
        assert forall|i: int| place_of(list, s) <= i < list.len() implies listed_before(
            s,
            #[trigger] list[i],
        ) by {
            if i < list.len() - 1 {
                assert(list.drop_last()[i] == list[i]);
            }
        }
    }
}

proof fn lemma_listed_before_transitive(a: SessionView, b: SessionView, c: SessionView)
    requires
        !listed_before(b, a),
        !listed_before(c, b),
    ensures
        !listed_before(c, a),
{
    if listed_before(c, a) {
        lemma_text_less_total(a.agent, b.agent);
        lemma_text_less_total(b.agent, c.agent);
        lemma_text_less_total(a.session_id, b.session_id);
        lemma_text_less_total(b.session_id, c.session_id);
        lemma_text_less_total(a.agent, c.agent);
        lemma_text_less_total(a.session_id, c.session_id);
        if text_less(a.agent, b.agent) && text_less(b.agent, c.agent) {
            lemma_text_less_transitive(a.agent, b.agent, c.agent);
        }
        if text_less(a.session_id, b.session_id) && text_less(b.session_id, c.session_id) {
            lemma_text_less_transitive(a.session_id, b.session_id, c.session_id);
        }
    }
}

/// A snapshot is ordered: no session is listed before an earlier one.
pub proof fn law_snapshot_ordered(readings: Seq<AgentReading>)
    ensures
        forall|i: int, j: int|
            0 <= i < j < snapshot_of(readings).len() ==> !listed_before(
                #[trigger] snapshot_of(readings)[j],
                #[trigger] snapshot_of(readings)[i],
            ),
    decreases readings.len(),
{
    if readings.len() > 0 {
        law_snapshot_ordered(readings.drop_last());
        let front = snapshot_of(readings.drop_last());
        match session_of(readings.last()) {
            Some(s) => {
                let at = place_of(front, s) as int;
                lemma_place(front, s);
                let list = front.insert(at, s);
                assert forall|i: int, j: int| 0 <= i < j < list.len() implies !listed_before(
                    #[trigger] list[j],
                    #[trigger] list[i],
                ) by {
                    let i0 = if i < at { i } else { i - 1 };
                    let j0 = if j < at { j } else { j - 1 };
                    if i != at && j != at {
                        assert(list[i] == front[i0] && list[j] == front[j0]);
                    } else if i == at {
                        assert(list[j] == front[j0]);
                        lemma_listed_before_asymmetric(s, front[j0]);
                    } else {
                        assert(list[i] == front[i0]);
                        if i0 < at - 1 {
                            assert(!listed_before(front[at - 1], front[i0]));
                            lemma_listed_before_transitive(front[i0], front[at - 1], s);
                        }
                    }
                }
            },
            None => {},
        }
    }
}

proof fn lemma_listed_before_asymmetric(a: SessionView, b: SessionView)
    requires
        listed_before(a, b),
    ensures
        !listed_before(b, a),
{
    lemma_text_less_total(a.agent, b.agent);
    lemma_text_less_total(a.session_id, b.session_id);
}

/// A snapshot holds the session of every live agent, and nothing else.
pub proof fn law_snapshot_complete(readings: Seq<AgentReading>, s: SessionView)
    ensures
        snapshot_of(readings).contains(s) <==> exists|i: int|
            0 <= i < readings.len() && session_of(#[trigger] readings[i]) == Some(s),
    decreases readings.len(),
{
    if readings.len() > 0 {
        let front = readings.drop_last();
        let list = snapshot_of(front);
        law_snapshot_complete(front, s);
        if list.contains(s) {
            let i = choose|i: int|
                0 <= i < front.len() && session_of(#[trigger] front[i]) == Some(s);
            assert(session_of(readings[i]) == Some(s));
        }
        if exists|i: int| 0 <= i < readings.len() && session_of(#[trigger] readings[i]) == Some(s) {
            let i = choose|i: int|
                0 <= i < readings.len() && session_of(#[trigger] readings[i]) == Some(s);
            if i < front.len() {
                assert(session_of(front[i]) == Some(s));
            }
        }
        match session_of(readings.last()) {
            Some(t) => {
                let at = place_of(list, t) as int;
                lemma_place(list, t);
                let all = list.insert(at, t);
                assert(all[at] == t);
                if list.contains(s) {
                    let k = choose|k: int| 0 <= k < list.len() && list[k] == s;
                    assert(all[if k < at { k } else { k + 1 }] == s);
                }
                if all.contains(s) {
                    let k = choose|k: int| 0 <= k < all.len() && all[k] == s;
                    if k < at {
                        assert(list[k] == s);
                    } else if k > at {
                        assert(list[k - 1] == s);
                    } else {
                        assert(session_of(readings[readings.len() - 1]) == Some(s));
                    }
                }
                if t == s {
                    assert(all.contains(s));
                }
            },
            None => {},
        }
    } else {
        assert(!snapshot_of(readings).contains(s));
    }
}

// ─── Text ───────────────────────────────────────────────────────────────────

/// A token count as `999`, `1.5k` or `45k`, rounded half up.
pub open spec fn compact_text(n: nat) -> Seq<char> {
    if n < 1_000 {
        decimal(n)
    } else if n >= 10_000 {
        decimal((n + 500) / 1_000) + "k"@
    } else {
        let tenths = (n + 50) / 100;
        if tenths % 10 == 0 {
            decimal(tenths / 10) + "k"@
        } else {
            decimal(tenths / 10) + "."@ + decimal(tenths % 10) + "k"@
        }
    }
}

/// Formats a token count compactly.
pub fn format_tokens_compact(n: u64) -> (r: String)
    ensures
        r@ == compact_text(n as nat),
{
    if n < 1_000 {
        return format_u64(n);
    }
    if n >= 10_000 {
        let up: u64 = if n % 1_000 >= 500 { 1 } else { 0 };
        return concat2(format_u64(n / 1_000 + up).as_str(), "k");
    }
    let tenths: u64 = (n + 50) / 100;
    if tenths % 10 == 0 {
        concat2(format_u64(tenths / 10).as_str(), "k")
    } else {
        let mut out = concat3(format_u64(tenths / 10).as_str(), ".", format_u64(tenths % 10).as_str());
        out.append("k");
        out
    }
}

/// The line of a session in a reply.
pub open spec fn session_line(s: SessionView) -> Seq<char> {
    let over = override_percent(s.auto_compact_threshold, s.context_limit);
    let compaction = "  (auto-compact at "@ + compact_text(s.auto_compact_threshold as nat) + " = "@
        + decimal(over.0 as nat) + "%"@ + (if over.1 {
        " ⚠️"@
    } else {
        ""@
    }) + ")"@;
    match s.context_tokens {
        Some(tokens) => s.agent + " (session "@ + short_id(s.session_id) + ")  ~"@ + compact_text(
            tokens as nat,
        ) + " / "@ + compact_text(s.context_limit as nat) + compaction + (if warns(s) {
            "  ⚠️"@
        } else {
            ""@
        }),
        None => s.agent + " (session "@ + short_id(s.session_id) + ")  n/a / "@ + compact_text(
            s.context_limit as nat,
        ) + compaction,
    }
}

/// The reply: a header, a blank line, and a line per session.
pub open spec fn reply_lines(snapshot: Seq<SessionView>) -> Seq<Seq<char>> {
    seq!["/context"@, ""@] + snapshot.map_values(|s: SessionView| session_line(s))
}

pub open spec fn reply_text(snapshot: Seq<SessionView>) -> Seq<char> {
    if snapshot.len() == 0 {
        "No active sessions."@
    } else {
        joined(reply_lines(snapshot), "\n"@)
    }
}

fn format_session(s: &SessionContext) -> (r: String)
    ensures
        r@ == session_line(s@),
{
    let limit = format_tokens_compact(s.context_limit);
    let threshold = format_tokens_compact(s.auto_compact_threshold);
    let (pct, would_clamp) = autocompact_pct(s.auto_compact_threshold, s.context_limit);
    let percent = format_u64(pct);
    let mut compaction = concat2("  (auto-compact at ", threshold.as_str());
    compaction.append(" = ");
    compaction.append(percent.as_str());
    compaction.append("%");
    compaction.append(if would_clamp { " ⚠️" } else { "" });
    compaction.append(")");
    let short = s.session_short();
    let mut line = concat3(s.agent.as_str(), " (session ", short.as_str());
    match s.context_tokens {
        Some(tokens) => {
            line.append(")  ~");
            line.append(format_tokens_compact(tokens).as_str());
            line.append(" / ");
            line.append(limit.as_str());
            line.append(compaction.as_str());
            line.append(if s.is_warning() { "  ⚠️" } else { "" });
        },
        None => {
            line.append(")  n/a / ");
            line.append(limit.as_str());
            line.append(compaction.as_str());
        },
    }
    line
}

/// Renders a snapshot as plain text.
pub fn format_reply(snapshot: &[SessionContext]) -> (r: String)
    ensures
        r@ == reply_text(session_views(snapshot@)),
{
    if snapshot.len() == 0 {
        return "No active sessions.".to_owned();
    }
    let ghost views = session_views(snapshot@);
    let mut lines: Vec<String> = Vec::new();
    lines.push("/context".to_owned());
    lines.push("".to_owned());
    let mut i: usize = 0;
    while i < snapshot.len()
        invariant
            i <= snapshot@.len(),
            views == session_views(snapshot@),
            lines@.len() == i + 2,
            lines@[0]@ == "/context"@,
            lines@[1]@ == ""@,
            forall|k: int| 2 <= k < i + 2 ==> (#[trigger] lines@[k])@ == session_line(views[k - 2]),
        decreases snapshot@.len() - i,
    {
        assert(views[i as int] == snapshot@[i as int]@);
        lines.push(format_session(&snapshot[i]));
        i += 1;
    }
    assert(texts(lines@) =~= reply_lines(views));
    join(&lines, "\n")
}

// ─── Laws ───────────────────────────────────────────────────────────────────

/// An agent has a session where its state names one, unless the process that it names is
/// gone.
pub proof fn law_live_agents_have_sessions(r: AgentReading)
    ensures
        session_of(r) is Some <==> r.state.session_id@.len() > 0 && (r.state.pid == 0
            || r.process_alive),
{
}

/// A session is that of its agent. Its threshold is the configured one, and 300000 only
/// where none is.
pub proof fn law_session_is_that_of_the_agent(r: AgentReading, s: SessionView)
    requires
        session_of(r) == Some(s),
    ensures
        s.agent == r.state.config.name@,
        s.model == r.state.config.model@,
        s.session_id == r.state.session_id@,
        r.state.config.auto_compact_threshold_tokens is Some ==> Some(s.auto_compact_threshold)
            == r.state.config.auto_compact_threshold_tokens,
        r.state.config.auto_compact_threshold_tokens is None ==> s.auto_compact_threshold
            == 300_000,
{
}

/// Two agents that differ in their configured thresholds have different sessions.
pub proof fn law_thresholds_tell_sessions_apart(
    a: AgentReading,
    b: AgentReading,
    s: SessionView,
    t: SessionView,
)
    requires
        session_of(a) == Some(s),
        session_of(b) == Some(t),
        a.state.config.auto_compact_threshold_tokens is Some,
        b.state.config.auto_compact_threshold_tokens is Some,
        a.state.config.auto_compact_threshold_tokens
            != b.state.config.auto_compact_threshold_tokens,
    ensures
        s != t,
        s.auto_compact_threshold != t.auto_compact_threshold,
{
}

/// A session holds as many tokens as its last entry counts for input, for writing to the
/// cache and for reading from it, together. Without an entry, or without a count of the
/// input, the number is not known.
pub proof fn law_context_is_all_input(r: AgentReading, s: SessionView)
    requires
        session_of(r) == Some(s),
        reading_fits(r),
    ensures
        r.latest_entry is None ==> s.context_tokens is None,
        r.latest_entry matches Some(e) ==> match e.input_tokens {
            None => s.context_tokens is None,
            Some(input) => s.context_tokens matches Some(n) && n == input + (match
                e.cache_creation_input_tokens {
                Some(c) => c as int,
                None => 0,
            }) + (match e.cache_read_input_tokens {
                Some(c) => c as int,
                None => 0,
            }),
        },
{
}

/// The window of a model of the fourth generation is a million tokens, that of any other
/// two hundred thousand.
pub proof fn law_window_by_generation(r: AgentReading, s: SessionView)
    requires
        session_of(r) == Some(s),
    ensures
        s.context_limit == if (r.family@ + "-opus-4-"@).is_prefix_of(r.state.config.model@) || (
        r.family@ + "-sonnet-4-"@).is_prefix_of(r.state.config.model@) || (r.family@
            + "-haiku-4-"@).is_prefix_of(r.state.config.model@) {
            1_000_000u64
        } else {
            200_000
        },
{
    let model = r.state.config.model@;
    lemma_prefix(model, r.family@ + "-opus-4-"@);
    lemma_prefix(model, r.family@ + "-sonnet-4-"@);
    lemma_prefix(model, r.family@ + "-haiku-4-"@);
}

proof fn lemma_prefix(s: Seq<char>, p: Seq<char>)
    ensures
        has_prefix(s, p) <==> p.is_prefix_of(s),
{
    if p.len() <= s.len() {
        assert(s.take(p.len() as int) =~= s.subrange(0, p.len() as int));
    }
}

/// A session is marked from four fifths of its threshold on, and only with a known number
/// of tokens.
pub proof fn law_warning_from_four_fifths(s: SessionView)
    ensures
        s.context_tokens is None ==> !warns(s),
        s.context_tokens matches Some(n) ==> (warns(s) <==> s.auto_compact_threshold > 0 && 5 * n
            >= 4 * s.auto_compact_threshold),
{
}

/// A threshold would be lowered from 83 percent of the window on.
pub proof fn law_clamp_from_83_percent(s: SessionView)
    ensures
        clamps(s) <==> s.context_limit > 0 && 100 * s.auto_compact_threshold >= 83
            * s.context_limit,
{
}

/// The percentage is the nearest one, a half rounded up, held between 1 and 83; it is
/// lowered only where the nearest lies above 83.
pub proof fn law_percentage_is_nearest(threshold: u64, window: u64)
    requires
        window > 0,
    ensures
        1 <= override_percent(threshold, window).0 <= 83,
        override_percent(threshold, window).1 <==> 200 * threshold >= 167 * window,
        override_percent(threshold, window).1 ==> override_percent(threshold, window).0 == 83,
        override_percent(threshold, window).0 > 1 && !override_percent(threshold, window).1 ==> (2
            * override_percent(threshold, window).0 - 1) * window <= 200 * threshold,
        !override_percent(threshold, window).1 ==> 200 * threshold < (2 * override_percent(
            threshold,
            window,
        ).0 + 1) * window,
        override_percent(threshold, 0) == (83u64, false),
{
    let a = threshold * 200 + window;
    let b = 2 * window;
    let q = a / b;
    assert(q * b <= a && a < (q + 1) * b) by (nonlinear_arith)
        requires
            b > 0,
            q == a / b,
    ;
    assert((2 * q - 1) * window == q * b - window) by (nonlinear_arith)
        requires
            b == 2 * window,
    ;
    assert((2 * q + 1) * window == (q + 1) * b - window) by (nonlinear_arith)
        requires
            b == 2 * window,
    ;
    assert(q >= 84 ==> q * b >= 84 * b) by (nonlinear_arith)
        requires
            b > 0,
    ;
    assert(q <= 83 ==> (q + 1) * b <= 84 * b) by (nonlinear_arith)
        requires
            b > 0,
    ;
    assert(q >= 0) by (nonlinear_arith)
        requires
            b > 0,
            a >= 0,
            q == a / b,
    ;
    let p = override_percent(threshold, window).0 as int;
    if q < 1 {
        assert((q + 1) * b == b) by (nonlinear_arith)
            requires
                q == 0,
        ;
        assert((2 * p + 1) * window == 3 * window) by (nonlinear_arith)
            requires
                p == 1,
        ;
    } else if q <= 83 {
        assert(p == q);
    }
}

/// The short form of an id is its beginning, of at most eight characters.
pub proof fn law_short_id_is_the_beginning(id: Seq<char>)
    requires
        trimmed(id, CharClass::White) == id,
    ensures
        id.len() == 0 ==> short_id(id) == "(no session)"@,
        0 < id.len() <= 8 ==> short_id(id) == id,
        id.len() > 8 ==> short_id(id).len() == 8 && short_id(id).is_prefix_of(id),
{
    if id.len() > 8 {
        assert(id.take(8) =~= id.subrange(0, 8));
    }
}

/// A snapshot has one session for each live agent.
pub proof fn law_snapshot_counts_live_agents(readings: Seq<AgentReading>, r: AgentReading)
    ensures
        snapshot_of(Seq::empty()).len() == 0,
        snapshot_of(readings.push(r)).len() == snapshot_of(readings).len() + (if
        r.state.session_id@.len() > 0 && (r.state.pid == 0 || r.process_alive) {
            1int
        } else {
            0
        }),
{
    assert(readings.push(r).drop_last() =~= readings);
    if session_of(r) is Some {
        lemma_place(snapshot_of(readings), session_of(r)->0);
    }
}

/// A snapshot is in the order of the agents, and under one agent in that of the sessions.
pub proof fn law_snapshot_by_agent_and_session(readings: Seq<AgentReading>, i: int, j: int)
    requires
        0 <= i < j < snapshot_of(readings).len(),
    ensures
        ({
            let a = snapshot_of(readings)[i];
            let b = snapshot_of(readings)[j];
            text_less(a.agent, b.agent) || (a.agent == b.agent && (a.session_id == b.session_id
                || text_less(a.session_id, b.session_id)))
        }),
{
    law_snapshot_ordered(readings);
    let a = snapshot_of(readings)[i];
    let b = snapshot_of(readings)[j];
    assert(!listed_before(b, a));
    lemma_text_less_total(a.agent, b.agent);
    lemma_text_less_total(a.session_id, b.session_id);
}

/// A compact count is the nearest in its unit, a half rounded up: ones below a thousand,
/// tenths of a thousand below ten thousand, thousands from there on.
pub proof fn law_compact_count_is_nearest(n: nat, k: nat)
    ensures
        n < 1_000 ==> compact_text(n) == decimal(n),
        n >= 10_000 && 1_000 * k <= n + 500 < 1_000 * (k + 1) ==> compact_text(n) == decimal(k)
            + "k"@,
        1_000 <= n < 10_000 && 1_000 * k <= n + 50 < 1_000 * k + 100 ==> compact_text(n)
            == decimal(k) + "k"@,
        forall|t: nat|
            0 < t < 10 && 1_000 <= n < 10_000 && 1_000 * k + 100 * t <= n + 50 < 1_000 * k + 100 * t
                + 100 ==> compact_text(n) == decimal(k) + "."@ + #[trigger] decimal(t) + "k"@,
{
}

/// A reply has a line for each session, in the order of the snapshot.
pub proof fn law_reply_has_a_line_per_session(snapshot: Seq<SessionView>, i: int)
    requires
        0 <= i < snapshot.len(),
    ensures
        reply_text(snapshot) == joined(reply_lines(snapshot), "\n"@),
        reply_lines(snapshot).len() == snapshot.len() + 2,
        reply_lines(snapshot)[i + 2] == session_line(snapshot[i]),
{
}

/// The line of a session names the agent first, and ends with a sign where the session is
/// marked, with a bracket where it is not.
pub proof fn law_line_names_agent_and_warning(s: SessionView)
    ensures
        s.agent.is_prefix_of(session_line(s)),
        (s.context_tokens matches Some(n) && s.auto_compact_threshold > 0 && 5 * n >= 4
            * s.auto_compact_threshold) ==> session_line(s).last() == "⚠️"@.last(),
        !(s.context_tokens matches Some(n) && s.auto_compact_threshold > 0 && 5 * n >= 4
            * s.auto_compact_threshold) ==> session_line(s).last() == ')',
        "⚠️"@.last() != ')',
{
    reveal_strlit("  ⚠️");
    reveal_strlit("⚠️");
    reveal_strlit("");
    reveal_strlit(")");
    law_warning_from_four_fifths(s);
    assert(session_line(s).subrange(0, s.agent.len() as int) =~= s.agent);
    let over = override_percent(s.auto_compact_threshold, s.context_limit);
    let compaction = "  (auto-compact at "@ + compact_text(s.auto_compact_threshold as nat) + " = "@
        + decimal(over.0 as nat) + "%"@ + (if over.1 {
        " ⚠️"@
    } else {
        ""@
    }) + ")"@;
    assert(compaction.last() == ')');
}

/// A snapshot shows the sessions of its readings as they are.
pub proof fn law_snapshot_shows_the_readings(
    reading: &AgentReading,
    r: Option<SessionContext>,
    readings: &Vec<AgentReading>,
    all: Vec<SessionContext>,
)
    requires
        call_ensures(snapshot_for, (reading,), r),
        call_ensures(gather, (readings,), all),
    ensures
        r is Some <==> session_of(*reading) is Some,
        r matches Some(s) ==> session_of(*reading) == Some(s@),
        all@.len() == snapshot_of(readings@).len(),
        forall|i: int|
            0 <= i < all@.len() ==> (#[trigger] all@[i])@ == snapshot_of(readings@)[i],
{
    assert(session_views(all@) == snapshot_of(readings@));
    assert forall|i: int| 0 <= i < all@.len() implies (#[trigger] all@[i])@ == snapshot_of(
        readings@,
    )[i] by {
        assert(session_views(all@)[i] == all@[i]@);
    }
}

/// A live agent with a configured threshold is shown with it.
pub proof fn law_configured_threshold_is_shown(
    reading: &AgentReading,
    r: Option<SessionContext>,
    n: u64,
)
    requires
        call_ensures(snapshot_for, (reading,), r),
        r is Some,
        reading.state.config.auto_compact_threshold_tokens == Some(n),
    ensures
        r->0.auto_compact_threshold == n,
        r->0.agent@ == reading.state.config.name@,
        r->0.model@ == reading.state.config.model@,
        r->0.session_id@ == reading.state.session_id@,
{
    law_session_is_that_of_the_agent(*reading, r->0@);
}

/// The window, the percentage, the mark and the reply are those of the session.
pub proof fn law_session_is_told_as_it_is(
    model: &str,
    family: &str,
    window: u64,
    threshold: u64,
    pct: (u64, bool),
    s: &SessionContext,
    warning: bool,
    clamp: bool,
    snapshot: &[SessionContext],
    reply: String,
)
    requires
        call_ensures(context_window_for_model, (model, family), window),
        call_ensures(autocompact_pct, (threshold, window), pct),
        call_ensures(SessionContext::is_warning, (s,), warning),
        call_ensures(SessionContext::threshold_would_clamp, (s,), clamp),
        call_ensures(format_reply, (snapshot,), reply),
    ensures
        window == window_of(model@, family@),
        pct == override_percent(threshold, window),
        warning == warns(s@),
        clamp == clamps(s@),
        snapshot@.len() == 0 ==> reply@ == "No active sessions."@,
        snapshot@.len() > 0 ==> reply@ == joined(reply_lines(session_views(snapshot@)), "\n"@),
{
}

/// The line of a session says, in this order, whose session it is, how many tokens it holds
/// of how many, and from how many tokens on, and from what share of the window on, it is
/// compacted.
pub proof fn law_line_says_tokens_and_share(s: SessionView)
    ensures
        ({
            let share = "  (auto-compact at "@ + compact_text(s.auto_compact_threshold as nat)
                + " = "@ + decimal(
                override_percent(s.auto_compact_threshold, s.context_limit).0 as nat,
            ) + "%"@;
            let who = s.agent + " (session "@ + short_id(s.session_id);
            &&& s.context_tokens matches Some(n) ==> (who + ")  ~"@ + compact_text(n as nat)
                + " / "@ + compact_text(s.context_limit as nat) + share).is_prefix_of(
                session_line(s),
            )
            &&& s.context_tokens is None ==> (who + ")  n/a / "@ + compact_text(
                s.context_limit as nat,
            ) + share).is_prefix_of(session_line(s))
        }),
{
    let share = "  (auto-compact at "@ + compact_text(s.auto_compact_threshold as nat) + " = "@
        + decimal(override_percent(s.auto_compact_threshold, s.context_limit).0 as nat) + "%"@;
    let who = s.agent + " (session "@ + short_id(s.session_id);
    match s.context_tokens {
        Some(n) => {
            let head = who + ")  ~"@ + compact_text(n as nat) + " / "@ + compact_text(
                s.context_limit as nat,
            ) + share;
            assert(session_line(s).subrange(0, head.len() as int) =~= head);
        },
        None => {
            let head = who + ")  n/a / "@ + compact_text(s.context_limit as nat) + share;
            assert(session_line(s).subrange(0, head.len() as int) =~= head);
        },
    }
}

} // verus!

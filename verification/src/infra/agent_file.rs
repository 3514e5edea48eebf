//! Agents as files: markdown with YAML frontmatter.
//!
//! The frontmatter holds the agent's configuration and its `jobs`; the text behind
//! it is the system prompt. A file `<name>.agent.md` gives its agent the name that
//! the frontmatter leaves out. Jobs become schedules that send their prompt to the
//! agent.

use crate::text::CharClass;
use crate::text::ascending;
use crate::text::concat2;
use crate::text::ends_with;
use crate::text::from_chars;
use crate::text::has_suffix;
use crate::text::law_pieces_make_the_text;
use crate::text::law_placed_adds_one;
use crate::text::lemma_placed_ascending;
use crate::text::pieces;
use crate::text::place;
use crate::text::placed;
use crate::text::split_inclusive;
use crate::text::strip_suffix;
use crate::text::text_eq;
use crate::text::texts;
use crate::text::to_chars;
use crate::text::trim;
use crate::text::trim_end;
use crate::text::trimmed;
use crate::text::trimmed_end;
use crate::yaml::Yaml;
use crate::yaml::YamlView;
use crate::yaml::entry_of;
use crate::yaml::lemma_yaml_items;
use crate::yaml::parse_yaml;
use crate::yaml::untagged;
use crate::yaml::yaml_entries;
use crate::yaml::yaml_entry;
use crate::yaml::yaml_found;
use crate::yaml::yaml_items;
use crate::yaml::yaml_parsed;
use crate::yaml::yaml_text;
use vstd::prelude::*;

verus! {

/// Why a file is no agent.
#[derive(Debug, Clone, Copy, PartialEq, Eq, Structural)]
pub enum AgentFileError {
    Empty,
    MissingOpen,
    MissingClose,
    Yaml,
    NotMapping,
    Jobs,
    NoName,
    NameNotString,
    Schema,
}

pub open spec fn error_text(e: AgentFileError) -> Seq<char> {
    match e {
        AgentFileError::Empty => "agent file is empty"@,
        AgentFileError::MissingOpen => "agent file must start with '---' frontmatter delimiter"@,
        AgentFileError::MissingClose =>
            "agent file is missing a closing '---' frontmatter delimiter"@,
        AgentFileError::Yaml => "failed to parse agent frontmatter as YAML"@,
        AgentFileError::NotMapping => "agent frontmatter must be a YAML mapping"@,
        AgentFileError::Jobs => "invalid `jobs` block"@,
        AgentFileError::NoName =>
            "agent file has no `name` and filename does not provide a default"@,
        AgentFileError::NameNotString => "agent `name` must be a string"@,
        AgentFileError::Schema => "agent frontmatter does not match SubAgentDef schema"@,
    }
}

impl AgentFileError {
    /// The error in words.
    pub fn message(&self) -> (r: &'static str)
        ensures
            r@ == error_text(*self),
    {
        match self {
            AgentFileError::Empty => "agent file is empty",
            AgentFileError::MissingOpen => "agent file must start with '---' frontmatter delimiter",
            AgentFileError::MissingClose =>
                "agent file is missing a closing '---' frontmatter delimiter",
            AgentFileError::Yaml => "failed to parse agent frontmatter as YAML",
            AgentFileError::NotMapping => "agent frontmatter must be a YAML mapping",
            AgentFileError::Jobs => "invalid `jobs` block",
            AgentFileError::NoName =>
                "agent file has no `name` and filename does not provide a default",
            AgentFileError::NameNotString => "agent `name` must be a string",
            AgentFileError::Schema => "agent frontmatter does not match SubAgentDef schema",
        }
    }
}

// ─── Frontmatter ────────────────────────────────────────────────────────────

/// The text without a byte order mark in front.
pub open spec fn without_mark(s: Seq<char>) -> Seq<char> {
    if s.len() > 0 && s[0] == '\u{feff}' {
        s.drop_first()
    } else {
        s
    }
}

/// Whether the piece is a line of three dashes.
pub open spec fn is_fence(piece: Seq<char>) -> bool {
    trimmed_end(piece, CharClass::LineEnd) == "---"@
}

/// The place of the first fence from `i` on, or the number of pieces.
pub open spec fn next_fence(pieces: Seq<Seq<char>>, i: nat) -> nat
    decreases pieces.len() - i,
{
    if i >= pieces.len() || is_fence(pieces[i as int]) {
        i
    } else {
        next_fence(pieces, i + 1)
    }
}

/// The texts one behind the other.
pub open spec fn chained(parts: Seq<Seq<char>>) -> Seq<char>
    decreases parts.len(),
{
    if parts.len() == 0 {
        Seq::empty()
    } else {
        chained(parts.drop_last()) + parts.last()
    }
}

/// The text between the first two fences and the text behind them.
pub open spec fn split_of(content: Seq<char>) -> Result<(Seq<char>, Seq<char>), AgentFileError> {
    let parts = pieces(without_mark(content));
    if parts.len() == 0 {
        Err(AgentFileError::Empty)
    } else if !is_fence(parts[0]) {
        Err(AgentFileError::MissingOpen)
    } else {
        let close = next_fence(parts, 1);
        if close >= parts.len() {
            Err(AgentFileError::MissingClose)
        } else {
            Ok((chained(parts.subrange(1, close as int)), chained(parts.skip(close as int + 1))))
        }
    }
}

fn fence(piece: &str) -> (r: bool)
    ensures
        r == is_fence(piece@),
{
    text_eq(trim_end(piece, CharClass::LineEnd).as_str(), "---")
}

/// The texts `parts[from..to]` one behind the other.
fn chain(parts: &Vec<String>, from: usize, to: usize) -> (r: String)
    requires
        from <= to <= parts@.len(),
    ensures
        r@ == chained(texts(parts@).subrange(from as int, to as int)),
{
    let mut out = String::new();
    let mut i: usize = from;
    while i < to
        invariant
            from <= i <= to <= parts@.len(),
            out@ == chained(texts(parts@).subrange(from as int, i as int)),
        decreases to - i,
    {
        proof {
            let next = texts(parts@).subrange(from as int, i + 1);
            assert(next.drop_last() =~= texts(parts@).subrange(from as int, i as int));
            assert(next.last() == parts@[i as int]@);
        }
        out.append(parts[i].as_str());
        i += 1;
    }
    out
}

/// Splits a document into frontmatter and body. The first line must be a fence of
/// three dashes, and so must a later one; neither is part of the result.
pub fn split_frontmatter(content: &str) -> (r: Result<(String, String), AgentFileError>)
    ensures
        match r {
            Ok(parts) => split_of(content@) == Ok::<(Seq<char>, Seq<char>), AgentFileError>(
                (parts.0@, parts.1@),
            ),
            Err(e) => split_of(content@) == Err::<(Seq<char>, Seq<char>), AgentFileError>(e),
        },
{
    let chars = to_chars(content);
    let from: usize = if chars.len() > 0 && chars[0] == '\u{feff}' { 1 } else { 0 };
    let text = from_chars(&chars, from, chars.len());
    assert(text@ =~= without_mark(content@));
    let parts = split_inclusive(text.as_str());
    let ghost all = pieces(text@);
    assert(all.len() == parts@.len());
    if parts.len() == 0 {
        return Err(AgentFileError::Empty);
    }
    assert(all[0] == parts@[0]@);
    if !fence(parts[0].as_str()) {
        return Err(AgentFileError::MissingOpen);
    }
    let mut i: usize = 1;
    while i < parts.len()
        invariant
            1 <= i <= parts@.len(),
            all == texts(parts@),
            all == pieces(text@),
            text@ == without_mark(content@),
            is_fence(all[0]),
            next_fence(all, 1) == next_fence(all, i as nat),
        decreases parts@.len() - i,
    {
        assert(all[i as int] == parts@[i as int]@);
        if fence(parts[i].as_str()) {
            let front = chain(&parts, 1, i);
            let body = chain(&parts, i + 1, parts.len());
            assert(all.subrange(i + 1, all.len() as int) =~= all.skip(i + 1));
            return Ok((front, body));
        }
        i += 1;
    }
    Err(AgentFileError::MissingClose)
}

// ─── Agents ─────────────────────────────────────────────────────────────────

/// A sub-agent.
#[derive(Debug)]
pub struct SubAgentDef {
    pub name: String,
    pub model: String,
    pub system_prompt: String,
    pub subscribe: Vec<String>,
}

/// What a schedule does when it fires.
#[derive(Debug, Clone, Copy, PartialEq, Eq, Structural)]
pub enum ScheduleAction {
    /// Sends the configured value as it is.
    Raw,
}

/// A schedule.
#[derive(Debug)]
pub struct ScheduleDef {
    pub cron: String,
    pub target: String,
    pub action: ScheduleAction,
    pub config: Option<Yaml>,
    pub timezone: Option<String>,
}

/// An agent with the schedules of its jobs.
#[derive(Debug)]
pub struct LoadedAgentFile {
    pub agent: SubAgentDef,
    pub schedules: Vec<ScheduleDef>,
}

struct AgentJob {
    cron: String,
    prompt: String,
    timezone: Option<String>,
}

pub ghost struct JobView {
    pub cron: Seq<char>,
    pub prompt: Seq<char>,
    pub timezone: Option<Seq<char>>,
}

/// The model of an agent file.
pub ghost struct AgentFileView {
    pub name: Seq<char>,
    pub model: Seq<char>,
    pub system_prompt: Seq<char>,
    pub subscribe: Seq<Seq<char>>,
    pub jobs: Seq<JobView>,
}

pub open spec fn zone_text(z: Option<String>) -> Option<Seq<char>> {
    match z {
        Some(s) => Some(s@),
        None => None,
    }
}

/// Whether the schedule sends the job's prompt to the agent.
pub open spec fn schedules_job(s: ScheduleDef, job: JobView, agent: Seq<char>) -> bool {
    &&& s.cron@ == job.cron
    &&& s.target@ == "agent:"@ + agent
    &&& s.action == ScheduleAction::Raw
    &&& s.config matches Some(v) && v@ == YamlView::Str(job.prompt)
    &&& zone_text(s.timezone) == job.timezone
}

/// Whether the file holds the agent and a schedule for each of its jobs, in order.
pub open spec fn loads(f: LoadedAgentFile, v: AgentFileView) -> bool {
    &&& f.agent.name@ == v.name
    &&& f.agent.model@ == v.model
    &&& f.agent.system_prompt@ == v.system_prompt
    &&& texts(f.agent.subscribe@) == v.subscribe
    &&& f.schedules@.len() == v.jobs.len()
    &&& forall|i: int|
        0 <= i < v.jobs.len() ==> schedules_job(#[trigger] f.schedules@[i], v.jobs[i], v.name)
}

/// The entries of the frontmatter; an empty document has none.
pub open spec fn frontmatter_entries(v: YamlView) -> Option<Seq<(YamlView, YamlView)>> {
    match untagged(v) {
        YamlView::Null => Some(Seq::empty()),
        YamlView::Mapping(entries) => Some(entries),
        _ => None,
    }
}

/// A job: a mapping with `cron` and `prompt`, and perhaps a `timezone`.
pub open spec fn job_of(v: YamlView) -> Option<JobView> {
    match untagged(v) {
        YamlView::Mapping(entries) => match (
            entry_of(entries, "cron"@),
            entry_of(entries, "prompt"@),
            zone_of(entry_of(entries, "timezone"@)),
        ) {
            (Some(cron), Some(prompt), Some(timezone)) => match (
                yaml_text(cron),
                yaml_text(prompt),
            ) {
                (Some(c), Some(p)) => Some(JobView { cron: c, prompt: p, timezone }),
                _ => None,
            },
            _ => None,
        },
        _ => None,
    }
}

/// An optional text: missing or null is none, anything but a text is an error.
pub open spec fn zone_of(v: Option<YamlView>) -> Option<Option<Seq<char>>> {
    match v {
        None => Some(None),
        Some(YamlView::Null) => Some(None),
        Some(z) => match yaml_text(z) {
            Some(t) => Some(Some(t)),
            None => None,
        },
    }
}

/// The jobs, where each of them is one.
pub open spec fn jobs_in(items: Seq<YamlView>) -> Option<Seq<JobView>>
    decreases items.len(),
{
    if items.len() == 0 {
        Some(Seq::empty())
    } else {
        match (jobs_in(items.drop_last()), job_of(items.last())) {
            (Some(front), Some(job)) => Some(front.push(job)),
            _ => None,
        }
    }
}

/// The `jobs` block: missing or null is empty.
pub open spec fn jobs_of(v: Option<YamlView>) -> Option<Seq<JobView>> {
    match v {
        None => Some(Seq::empty()),
        Some(block) => match untagged(block) {
            YamlView::Null => Some(Seq::empty()),
            YamlView::Sequence(items) => jobs_in(items),
            _ => None,
        },
    }
}

/// The texts of a sequence, where all are texts.
pub open spec fn texts_in(items: Seq<YamlView>) -> Option<Seq<Seq<char>>>
    decreases items.len(),
{
    if items.len() == 0 {
        Some(Seq::empty())
    } else {
        match (texts_in(items.drop_last()), yaml_text(items.last())) {
            (Some(front), Some(t)) => Some(front.push(t)),
            _ => None,
        }
    }
}

/// What the agent subscribes to: itself where nothing is said.
pub open spec fn subscriptions_of(v: Option<YamlView>, name: Seq<char>) -> Option<Seq<Seq<char>>> {
    match v {
        None => Some(seq!["agent:"@ + name]),
        Some(block) => match untagged(block) {
            YamlView::Null => Some(Seq::empty()),
            YamlView::Sequence(items) => texts_in(items),
            _ => None,
        },
    }
}

/// The name: that of the frontmatter, else the default.
pub open spec fn name_in(
    entries: Seq<(YamlView, YamlView)>,
    default_name: Seq<char>,
) -> Result<Seq<char>, AgentFileError> {
    match entry_of(entries, "name"@) {
        None => if default_name.len() == 0 {
            Err(AgentFileError::NoName)
        } else {
            Ok(default_name)
        },
        Some(v) => match yaml_text(v) {
            Some(name) => Ok(name),
            None => Err(AgentFileError::NameNotString),
        },
    }
}

/// The system prompt: the body, else that of the frontmatter, else empty.
pub open spec fn prompt_in(entries: Seq<(YamlView, YamlView)>, body: Seq<char>) -> Option<Seq<char>> {
    let text = trimmed(body, CharClass::White);
    if text.len() > 0 {
        Some(text)
    } else {
        match entry_of(entries, "system_prompt"@) {
            None => Some(Seq::empty()),
            Some(v) => yaml_text(v),
        }
    }
}

/// The agent of parsed frontmatter and a body.
pub open spec fn agent_of(
    v: YamlView,
    body: Seq<char>,
    default_name: Seq<char>,
) -> Result<AgentFileView, AgentFileError> {
    match frontmatter_entries(v) {
        None => Err(AgentFileError::NotMapping),
        Some(entries) => match jobs_of(entry_of(entries, "jobs"@)) {
            None => Err(AgentFileError::Jobs),
            Some(jobs) => match name_in(entries, default_name) {
                Err(e) => Err(e),
                Ok(name) => match (
                    entry_of(entries, "model"@),
                    subscriptions_of(entry_of(entries, "subscribe"@), name),
                    prompt_in(entries, body),
                ) {
                    (Some(m), Some(subscribe), Some(system_prompt)) => match yaml_text(m) {
                        Some(model) => Ok(
                            AgentFileView { name, model, system_prompt, subscribe, jobs },
                        ),
                        None => Err(AgentFileError::Schema),
                    },
                    _ => Err(AgentFileError::Schema),
                },
            },
        },
    }
}

fn read_zone(v: Option<&Yaml>) -> (r: Option<Option<String>>)
    ensures
        match r {
            Some(z) => zone_of(yaml_found(v)) == Some(zone_text(z)),
            None => zone_of(yaml_found(v)) is None,
        },
{
    match v {
        None => Some(None),
        Some(Yaml::Null) => Some(None),
        Some(z) => match z.as_str() {
            Some(t) => Some(Some(t.to_owned())),
            None => None,
        },
    }
}

fn read_job(v: &Yaml) -> (r: Option<AgentJob>)
    ensures
        match r {
            Some(job) => job_of(v@) == Some(
                JobView {
                    cron: job.cron@,
                    prompt: job.prompt@,
                    timezone: zone_text(job.timezone),
                },
            ),
            None => job_of(v@) is None,
        },
{
    match v.untag() {
        Yaml::Mapping(entries) => {
            let cron = match yaml_entry(entries, "cron") {
                Some(c) => c.as_str(),
                None => None,
            };
            let prompt = match yaml_entry(entries, "prompt") {
                Some(p) => p.as_str(),
                None => None,
            };
            let zone = read_zone(yaml_entry(entries, "timezone"));
            match (cron, prompt, zone) {
                (Some(c), Some(p), Some(timezone)) => Some(
                    AgentJob { cron: c.to_owned(), prompt: p.to_owned(), timezone },
                ),
                _ => None,
            }
        },
        _ => None,
    }
}

/// The schedule that sends the job's prompt to the agent.
fn schedule_for(job: AgentJob, agent: &str) -> (r: ScheduleDef)
    ensures
        schedules_job(
            r,
            JobView {
                cron: job.cron@,
                prompt: job.prompt@,
                timezone: zone_text(job.timezone),
            },
            agent@,
        ),
{
    ScheduleDef {
        cron: job.cron,
        target: concat2("agent:", agent),
        action: ScheduleAction::Raw,
        config: Some(Yaml::Str(job.prompt)),
        timezone: job.timezone,
    }
}

/// Whether the schedules are those of the jobs.
spec fn schedules_jobs(
    schedules: Seq<ScheduleDef>,
    jobs: Seq<JobView>,
    agent: Seq<char>,
) -> bool {
    schedules.len() == jobs.len() && forall|i: int|
        0 <= i < jobs.len() ==> schedules_job(#[trigger] schedules[i], jobs[i], agent)
}

/// The schedules of the `jobs` block.
fn read_jobs(block: Option<&Yaml>, agent: &str) -> (r: Option<Vec<ScheduleDef>>)
    ensures
        match r {
            Some(schedules) => jobs_of(yaml_found(block)) matches Some(jobs) && schedules_jobs(
                schedules@,
                jobs,
                agent@,
            ),
            None => jobs_of(yaml_found(block)) is None,
        },
{
    let mut out: Vec<ScheduleDef> = Vec::new();
    match block {
        None => Some(out),
        Some(v) => match v.untag() {
            Yaml::Null => Some(out),
            Yaml::Sequence(items) => {
                let ghost views = yaml_items(items@);
                proof {
                    lemma_yaml_items(items@);
                    assert(views.take(0) =~= Seq::<YamlView>::empty());
                }
                let mut i: usize = 0;
                while i < items.len()
                    invariant
                        i <= items@.len(),
                        views == yaml_items(items@),
                        views.len() == items@.len(),
                        forall|k: int|
                            0 <= k < items@.len() ==> #[trigger] views[k] == items@[k]@,
                        jobs_of(yaml_found(block)) == jobs_in(views),
                        jobs_in(views.take(i as int)) matches Some(jobs) && schedules_jobs(
                            out@,
                            jobs,
                            agent@,
                        ),
                    decreases items@.len() - i,
                {
                    let ghost front = jobs_in(views.take(i as int))->0;
                    proof {
                        assert(views.take(i + 1).drop_last() =~= views.take(i as int));
                        assert(views[i as int] == items@[i as int]@);
                    }
                    match read_job(&items[i]) {
                        Some(job) => {
                            let ghost view = JobView {
                                cron: job.cron@,
                                prompt: job.prompt@,
                                timezone: zone_text(job.timezone),
                            };
                            let ghost before = out@;
                            out.push(schedule_for(job, agent));
                            proof {
                                let all = front.push(view);
                                assert(jobs_in(views.take(i + 1)) == Some(all));
                                assert forall|k: int| 0 <= k < all.len() implies schedules_job(
                                    #[trigger] out@[k],
                                    all[k],
                                    agent@,
                                ) by {
                                    if k < before.len() {
                                        assert(out@[k] == before[k]);
                                    }
                                }
                            }
                        },
                        None => {
                            proof {
                                lemma_jobs_in_fails(views, i + 1);
                            }
                            return None;
                        },
                    }
                    i += 1;
                }
                assert(views.take(views.len() as int) =~= views);
                Some(out)
            },
            _ => None,
        },
    }
}

proof fn lemma_jobs_in_fails(items: Seq<YamlView>, k: int)
    requires
        0 <= k <= items.len(),
        jobs_in(items.take(k)) is None,
    ensures
        jobs_in(items) is None,
    decreases items.len(),
{
    if k == items.len() {
        assert(items.take(k) =~= items);
    } else {
        assert(items.drop_last().take(k) =~= items.take(k));
        lemma_jobs_in_fails(items.drop_last(), k);
    }
}

proof fn lemma_texts_in_fails(items: Seq<YamlView>, k: int)
    requires
        0 <= k <= items.len(),
        texts_in(items.take(k)) is None,
    ensures
        texts_in(items) is None,
    decreases items.len(),
{
    if k == items.len() {
        assert(items.take(k) =~= items);
    } else {
        assert(items.drop_last().take(k) =~= items.take(k));
        lemma_texts_in_fails(items.drop_last(), k);
    }
}

fn read_subscriptions(block: Option<&Yaml>, name: &str) -> (r: Option<Vec<String>>)
    ensures
        match r {
            Some(list) => subscriptions_of(yaml_found(block), name@) == Some(texts(list@)),
            None => subscriptions_of(yaml_found(block), name@) is None,
        },
{
    let mut out: Vec<String> = Vec::new();
    match block {
        None => {
            out.push(concat2("agent:", name));
            assert(texts(out@) =~= seq!["agent:"@ + name@]);
            Some(out)
        },
        Some(v) => match v.untag() {
            Yaml::Null => {
                assert(texts(out@) =~= Seq::<Seq<char>>::empty());
                Some(out)
            },
            Yaml::Sequence(items) => {
                let ghost views = yaml_items(items@);
                proof {
                    lemma_yaml_items(items@);
                    assert(views.take(0) =~= Seq::<YamlView>::empty());
                    assert(texts(out@) =~= Seq::<Seq<char>>::empty());
                }
                let mut i: usize = 0;
                while i < items.len()
                    invariant
                        i <= items@.len(),
                        views == yaml_items(items@),
                        views.len() == items@.len(),
                        forall|k: int|
                            0 <= k < items@.len() ==> #[trigger] views[k] == items@[k]@,
                        subscriptions_of(yaml_found(block), name@) == texts_in(views),
                        texts_in(views.take(i as int)) == Some(texts(out@)),
                    decreases items@.len() - i,
                {
                    proof {
                        assert(views.take(i + 1).drop_last() =~= views.take(i as int));
                        assert(views[i as int] == items@[i as int]@);
                    }
                    match items[i].as_str() {
                        Some(t) => {
                            let s = t.to_owned();
                            assert(texts(out@.push(s)) =~= texts(out@).push(s@));
                            out.push(s);
                        },
                        None => {
                            proof {
                                lemma_texts_in_fails(views, i + 1);
                            }
                            return None;
                        },
                    }
                    i += 1;
                }
                assert(views.take(views.len() as int) =~= views);
                Some(out)
            },
            _ => None,
        },
    }
}

fn read_name(entries: &Vec<(Yaml, Yaml)>, default_name: &str) -> (r: Result<
    String,
    AgentFileError,
>)
    ensures
        match r {
            Ok(name) => name_in(yaml_entries(entries@), default_name@) == Ok::<
                Seq<char>,
                AgentFileError,
            >(name@),
            Err(e) => name_in(yaml_entries(entries@), default_name@) == Err::<
                Seq<char>,
                AgentFileError,
            >(e),
        },
{
    match yaml_entry(entries, "name") {
        None => if default_name.is_empty() {
            Err(AgentFileError::NoName)
        } else {
            Ok(default_name.to_owned())
        },
        Some(v) => match v.as_str() {
            Some(name) => Ok(name.to_owned()),
            None => Err(AgentFileError::NameNotString),
        },
    }
}

fn read_prompt(entries: &Vec<(Yaml, Yaml)>, body: &str) -> (r: Option<String>)
    ensures
        match r {
            Some(p) => prompt_in(yaml_entries(entries@), body@) == Some(p@),
            None => prompt_in(yaml_entries(entries@), body@) is None,
        },
{
    let text = trim(body);
    if !text.as_str().is_empty() {
        return Some(text);
    }
    match yaml_entry(entries, "system_prompt") {
        None => Some(String::new()),
        Some(v) => match v.as_str() {
            Some(p) => Some(p.to_owned()),
            None => None,
        },
    }
}

fn agent_from_entries(
    entries: &Vec<(Yaml, Yaml)>,
    body: &str,
    default_name: &str,
) -> (r: Result<LoadedAgentFile, AgentFileError>)
    ensures
        match r {
            Ok(f) => agent_of(
                YamlView::Mapping(yaml_entries(entries@)),
                body@,
                default_name@,
            ) matches Ok(v) && loads(f, v),
            Err(e) => agent_of(YamlView::Mapping(yaml_entries(entries@)), body@, default_name@)
                == Err::<AgentFileView, AgentFileError>(e),
        },
{
    let named = read_name(entries, default_name);
    let agent_name: &str = match &named {
        Ok(n) => n.as_str(),
        Err(_) => "",
    };
    let schedules = match read_jobs(yaml_entry(entries, "jobs"), agent_name) {
        Some(s) => s,
        None => {
            return Err(AgentFileError::Jobs);
        },
    };
    let name = match named {
        Ok(n) => n,
        Err(e) => {
            return Err(e);
        },
    };
    let model = match yaml_entry(entries, "model") {
        Some(m) => m.as_str(),
        None => None,
    };
    let subscribe = read_subscriptions(yaml_entry(entries, "subscribe"), name.as_str());
    let prompt = read_prompt(entries, body);
    match (model, subscribe, prompt) {
        (Some(m), Some(subscribe), Some(system_prompt)) => {
            let agent = SubAgentDef { name, model: m.to_owned(), system_prompt, subscribe };
            Ok(LoadedAgentFile { agent, schedules })
        },
        _ => Err(AgentFileError::Schema),
    }
}

/// The agent of parsed frontmatter and a body. `default_name` counts where the
/// frontmatter has no `name`.
pub fn agent_from_yaml(value: &Yaml, body: &str, default_name: &str) -> (r: Result<
    LoadedAgentFile,
    AgentFileError,
>)
    ensures
        match r {
            Ok(f) => agent_of(value@, body@, default_name@) matches Ok(v) && loads(f, v),
            Err(e) => agent_of(value@, body@, default_name@) == Err::<
                AgentFileView,
                AgentFileError,
            >(e),
        },
{
    match value.untag() {
        Yaml::Null => {
            let none: Vec<(Yaml, Yaml)> = Vec::new();
            agent_from_entries(&none, body, default_name)
        },
        Yaml::Mapping(entries) => agent_from_entries(entries, body, default_name),
        _ => Err(AgentFileError::NotMapping),
    }
}

/// The agent of frontmatter text and a body.
pub open spec fn parsed_agent(
    frontmatter: Seq<char>,
    body: Seq<char>,
    default_name: Seq<char>,
) -> Result<AgentFileView, AgentFileError> {
    match yaml_parsed(frontmatter) {
        Some(v) => agent_of(v, body, default_name),
        None => Err(AgentFileError::Yaml),
    }
}

/// Parses frontmatter and body into an agent with its schedules.
pub fn parse_agent(frontmatter: &str, body: &str, default_name: &str) -> (r: Result<
    LoadedAgentFile,
    AgentFileError,
>)
    ensures
        match r {
            Ok(f) => parsed_agent(frontmatter@, body@, default_name@) matches Ok(v) && loads(f, v),
            Err(e) => parsed_agent(frontmatter@, body@, default_name@) == Err::<
                AgentFileView,
                AgentFileError,
            >(e),
        },
{
    match parse_yaml(frontmatter) {
        Some(value) => agent_from_yaml(&value, body, default_name),
        None => Err(AgentFileError::Yaml),
    }
}

// ─── Files ──────────────────────────────────────────────────────────────────

/// The name that a file name gives its agent.
pub open spec fn stem_of(file_name: Seq<char>) -> Seq<char> {
    if has_suffix(file_name, ".agent.md"@) {
        file_name.take(file_name.len() - ".agent.md"@.len())
    } else if has_suffix(file_name, ".md"@) {
        file_name.take(file_name.len() - ".md"@.len())
    } else {
        file_name
    }
}

/// The name that a file name gives its agent.
pub fn default_agent_name(file_name: &str) -> (r: String)
    ensures
        r@ == stem_of(file_name@),
{
    match strip_suffix(file_name, ".agent.md") {
        Some(stem) => stem,
        None => match strip_suffix(file_name, ".md") {
            Some(stem) => stem,
            None => file_name.to_owned(),
        },
    }
}

/// The agent of a file with the name and content.
pub open spec fn loaded_agent(
    file_name: Seq<char>,
    content: Seq<char>,
) -> Result<AgentFileView, AgentFileError> {
    match split_of(content) {
        Ok(parts) => parsed_agent(parts.0, parts.1, stem_of(file_name)),
        Err(e) => Err(e),
    }
}

/// Loads an agent from the content of a file.
pub fn load_agent_text(file_name: &str, content: &str) -> (r: Result<
    LoadedAgentFile,
    AgentFileError,
>)
    ensures
        match r {
            Ok(f) => loaded_agent(file_name@, content@) matches Ok(v) && loads(f, v),
            Err(e) => loaded_agent(file_name@, content@) == Err::<AgentFileView, AgentFileError>(e),
        },
{
    match split_frontmatter(content) {
        Ok(parts) => {
            let name = default_agent_name(file_name);
            parse_agent(parts.0.as_str(), parts.1.as_str(), name.as_str())
        },
        Err(e) => Err(e),
    }
}

/// The names of agent files, in ascending order.
pub open spec fn agent_files_in(names: Seq<Seq<char>>) -> Seq<Seq<char>>
    decreases names.len(),
{
    if names.len() == 0 {
        Seq::empty()
    } else {
        let front = agent_files_in(names.drop_last());
        if has_suffix(names.last(), ".agent.md"@) {
            placed(front, names.last())
        } else {
            front
        }
    }
}

/// Picks the agent files out of the names in a directory, in the order in which they
/// are loaded.
pub fn agent_file_names(names: &Vec<String>) -> (r: Vec<String>)
    ensures
        texts(r@) == agent_files_in(texts(names@)),
{
    let mut out: Vec<String> = Vec::new();
    let mut i: usize = 0;
    assert(texts(names@).take(0) =~= Seq::<Seq<char>>::empty());
    assert(texts(out@) =~= agent_files_in(texts(names@).take(0)));
    while i < names.len()
        invariant
            i <= names@.len(),
            texts(out@) == agent_files_in(texts(names@).take(i as int)),
        decreases names@.len() - i,
    {
        let ghost next = texts(names@).take(i + 1);
        proof {
            assert(next.drop_last() =~= texts(names@).take(i as int));
            assert(next.last() == names@[i as int]@);
        }
        if ends_with(names[i].as_str(), ".agent.md") {
            place(&mut out, names[i].clone());
        }
        i += 1;
    }
    assert(texts(names@).take(names@.len() as int) =~= texts(names@));
    out
}

// ─── Laws ───────────────────────────────────────────────────────────────────

/// The body, where it is not blank, is the system prompt, whatever the frontmatter
/// says.
pub proof fn law_body_is_prompt(v: YamlView, body: Seq<char>, default_name: Seq<char>)
    requires
        trimmed(body, CharClass::White).len() > 0,
        agent_of(v, body, default_name) is Ok,
    ensures
        agent_of(v, body, default_name)->Ok_0.system_prompt == trimmed(body, CharClass::White),
{
}

/// A name in the frontmatter counts, whatever the file is called.
pub proof fn law_frontmatter_name_counts(v: YamlView, body: Seq<char>, default_name: Seq<char>)
    requires
        frontmatter_entries(v) matches Some(entries) && entry_of(entries, "name"@) is Some,
        agent_of(v, body, default_name) is Ok,
    ensures
        Some(agent_of(v, body, default_name)->Ok_0.name) == yaml_text(
            entry_of(frontmatter_entries(v)->0, "name"@)->0,
        ),
{
}

/// An agent without a `subscribe` entry listens to itself.
pub proof fn law_default_subscription(v: YamlView, body: Seq<char>, default_name: Seq<char>)
    requires
        frontmatter_entries(v) matches Some(entries) && entry_of(entries, "subscribe"@) is None,
        agent_of(v, body, default_name) is Ok,
    ensures
        agent_of(v, body, default_name)->Ok_0.subscribe == seq![
            "agent:"@ + agent_of(v, body, default_name)->Ok_0.name,
        ],
{
}

/// Agent files are loaded in ascending order of their names.
pub proof fn law_files_in_order(names: Seq<Seq<char>>)
    ensures
        ascending(agent_files_in(names)),
    decreases names.len(),
{
    if names.len() > 0 {
        law_files_in_order(names.drop_last());
        lemma_placed_ascending(agent_files_in(names.drop_last()), names.last());
    }
}

/// A file is its opening line, the frontmatter, the closing line and the body, one behind
/// the other; nothing of it is lost.
pub proof fn law_file_is_frontmatter_and_body(
    content: Seq<char>,
    frontmatter: Seq<char>,
    body: Seq<char>,
)
    requires
        split_of(content) == Ok::<(Seq<char>, Seq<char>), AgentFileError>((frontmatter, body)),
    ensures
        exists|open: Seq<char>, close: Seq<char>|
            trimmed_end(open, CharClass::LineEnd) == "---"@ && trimmed_end(
                close,
                CharClass::LineEnd,
            ) == "---"@ && without_mark(content) == #[trigger] (open + frontmatter) + #[trigger] (
            close + body),
{
    let text = without_mark(content);
    let parts = pieces(text);
    let close = next_fence(parts, 1) as int;
    lemma_next_fence(parts, 1);
    law_pieces_make_the_text(text);
    lemma_chained_is_flat(parts);
    let front = parts.subrange(1, close);
    let back = parts.skip(close + 1);
    assert(parts =~= seq![parts[0]] + front + (seq![parts[close]] + back));
    lemma_chained_concat(seq![parts[0]], front);
    lemma_chained_concat(seq![parts[close]], back);
    lemma_chained_concat(seq![parts[0]] + front, seq![parts[close]] + back);
    lemma_chained_one(parts[0]);
    lemma_chained_one(parts[close]);
    assert(text == (parts[0] + frontmatter) + (parts[close] + body));
}

/// The frontmatter ends at the first line of three dashes behind the opening one; a file
/// that does not begin with such a line, or has no second one, is refused.
pub proof fn law_first_closing_line_counts(content: Seq<char>)
    ensures
        split_of(content) is Ok ==> exists|close: int|
            0 < close < pieces(without_mark(content)).len() && is_fence(
                #[trigger] pieces(without_mark(content))[close],
            ) && (forall|k: int|
                0 < k < close ==> !is_fence(#[trigger] pieces(without_mark(content))[k]))
                && chained(pieces(without_mark(content)).subrange(1, close)) == split_of(
                content,
            )->Ok_0.0,
        without_mark(content).len() == 0 ==> split_of(content) == Err::<
            (Seq<char>, Seq<char>),
            AgentFileError,
        >(AgentFileError::Empty),
        pieces(without_mark(content)).len() > 0 && !is_fence(pieces(without_mark(content))[0])
            ==> split_of(content) == Err::<(Seq<char>, Seq<char>), AgentFileError>(
            AgentFileError::MissingOpen,
        ),
        split_of(content) == Err::<(Seq<char>, Seq<char>), AgentFileError>(
            AgentFileError::MissingClose,
        ) ==> forall|k: int|
            0 < k < pieces(without_mark(content)).len() ==> !is_fence(
                #[trigger] pieces(without_mark(content))[k],
            ),
{
    let parts = pieces(without_mark(content));
    if parts.len() > 0 {
        lemma_next_fence(parts, 1);
    }
    if split_of(content) is Ok {
        let close = next_fence(parts, 1) as int;
        assert(is_fence(parts[close]));
    }
}

proof fn lemma_next_fence(parts: Seq<Seq<char>>, i: nat)
    requires
        i <= parts.len(),
    ensures
        i <= next_fence(parts, i) <= parts.len(),
        next_fence(parts, i) < parts.len() ==> is_fence(parts[next_fence(parts, i) as int]),
        forall|k: int| i <= k < next_fence(parts, i) ==> !is_fence(#[trigger] parts[k]),
    decreases parts.len() - i,
{
    if i < parts.len() && !is_fence(parts[i as int]) {
        lemma_next_fence(parts, i + 1);
    }
}

proof fn lemma_chained_one(part: Seq<char>)
    ensures
        chained(seq![part]) == part,
{
    reveal_with_fuel(chained, 2);
    assert(seq![part].drop_last() =~= Seq::<Seq<char>>::empty());
    assert(Seq::<char>::empty() + part =~= part);
}

proof fn lemma_chained_concat(a: Seq<Seq<char>>, b: Seq<Seq<char>>)
    ensures
        chained(a + b) == chained(a) + chained(b),
    decreases b.len(),
{
    if b.len() == 0 {
        assert(a + b =~= a);
        assert(chained(a) + Seq::<char>::empty() =~= chained(a));
    } else {
        lemma_chained_concat(a, b.drop_last());
        assert((a + b).drop_last() =~= a + b.drop_last());
        assert(chained(a + b) =~= chained(a) + chained(b));
    }
}

proof fn lemma_chained_is_flat(parts: Seq<Seq<char>>)
    ensures
        chained(parts) == parts.flatten(),
    decreases parts.len(),
{
    parts.lemma_flatten_and_flatten_alt_are_equivalent();
    if parts.len() > 0 {
        lemma_chained_is_flat(parts.drop_last());
        parts.drop_last().lemma_flatten_and_flatten_alt_are_equivalent();
    }
}

/// The jobs are read one by one, in their order; one that cannot be read refuses them all.
pub proof fn law_jobs_one_by_one(items: Seq<YamlView>)
    ensures
        jobs_in(items) is Some <==> forall|i: int|
            0 <= i < items.len() ==> job_of(#[trigger] items[i]) is Some,
        jobs_in(items) matches Some(jobs) ==> jobs.len() == items.len() && forall|i: int|
            0 <= i < items.len() ==> job_of(#[trigger] items[i]) == Some(jobs[i]),
    decreases items.len(),
{
    if items.len() > 0 {
        let front = items.drop_last();
        law_jobs_one_by_one(front);
        if forall|i: int| 0 <= i < items.len() ==> job_of(#[trigger] items[i]) is Some {
            assert forall|i: int| 0 <= i < front.len() implies job_of(
                #[trigger] front[i],
            ) is Some by {
                assert(job_of(items[i]) is Some);
            }
            assert(job_of(items[items.len() - 1]) is Some);
        }
        if jobs_in(items) is Some {
            let jobs = jobs_in(items)->0;
            assert forall|i: int| 0 <= i < items.len() implies job_of(#[trigger] items[i]) == Some(
                jobs[i],
            ) by {
                if i < front.len() {
                    assert(job_of(front[i]) == Some(jobs_in(front)->0[i]));
                }
            }
        }
    }
}

/// A job runs its prompt at its times: `cron` and `prompt` must be there, and a time zone
/// may be.
pub proof fn law_job_as_written(
    entries: Seq<(YamlView, YamlView)>,
    cron: Seq<char>,
    prompt: Seq<char>,
    zone: Seq<char>,
)
    ensures
        entry_of(entries, "cron"@) == Some(YamlView::Str(cron)) && entry_of(entries, "prompt"@)
            == Some(YamlView::Str(prompt)) && entry_of(entries, "timezone"@) == Some(
            YamlView::Str(zone),
        ) ==> job_of(YamlView::Mapping(entries)) == Some(
            JobView { cron, prompt, timezone: Some(zone) },
        ),
        entry_of(entries, "cron"@) == Some(YamlView::Str(cron)) && entry_of(entries, "prompt"@)
            == Some(YamlView::Str(prompt)) && entry_of(entries, "timezone"@) is None ==> job_of(
            YamlView::Mapping(entries),
        ) == Some(JobView { cron, prompt, timezone: None }),
        entry_of(entries, "cron"@) is None ==> job_of(YamlView::Mapping(entries)) is None,
        entry_of(entries, "prompt"@) is None ==> job_of(YamlView::Mapping(entries)) is None,
{
}

/// An agent is what its frontmatter says: its model must be named, and its jobs are those
/// of the `jobs` block. Without a name it has that of its file, and without a body the
/// prompt of the frontmatter, or none.
pub proof fn law_agent_as_written(
    entries: Seq<(YamlView, YamlView)>,
    body: Seq<char>,
    default_name: Seq<char>,
    a: AgentFileView,
)
    requires
        agent_of(YamlView::Mapping(entries), body, default_name) == Ok::<
            AgentFileView,
            AgentFileError,
        >(a),
    ensures
        entry_of(entries, "model"@) matches Some(m) && yaml_text(m) == Some(a.model),
        entry_of(entries, "name"@) is None ==> a.name == default_name && default_name.len() > 0,
        entry_of(entries, "jobs"@) is None ==> a.jobs.len() == 0,
        entry_of(entries, "jobs"@) matches Some(YamlView::Sequence(items)) ==> jobs_in(items)
            == Some(a.jobs),
        trimmed(body, CharClass::White).len() == 0 && entry_of(entries, "system_prompt"@) is None
            ==> a.system_prompt.len() == 0,
        trimmed(body, CharClass::White).len() == 0 && entry_of(entries, "system_prompt"@) is Some
            ==> yaml_text(entry_of(entries, "system_prompt"@)->0) == Some(a.system_prompt),
        entry_of(entries, "subscribe"@) matches Some(YamlView::Sequence(items)) ==> texts_in(items)
            == Some(a.subscribe),
{
}

/// The texts of a list are its items, in their order, where all are texts.
pub proof fn law_texts_one_by_one(items: Seq<YamlView>)
    ensures
        texts_in(items) matches Some(t) ==> t.len() == items.len() && forall|i: int|
            0 <= i < items.len() ==> yaml_text(#[trigger] items[i]) == Some(t[i]),
        texts_in(items) is None ==> exists|i: int|
            0 <= i < items.len() && yaml_text(#[trigger] items[i]) is None,
    decreases items.len(),
{
    if items.len() > 0 {
        let front = items.drop_last();
        law_texts_one_by_one(front);
        if texts_in(items) is Some {
            let t = texts_in(items)->0;
            assert forall|i: int| 0 <= i < items.len() implies yaml_text(#[trigger] items[i])
                == Some(t[i]) by {
                if i < front.len() {
                    assert(yaml_text(front[i]) == Some(texts_in(front)->0[i]));
                }
            }
        } else if texts_in(front) is None {
            let i = choose|i: int| 0 <= i < front.len() && yaml_text(#[trigger] front[i]) is None;
            assert(yaml_text(items[i]) is None);
        } else {
            assert(yaml_text(items[items.len() - 1]) is None);
        }
    }
}

/// Each job of a loaded file sends its prompt to the agent at its times, and there is a
/// schedule for each, in order.
pub proof fn law_each_job_is_scheduled(
    file_name: &str,
    content: &str,
    r: Result<LoadedAgentFile, AgentFileError>,
    i: int,
)
    requires
        call_ensures(load_agent_text, (file_name, content), r),
        r is Ok,
    ensures
        loaded_agent(file_name@, content@) is Ok,
        ({
            let v = loaded_agent(file_name@, content@)->Ok_0;
            let f = r->Ok_0;
            &&& f.agent.name@ == v.name
            &&& f.agent.model@ == v.model
            &&& f.agent.system_prompt@ == v.system_prompt
            &&& texts(f.agent.subscribe@) == v.subscribe
            &&& f.schedules@.len() == v.jobs.len()
            &&& 0 <= i < v.jobs.len() ==> f.schedules@[i].cron@ == v.jobs[i].cron
                && f.schedules@[i].target@ == "agent:"@ + v.name && (
            f.schedules@[i].config matches Some(y) && y@ == YamlView::Str(v.jobs[i].prompt))
        }),
{
    let v = loaded_agent(file_name@, content@)->Ok_0;
    let f = r->Ok_0;
    assert(loads(f, v));
    if 0 <= i < v.jobs.len() {
        assert(schedules_job(f.schedules@[i], v.jobs[i], v.name));
    }
}

/// An agent file names its agent by what stands in front of its ending.
pub proof fn law_file_name_without_ending(stem: Seq<char>)
    ensures
        stem_of(stem + ".agent.md"@) == stem,
        !has_suffix(stem, ".agent"@) ==> stem_of(stem + ".md"@) == stem,
        !has_suffix(stem, ".md"@) && !has_suffix(stem, ".agent.md"@) ==> stem_of(stem) == stem,
{
    reveal_strlit(".agent.md");
    reveal_strlit(".md");
    reveal_strlit(".agent");
    let a = stem + ".agent.md"@;
    assert(a.skip(a.len() - ".agent.md"@.len()) =~= ".agent.md"@);
    assert(a.take(stem.len() as int) =~= stem);
    let b = stem + ".md"@;
    assert(b.skip(b.len() - ".md"@.len()) =~= ".md"@);
    assert(b.take(stem.len() as int) =~= stem);
    if has_suffix(b, ".agent.md"@) {
        let tail = b.skip(b.len() - 9);
        assert(tail == ".agent.md"@);
        assert(stem.skip(stem.len() - 6) =~= ".agent"@) by {
            assert forall|i: int| 0 <= i < 6 implies stem[stem.len() - 6 + i]
                == ".agent"@[i] by {
                assert(b[stem.len() - 6 + i] == tail[i]);
            }
        }
    }
}

/// The files that are loaded are those of agents, all of them and no other.
pub proof fn law_agent_files_are_picked(names: Seq<Seq<char>>, name: Seq<char>)
    ensures
        agent_files_in(names).contains(name) <==> names.contains(name) && has_suffix(
            name,
            ".agent.md"@,
        ),
    decreases names.len(),
{
    if names.len() > 0 {
        let front = names.drop_last();
        law_agent_files_are_picked(front, name);
        if has_suffix(names.last(), ".agent.md"@) {
            law_placed_adds_one(agent_files_in(front), names.last());
            assert(agent_files_in(names).contains(name) <==> agent_files_in(front).contains(name)
                || name == names.last());
        }
        if names.contains(name) {
            let i = choose|i: int| 0 <= i < names.len() && names[i] == name;
            if i < front.len() {
                assert(front[i] == name);
            }
        }
        if front.contains(name) {
            let i = choose|i: int| 0 <= i < front.len() && front[i] == name;
            assert(names[i] == name);
        }
        assert(names[names.len() - 1] == names.last());
    }
}

/// What is wrong with a frontmatter is told by what is found first: that it is no mapping,
/// that its jobs are invalid, that it has no name, or that the rest does not fit.
pub proof fn law_refused_for_what_is_wrong(
    v: YamlView,
    entries: Seq<(YamlView, YamlView)>,
    body: Seq<char>,
    default_name: Seq<char>,
)
    ensures
        v is Sequence || v is Str ==> agent_of(v, body, default_name) == Err::<
            AgentFileView,
            AgentFileError,
        >(AgentFileError::NotMapping),
        entry_of(entries, "jobs"@) matches Some(YamlView::Str(_)) ==> agent_of(
            YamlView::Mapping(entries),
            body,
            default_name,
        ) == Err::<AgentFileView, AgentFileError>(AgentFileError::Jobs),
        entry_of(entries, "jobs"@) is None && entry_of(entries, "name"@) is None
            && default_name.len() == 0 ==> agent_of(
            YamlView::Mapping(entries),
            body,
            default_name,
        ) == Err::<AgentFileView, AgentFileError>(AgentFileError::NoName),
        entry_of(entries, "jobs"@) is None && (entry_of(entries, "name"@) matches Some(
            YamlView::Sequence(_),
        )) ==> agent_of(YamlView::Mapping(entries), body, default_name) == Err::<
            AgentFileView,
            AgentFileError,
        >(AgentFileError::NameNotString),
        entry_of(entries, "jobs"@) is None && entry_of(entries, "name"@) is None
            && default_name.len() > 0 && entry_of(entries, "model"@) is None ==> agent_of(
            YamlView::Mapping(entries),
            body,
            default_name,
        ) == Err::<AgentFileView, AgentFileError>(AgentFileError::Schema),
{
}

/// An agent with a model, and with a name or a file to name it by, is loaded, and subscribes
/// to its own messages where nothing else is said.
pub proof fn law_name_and_model_are_enough(
    entries: Seq<(YamlView, YamlView)>,
    body: Seq<char>,
    default_name: Seq<char>,
    model: Seq<char>,
)
    requires
        entry_of(entries, "jobs"@) is None,
        entry_of(entries, "name"@) is None,
        entry_of(entries, "subscribe"@) is None,
        entry_of(entries, "system_prompt"@) is None,
        default_name.len() > 0,
        entry_of(entries, "model"@) == Some(YamlView::Str(model)),
    ensures
        agent_of(YamlView::Mapping(entries), body, default_name) matches Ok(a) && a.name
            == default_name && a.model == model && a.jobs.len() == 0 && a.subscribe == seq![
            "agent:"@ + default_name,
        ] && a.system_prompt == trimmed(body, CharClass::White),
{
    if trimmed(body, CharClass::White).len() == 0 {
        assert(trimmed(body, CharClass::White) =~= Seq::<char>::empty());
    }
}

/// A file whose first line opens the frontmatter and that has no other such line is refused
/// for the missing one; a mark of the byte order in front does not matter.
pub proof fn law_missing_closing_line_is_told(content: Seq<char>)
    requires
        content.len() > 0 && content[0] != '\u{feff}',
    ensures
        split_of(seq!['\u{feff}'] + content) == split_of(content),
        is_fence(pieces(content)[0]) && (forall|k: int|
            0 < k < pieces(content).len() ==> !is_fence(#[trigger] pieces(content)[k]))
            ==> split_of(content) == Err::<(Seq<char>, Seq<char>), AgentFileError>(
            AgentFileError::MissingClose,
        ),
{
    let marked = seq!['\u{feff}'] + content;
    assert(marked.drop_first() =~= content);
    assert(without_mark(marked) == content && without_mark(content) == content);
    let parts = pieces(content);
    assert(parts.len() > 0);
    if is_fence(parts[0]) && (forall|k: int| 0 < k < parts.len() ==> !is_fence(
        #[trigger] parts[k],
    )) {
        lemma_no_fence(parts, 1);
    }
}

proof fn lemma_no_fence(parts: Seq<Seq<char>>, i: nat)
    requires
        forall|k: int| i <= k < parts.len() ==> !is_fence(#[trigger] parts[k]),
    ensures
        next_fence(parts, i) >= parts.len(),
    decreases parts.len() - i,
{
    if i < parts.len() {
        assert(!is_fence(parts[i as int]));
        lemma_no_fence(parts, i + 1);
    }
}

/// A schedule runs the prompt of its job as it stands, in the time zone of the job.
pub proof fn law_schedule_keeps_the_time_zone(
    file_name: &str,
    content: &str,
    f: LoadedAgentFile,
    i: int,
)
    requires
        call_ensures(load_agent_text, (file_name, content), Ok(f)),
        0 <= i < f.schedules@.len(),
    ensures
        loaded_agent(file_name@, content@) is Ok,
        f.schedules@[i].action == ScheduleAction::Raw,
        match f.schedules@[i].timezone {
            Some(z) => loaded_agent(file_name@, content@)->Ok_0.jobs[i].timezone == Some(z@),
            None => loaded_agent(file_name@, content@)->Ok_0.jobs[i].timezone is None,
        },
{
    let v = loaded_agent(file_name@, content@)->Ok_0;
    assert(loads(f, v));
    assert(schedules_job(f.schedules@[i], v.jobs[i], v.name));
}

/// Each refusal says what is wrong.
pub proof fn law_refusal_in_words(e: &AgentFileError, r: &'static str)
    requires
        call_ensures(AgentFileError::message, (e,), r),
    ensures
        e is Empty ==> r@ == "agent file is empty"@,
        e is MissingOpen ==> r@ == "agent file must start with '---' frontmatter delimiter"@,
        e is MissingClose ==> r@
            == "agent file is missing a closing '---' frontmatter delimiter"@,
        e is Yaml ==> r@ == "failed to parse agent frontmatter as YAML"@,
        e is NotMapping ==> r@ == "agent frontmatter must be a YAML mapping"@,
        e is Jobs ==> r@ == "invalid `jobs` block"@,
        e is NoName ==> r@ == "agent file has no `name` and filename does not provide a default"@,
        e is NameNotString ==> r@ == "agent `name` must be a string"@,
        e is Schema ==> r@ == "agent frontmatter does not match SubAgentDef schema"@,
{
}

} // verus!

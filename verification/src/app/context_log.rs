//! Context measurements, one per turn, kept as JSON lines.

use crate::json::Json;
use crate::json::JsonNumber;
use crate::json::JsonView;
use crate::json::ObjectBuilder;
use crate::json::as_natural;
use crate::json::as_text;
use crate::json::json_parsed;
use crate::json::lemma_object_member;
use crate::json::lemma_plain_members;
use crate::json::member;
use crate::json::object;
use crate::json::object_text;
use crate::json::parse_json;
use crate::json::plain_members;
use crate::text::concat2;
use crate::text::texts;
use vstd::prelude::*;

verus! {

/// How many entries a log keeps.
pub const MAX_ENTRIES: usize = 10_000;

/// The context of a session after one turn.
#[derive(Debug, Clone, PartialEq)]
pub struct ContextLog {
    /// RFC 3339 time at which the turn ended.
    pub ts: String,
    pub agent: String,
    pub session_id: String,
    pub model: String,
    /// Tokens in the session's window.
    pub tokens: u64,
    /// The agent's threshold for compaction, in tokens.
    pub threshold: u64,
    /// The model's window, in tokens.
    pub context_limit: u64,
}

#[verifier::ext_equal]
pub ghost struct EntryView {
    pub ts: Seq<char>,
    pub agent: Seq<char>,
    pub session_id: Seq<char>,
    pub model: Seq<char>,
    pub tokens: u64,
    pub threshold: u64,
    pub context_limit: u64,
}

impl View for ContextLog {
    type V = EntryView;

    open spec fn view(&self) -> EntryView {
        EntryView {
            ts: self.ts@,
            agent: self.agent@,
            session_id: self.session_id@,
            model: self.model@,
            tokens: self.tokens,
            threshold: self.threshold,
            context_limit: self.context_limit,
        }
    }
}

pub open spec fn entry_views(v: Seq<ContextLog>) -> Seq<EntryView> {
    Seq::new(v.len(), |i: int| v[i]@)
}

/// The members of an entry in JSON.
pub open spec fn entry_members(e: EntryView) -> Seq<(Seq<char>, JsonView)> {
    seq![
        ("ts"@, JsonView::Str(e.ts)),
        ("agent"@, JsonView::Str(e.agent)),
        ("session_id"@, JsonView::Str(e.session_id)),
        ("model"@, JsonView::Str(e.model)),
        ("tokens"@, JsonView::Natural(e.tokens)),
        ("threshold"@, JsonView::Natural(e.threshold)),
        ("context_limit"@, JsonView::Natural(e.context_limit)),
    ]
}

/// The entry in a JSON object. Its fields in an array are no entry.
pub open spec fn entry_in(v: JsonView) -> Option<EntryView> {
    match (
        as_text(member(v, "ts"@)),
        as_text(member(v, "agent"@)),
        as_text(member(v, "session_id"@)),
        as_text(member(v, "model"@)),
        as_natural(member(v, "tokens"@)),
        as_natural(member(v, "threshold"@)),
        as_natural(member(v, "context_limit"@)),
    ) {
        (
            Some(ts),
            Some(agent),
            Some(session_id),
            Some(model),
            Some(tokens),
            Some(threshold),
            Some(context_limit),
        ) => Some(
            EntryView { ts, agent, session_id, model, tokens, threshold, context_limit },
        ),
        _ => None,
    }
}

/// What is written of an entry is the entry.
pub proof fn law_entry_comes_back(e: EntryView)
    ensures
        entry_in(object(entry_members(e))) == Some(e),
        plain_members(entry_members(e)),
{
    reveal_strlit("ts");
    reveal_strlit("agent");
    reveal_strlit("session_id");
    reveal_strlit("model");
    reveal_strlit("tokens");
    reveal_strlit("threshold");
    reveal_strlit("context_limit");
    assert("agent"@[0] == 'a');
    assert("model"@[0] == 'm');
    let members = entry_members(e);
    assert(members[1].0 == "agent"@ && members[2].0 == "session_id"@ && members[3].0 == "model"@
        && members[4].0 == "tokens"@ && members[5].0 == "threshold"@ && members[6].0
        == "context_limit"@);
    assert forall|j: int| 0 < j < members.len() implies (#[trigger] members[j]).0.len() > 2 by {}
    lemma_object_member(members, 0);
    lemma_object_member(members, 1);
    lemma_object_member(members, 2);
    lemma_object_member(members, 3);
    lemma_object_member(members, 4);
    lemma_object_member(members, 5);
    lemma_object_member(members, 6);
    lemma_plain_members(members);
}

/// The text of an entry, without the line end.
pub fn entry_text(entry: &ContextLog) -> (r: String)
    ensures
        r@ == object_text(entry_members(entry@)),
        json_parsed(r@) == Some(object(entry_members(entry@))),
{
    let b = ObjectBuilder::new().with_text("ts", entry.ts.as_str()).with_text(
        "agent",
        entry.agent.as_str(),
    ).with_text("session_id", entry.session_id.as_str()).with_text(
        "model",
        entry.model.as_str(),
    ).with("tokens", Json::Number(JsonNumber::Natural(entry.tokens))).with(
        "threshold",
        Json::Number(JsonNumber::Natural(entry.threshold)),
    ).with("context_limit", Json::Number(JsonNumber::Natural(entry.context_limit)));
    proof {
        assert(b@ =~= entry_members(entry@));
        law_entry_comes_back(entry@);
    }
    b.text()
}

/// The line that is appended for an entry.
pub fn entry_line(entry: &ContextLog) -> (r: String)
    ensures
        r@ == object_text(entry_members(entry@)) + "\n"@,
{
    let text = entry_text(entry);
    concat2(text.as_str(), "\n")
}

/// The entry of a line; a line that is none is passed over.
pub open spec fn line_entry(line: Seq<char>) -> Option<EntryView> {
    match json_parsed(line) {
        Some(v) => entry_in(v),
        None => None,
    }
}

/// The entries of the lines.
pub open spec fn entries_in(lines: Seq<Seq<char>>) -> Seq<EntryView>
    decreases lines.len(),
{
    if lines.len() == 0 {
        Seq::empty()
    } else {
        let front = entries_in(lines.drop_last());
        match line_entry(lines.last()) {
            Some(e) => front.push(e),
            None => front,
        }
    }
}

fn read_entry(line: &str) -> (r: Option<ContextLog>)
    ensures
        match r {
            Some(e) => line_entry(line@) == Some(e@),
            None => line_entry(line@) is None,
        },
{
    let v = match parse_json(line) {
        Some(v) => v,
        None => {
            return None;
        },
    };
    match (
        v.str_member("ts"),
        v.str_member("agent"),
        v.str_member("session_id"),
        v.str_member("model"),
        v.u64_member("tokens"),
        v.u64_member("threshold"),
        v.u64_member("context_limit"),
    ) {
        (
            Some(ts),
            Some(agent),
            Some(session_id),
            Some(model),
            Some(tokens),
            Some(threshold),
            Some(context_limit),
        ) => Some(
            ContextLog {
                ts: ts.to_owned(),
                agent: agent.to_owned(),
                session_id: session_id.to_owned(),
                model: model.to_owned(),
                tokens,
                threshold,
                context_limit,
            },
        ),
        _ => None,
    }
}

/// Reads the entries of a log. Blank and malformed lines are passed over.
pub fn read_logs(lines: &Vec<String>) -> (r: Vec<ContextLog>)
    ensures
        entry_views(r@) == entries_in(texts(lines@)),
{
    let mut out: Vec<ContextLog> = Vec::new();
    let mut i: usize = 0;
    assert(texts(lines@).take(0) =~= Seq::<Seq<char>>::empty());
    while i < lines.len()
        invariant
            i <= lines@.len(),
            entry_views(out@) =~= entries_in(texts(lines@).take(i as int)),
        decreases lines@.len() - i,
    {
        proof {
            let next = texts(lines@).take(i + 1);
            assert(next.drop_last() =~= texts(lines@).take(i as int));
            assert(next.last() == lines@[i as int]@);
        }
        match read_entry(lines[i].as_str()) {
            Some(e) => {
                let ghost before = out@;
                out.push(e);
                assert(entry_views(out@) =~= entry_views(before).push(e@));
            },
            None => {},
        }
        i += 1;
    }
    assert(texts(lines@).take(lines@.len() as int) =~= texts(lines@));
    out
}

/// The lines that a log keeps: the latest ones.
pub open spec fn kept_lines(lines: Seq<Seq<char>>) -> Seq<Seq<char>> {
    if lines.len() > MAX_ENTRIES {
        lines.skip(lines.len() - MAX_ENTRIES)
    } else {
        lines
    }
}

/// The lines to write in place of the log, if it has grown too long.
pub fn rotate(lines: &Vec<String>) -> (r: Option<Vec<String>>)
    ensures
        match r {
            Some(kept) => lines@.len() > MAX_ENTRIES && texts(kept@) == kept_lines(texts(lines@)),
            None => lines@.len() <= MAX_ENTRIES,
        },
{
    if lines.len() <= MAX_ENTRIES {
        return None;
    }
    let from: usize = lines.len() - MAX_ENTRIES;
    let mut out: Vec<String> = Vec::new();
    let mut i: usize = from;
    while i < lines.len()
        invariant
            from <= i <= lines@.len(),
            out@.len() == i - from,
            forall|k: int| 0 <= k < out@.len() ==> (#[trigger] out@[k])@ == lines@[from + k]@,
        decreases lines@.len() - i,
    {
        out.push(lines[i].clone());
        i += 1;
    }
    assert(texts(out@) =~= kept_lines(texts(lines@)));
    Some(out)
}

/// An entry that was appended is read back, behind those before it.
pub proof fn law_append_is_read(lines: Seq<Seq<char>>, text: Seq<char>, e: EntryView)
    requires
        json_parsed(text) == Some(object(entry_members(e))),
    ensures
        entries_in(lines.push(text)) == entries_in(lines).push(e),
{
    law_entry_comes_back(e);
    assert(lines.push(text).drop_last() =~= lines);
}

/// A log never keeps more than its limit, and the latest line stays.
pub proof fn law_rotation_keeps_latest(lines: Seq<Seq<char>>)
    ensures
        kept_lines(lines).len() <= MAX_ENTRIES,
        lines.len() > 0 ==> kept_lines(lines).len() > 0 && kept_lines(lines).last() == lines.last(),
        kept_lines(kept_lines(lines)) == kept_lines(lines),
{
}

/// A log that is too long keeps its last 10,000 lines, in order; a shorter one is left as it
/// is.
pub proof fn law_last_lines_are_kept(lines: &Vec<String>, r: Option<Vec<String>>)
    requires
        call_ensures(rotate, (lines,), r),
    ensures
        lines@.len() <= 10_000 <==> r is None,
        r matches Some(kept) ==> kept@.len() == 10_000 && forall|k: int|
            0 <= k < 10_000 ==> (#[trigger] kept@[k])@ == lines@[lines@.len() - 10_000 + k]@,
{
    if let Some(kept) = r {
        let all = texts(lines@);
        assert(texts(kept@).len() == kept@.len());
        assert forall|k: int| 0 <= k < 10_000 implies (#[trigger] kept@[k])@ == lines@[lines@.len()
            - 10_000 + k]@ by {
            assert(texts(kept@)[k] == all.skip(all.len() - MAX_ENTRIES)[k]);
        }
    }
}

/// The entries of two logs, one behind the other, are those of the one and then those of
/// the other.
pub proof fn law_logs_are_read_in_order(a: Seq<Seq<char>>, b: Seq<Seq<char>>)
    ensures
        entries_in(a + b) == entries_in(a) + entries_in(b),
    decreases b.len(),
{
    if b.len() == 0 {
        assert(a + b =~= a);
        assert(entries_in(a) + entries_in(b) =~= entries_in(a));
    } else {
        assert((a + b).drop_last() =~= a + b.drop_last());
        law_logs_are_read_in_order(a, b.drop_last());
        assert(entries_in(a + b) =~= entries_in(a) + entries_in(b));
    }
}

/// A line gives its entry, with each part from under its name; a line that is no JSON, or
/// lacks a part, gives none.
pub proof fn law_line_gives_its_entry(line: Seq<char>)
    ensures
        json_parsed(line) is None ==> entries_in(seq![line]).len() == 0,
        json_parsed(line) matches Some(v) ==> {
            &&& member(v, "ts"@) is None || member(v, "agent"@) is None || member(v, "session_id"@)
                is None || member(v, "model"@) is None || member(v, "tokens"@) is None || member(
                v,
                "threshold"@,
            ) is None || member(v, "context_limit"@) is None ==> entries_in(seq![line]).len() == 0
            &&& entries_in(seq![line]).len() <= 1
            &&& entries_in(seq![line]).len() == 1 ==> {
                let e = entries_in(seq![line])[0];
                &&& member(v, "ts"@) == Some(JsonView::Str(e.ts))
                &&& member(v, "agent"@) == Some(JsonView::Str(e.agent))
                &&& member(v, "session_id"@) == Some(JsonView::Str(e.session_id))
                &&& member(v, "model"@) == Some(JsonView::Str(e.model))
                &&& member(v, "tokens"@) == Some(JsonView::Natural(e.tokens))
                &&& member(v, "threshold"@) == Some(JsonView::Natural(e.threshold))
                &&& member(v, "context_limit"@) == Some(JsonView::Natural(e.context_limit))
            }
        },
{
    reveal_with_fuel(entries_in, 2);
    assert(seq![line].drop_last() =~= Seq::<Seq<char>>::empty());
}

/// An entry is read from a log with the parts that its line has.
pub proof fn law_entries_are_read(lines: &Vec<String>, r: Vec<ContextLog>, i: int)
    requires
        call_ensures(read_logs, (lines,), r),
        0 <= i < r@.len(),
    ensures
        r@.len() == entries_in(texts(lines@)).len(),
        ({
            let e = entries_in(texts(lines@))[i];
            &&& r@[i].ts@ == e.ts
            &&& r@[i].agent@ == e.agent
            &&& r@[i].session_id@ == e.session_id
            &&& r@[i].model@ == e.model
            &&& r@[i].tokens == e.tokens
            &&& r@[i].threshold == e.threshold
            &&& r@[i].context_limit == e.context_limit
        }),
{
    assert(entry_views(r@)[i] == r@[i]@);
    assert(entry_views(r@).len() == r@.len());
}

} // verus!

//! The persistent session: one process that is handed a message per line and answers
//! with a stream of JSON events, up to a `result` event.

use crate::json::Json;
use crate::json::JsonNumber;
use crate::json::JsonView;
use crate::json::as_items;
use crate::json::as_natural;
use crate::json::as_text;
use crate::json::json_parsed;
use crate::json::lemma_models;
use crate::json::member2;
use crate::json::member;
use crate::json::model;
use crate::json::models;
use crate::json::parse_json;
use crate::text::concat2;
use crate::text::concat3;
use crate::text::has_prefix;
use crate::text::opt_text;
use crate::text::replace_char;
use crate::text::replaced;
use crate::text::text_eq;
use crate::text::texts;
use vstd::prelude::*;

verus! {

/// How often a session is restarted before it is given up.
pub const MAX_RESTARTS: u32 = 3;

/// Why a session failed.
#[derive(Debug, Clone)]
pub enum SessionError {
    /// The process closed its output before the result.
    Exited,
    /// The turn ended without any text.
    NoResponse,
    /// The session of the agent was restarted too often.
    TooManyRestarts { name: String },
    /// The process took no input even after a restart.
    WriteFailed,
}

impl SessionError {
    /// The error in words; `runtime` is the program that ran the session.
    pub fn message(&self, runtime: &str) -> (r: String)
        ensures
            r@ == (match *self {
                SessionError::Exited => runtime@ + " process exited unexpectedly"@,
                SessionError::NoResponse => "no response text from "@ + runtime@,
                SessionError::TooManyRestarts { name } => "persistent session for '"@ + name@
                    + "' exceeded max restarts (3)"@,
                SessionError::WriteFailed => "stdin write failed after restart"@,
            }),
    {
        match self {
            SessionError::Exited => concat2(runtime, " process exited unexpectedly"),
            SessionError::NoResponse => concat2("no response text from ", runtime),
            SessionError::TooManyRestarts { name } => concat3(
                "persistent session for '",
                name.as_str(),
                "' exceeded max restarts (3)",
            ),
            SessionError::WriteFailed => "stdin write failed after restart".to_owned(),
        }
    }
}

// ─── Input ──────────────────────────────────────────────────────────────────

/// A message as one line of input.
pub open spec fn flattened(message: Seq<char>) -> Seq<char> {
    replaced(message, '\n', ' ') + "\n"@
}

/// The message as one line of input: its own line ends become blanks.
pub fn flatten(message: &str) -> (r: String)
    ensures
        r@ == flattened(message@),
{
    let one = replace_char(message, '\n', ' ');
    concat2(one.as_str(), "\n")
}

/// A flattened message is one line: its only line end is its last character.
pub proof fn law_flattened_is_one_line(message: Seq<char>)
    ensures
        flattened(message).len() == message.len() + 1,
        forall|i: int|
            0 <= i < flattened(message).len() ==> ((#[trigger] flattened(message)[i]) == '\n' <==> i
                == message.len()),
{
    reveal_strlit("\n");
}

/// What is done next to hand a message over.
#[derive(Debug, Clone, Copy, PartialEq, Eq, Structural)]
pub enum SendAction {
    /// The input was written: flush it and read the result.
    ReadResult,
    /// Restart the process and write again.
    Restart,
    /// Give the session up: it was restarted too often.
    GiveUp,
    /// Report that writing failed even after the restart.
    Fail,
}

/// Counts the restarts of a session.
#[derive(Debug, Clone, Copy, PartialEq, Eq, Structural)]
pub struct Restarts {
    pub count: u32,
}

impl Restarts {
    /// A session that was not restarted.
    pub fn new() -> (r: Self)
        ensures
            r.count == 0,
    {
        Restarts { count: 0 }
    }

    /// Decides on the outcome of a write; `retried` says whether it was the one after a
    /// restart.
    pub fn after_write(&mut self, written: bool, retried: bool) -> (r: SendAction)
        requires
            old(self).count < u32::MAX,
        ensures
            final(self).count == old(self).count + (if !written && !retried {
                1int
            } else {
                0
            }),
            r == (if written {
                SendAction::ReadResult
            } else if retried {
                SendAction::Fail
            } else if old(self).count < MAX_RESTARTS {
                SendAction::Restart
            } else {
                SendAction::GiveUp
            }),
    {
        if written {
            return SendAction::ReadResult;
        }
        if retried {
            return SendAction::Fail;
        }
        self.count = self.count + 1;
        if self.count > MAX_RESTARTS {
            SendAction::GiveUp
        } else {
            SendAction::Restart
        }
    }
}

// ─── Output ─────────────────────────────────────────────────────────────────

/// The texts of the text blocks, one behind the other.
pub open spec fn blocks_text(blocks: Seq<JsonView>) -> Seq<char>
    decreases blocks.len(),
{
    if blocks.len() == 0 {
        Seq::empty()
    } else {
        let front = blocks_text(blocks.drop_last());
        let last = blocks.last();
        match (as_text(member(last, "type"@)), as_text(member(last, "text"@))) {
            (Some(kind), Some(text)) => if kind == "text"@ {
                front + text
            } else {
                front
            },
            _ => front,
        }
    }
}

/// The text of an assistant event.
pub open spec fn assistant_text(v: JsonView) -> Seq<char> {
    match as_items(member2(v, "message"@, "content"@)) {
        Some(blocks) => blocks_text(blocks),
        None => Seq::empty(),
    }
}

/// The number that a value holds.
pub open spec fn as_number(v: Option<JsonView>) -> Option<JsonView> {
    match v {
        Some(n) => match n {
            JsonView::Natural(_) => Some(n),
            JsonView::Negative(_) => Some(n),
            JsonView::Decimal(_) => Some(n),
            _ => None,
        },
        None => None,
    }
}

/// A turn, as far as its events have come in.
#[verifier::ext_equal]
pub ghost struct TurnView {
    /// What the assistant said.
    pub text: Seq<char>,
    /// The session that the result names; empty where it names none.
    pub session_id: Seq<char>,
    /// The cost that the result names, in dollars.
    pub cost: Option<JsonView>,
    pub turns: u32,
    /// Whether the result has come.
    pub done: bool,
}

pub open spec fn no_turn() -> TurnView {
    TurnView { text: Seq::empty(), session_id: Seq::empty(), cost: None, turns: 0, done: false }
}

/// The turn after an event.
pub open spec fn after_event(t: TurnView, v: JsonView) -> TurnView {
    match as_text(member(v, "type"@)) {
        Some(kind) => if kind == "assistant"@ {
            TurnView { text: t.text + assistant_text(v), ..t }
        } else if kind == "result"@ {
            TurnView {
                text: t.text,
                session_id: match as_text(member(v, "session_id"@)) {
                    Some(s) => s,
                    None => t.session_id,
                },
                cost: match as_number(member(v, "total_cost_usd"@)) {
                    Some(n) => Some(n),
                    None => t.cost,
                },
                turns: match as_natural(member(v, "num_turns"@)) {
                    Some(n) => (n as nat % 0x1_0000_0000) as u32,
                    None => t.turns,
                },
                done: true,
            }
        } else {
            t
        },
        None => t,
    }
}

/// The turn after a line of output. An empty line, and one that is no JSON, is passed
/// over.
pub open spec fn after_line(t: TurnView, line: Seq<char>) -> TurnView {
    if line.len() == 0 {
        t
    } else {
        match json_parsed(line) {
            Some(v) => after_event(t, v),
            None => t,
        }
    }
}

/// A turn, as far as its events have come in.
pub struct Turn {
    response_text: String,
    session_id: String,
    cost: Option<JsonNumber>,
    turns: u32,
    done: bool,
}

pub open spec fn number_model(n: JsonNumber) -> JsonView {
    model(Json::Number(n))
}

impl View for Turn {
    type V = TurnView;

    closed spec fn view(&self) -> TurnView {
        TurnView {
            text: self.response_text@,
            session_id: self.session_id@,
            cost: match self.cost {
                Some(n) => Some(number_model(n)),
                None => None,
            },
            turns: self.turns,
            done: self.done,
        }
    }
}

/// The texts of the text blocks, one behind the other.
fn text_of_blocks(blocks: &Vec<Json>) -> (r: String)
    ensures
        r@ == blocks_text(models(blocks@)),
{
    let mut out = String::new();
    let mut i: usize = 0;
    proof {
        lemma_models(blocks@);
        assert(models(blocks@).take(0) =~= Seq::<JsonView>::empty());
    }
    while i < blocks.len()
        invariant
            i <= blocks@.len(),
            models(blocks@).len() == blocks@.len(),
            forall|k: int| 0 <= k < blocks@.len() ==> models(blocks@)[k] == (#[trigger] blocks@[k])@,
            out@ == blocks_text(models(blocks@).take(i as int)),
        decreases blocks@.len() - i,
    {
        let block = &blocks[i];
        proof {
            let next = models(blocks@).take(i + 1);
            assert(next.drop_last() =~= models(blocks@).take(i as int));
            assert(next.last() == block@);
        }
        match (block.str_member("type"), block.str_member("text")) {
            (Some(kind), Some(text)) => {
                if text_eq(kind, "text") {
                    out.append(text);
                }
            },
            _ => {},
        }
        i += 1;
    }
    assert(models(blocks@).take(blocks@.len() as int) =~= models(blocks@));
    out
}

/// The content blocks of an assistant event.
fn content_blocks(v: &Json) -> (r: Option<&Vec<Json>>)
    ensures
        match r {
            Some(blocks) => as_items(member2(v@, "message"@, "content"@)) == Some(models(blocks@)),
            None => as_items(member2(v@, "message"@, "content"@)) is None,
        },
{
    match v.get("message") {
        Some(m) => match m.get("content") {
            Some(c) => c.as_array(),
            None => None,
        },
        None => None,
    }
}

impl Turn {
    /// A turn of which nothing has come in.
    pub fn new() -> (r: Self)
        ensures
            r@ == no_turn(),
    {
        let r = Turn {
            response_text: String::new(),
            session_id: String::new(),
            cost: None,
            turns: 0,
            done: false,
        };
        assert(r@ =~= no_turn());
        r
    }

    /// Takes an event in.
    pub fn take_event(&mut self, v: &Json)
        ensures
            final(self)@ == after_event(old(self)@, v@),
    {
        match v.str_member("type") {
            Some(kind) => {
                if text_eq(kind, "assistant") {
                    match content_blocks(v) {
                        Some(blocks) => {
                            let text = text_of_blocks(blocks);
                            self.response_text.append(text.as_str());
                        },
                        None => {
                            assert(old(self)@.text + assistant_text(v@) =~= old(self)@.text);
                        },
                    }
                } else if text_eq(kind, "result") {
                    if let Some(id) = v.str_member("session_id") {
                        self.session_id = id.to_owned();
                    }
                    if let Some(Json::Number(n)) = v.get("total_cost_usd") {
                        self.cost = Some(n.copied());
                    }
                    if let Some(n) = v.u64_member("num_turns") {
                        self.turns = (n % 0x1_0000_0000) as u32;
                    }
                    self.done = true;
                }
            },
            None => {},
        }
        assert(self@ =~= after_event(old(self)@, v@));
    }

    /// Takes a line of output in. Returns whether the result has come.
    pub fn take_line(&mut self, line: &str) -> (r: bool)
        ensures
            final(self)@ == after_line(old(self)@, line@),
            r == final(self)@.done,
    {
        proof {
            reveal_strlit("");
        }
        if !text_eq(line, "") {
            assert(line@.len() > 0) by {
                if line@.len() == 0 {
                    assert(line@ =~= ""@);
                }
            }
            match parse_json(line) {
                Some(v) => self.take_event(&v),
                None => {},
            }
        }
        self.done
    }

    /// The session to resume next time: the one that the result names, else the one so
    /// far.
    pub fn next_session(&self, current: &str) -> (r: String)
        ensures
            r@ == (if self@.session_id.len() > 0 {
                self@.session_id
            } else {
                current@
            }),
    {
        proof {
            reveal_strlit("");
            if self.session_id@.len() == 0 {
                assert(self.session_id@ =~= ""@);
            }
        }
        if text_eq(self.session_id.as_str(), "") {
            current.to_owned()
        } else {
            self.session_id.clone()
        }
    }

    /// The turns of the agent with those of this turn.
    pub fn total_turns(&self, before: u32) -> (r: u32)
        requires
            before + self@.turns <= u32::MAX,
        ensures
            r == before + self@.turns,
    {
        before + self.turns
    }

    /// The cost that the result names, in dollars.
    pub fn cost(&self) -> (r: Option<&JsonNumber>)
        ensures
            match r {
                Some(n) => self@.cost == Some(number_model(*n)),
                None => self@.cost is None,
            },
    {
        match &self.cost {
            Some(n) => Some(n),
            None => None,
        }
    }

    /// What the assistant said. A turn without a result, and one without any text,
    /// fails.
    pub fn finish(self) -> (r: Result<String, SessionError>)
        ensures
            match r {
                Ok(text) => self@.done && self@.text.len() > 0 && text@ == self@.text,
                Err(SessionError::Exited) => !self@.done,
                Err(e) => e == SessionError::NoResponse && self@.done && self@.text.len() == 0,
            },
    {
        if !self.done {
            return Err(SessionError::Exited);
        }
        proof {
            reveal_strlit("");
            if self.response_text@.len() == 0 {
                assert(self.response_text@ =~= ""@);
            }
        }
        if text_eq(self.response_text.as_str(), "") {
            Err(SessionError::NoResponse)
        } else {
            Ok(self.response_text)
        }
    }
}

/// Events only add to the text of a turn, and only a result ends it.
pub proof fn law_text_only_grows(t: TurnView, line: Seq<char>)
    ensures
        has_prefix(after_line(t, line).text, t.text),
        t.done ==> after_line(t, line).done,
        after_line(t, line).done && !t.done ==> json_parsed(line) is Some && as_text(
            member(json_parsed(line)->0, "type"@),
        ) == Some("result"@),
{
    reveal_strlit("assistant");
    reveal_strlit("result");
    let after = after_line(t, line).text;
    assert(after.take(t.text.len() as int) =~= t.text);
}

// ─── Starting the process ───────────────────────────────────────────────────

/// The arguments of the process.
pub open spec fn process_args(
    model: Seq<char>,
    system_prompt: Seq<char>,
    session_id: Seq<char>,
) -> Seq<Seq<char>> {
    let head = seq![
        "--output-format"@,
        "stream-json"@,
        "--verbose"@,
        "--dangerously-skip-permissions"@,
        "--model"@,
        model,
    ];
    if session_id.len() > 0 {
        head + seq!["--resume"@, session_id]
    } else if system_prompt.len() > 0 {
        head + seq!["--system-prompt"@, system_prompt]
    } else {
        head
    }
}

/// The arguments of the process: a known session is resumed; only a new one is given
/// the system prompt.
pub fn spawn_args(model: &str, system_prompt: &str, session_id: &str) -> (r: Vec<String>)
    ensures
        texts(r@) == process_args(model@, system_prompt@, session_id@),
{
    let mut args: Vec<String> = Vec::new();
    args.push("--output-format".to_owned());
    args.push("stream-json".to_owned());
    args.push("--verbose".to_owned());
    args.push("--dangerously-skip-permissions".to_owned());
    args.push("--model".to_owned());
    args.push(model.to_owned());
    proof {
        reveal_strlit("");
        if session_id@.len() == 0 {
            assert(session_id@ =~= ""@);
        }
        if system_prompt@.len() == 0 {
            assert(system_prompt@ =~= ""@);
        }
    }
    if !text_eq(session_id, "") {
        args.push("--resume".to_owned());
        args.push(session_id.to_owned());
    } else if !text_eq(system_prompt, "") {
        args.push("--system-prompt".to_owned());
        args.push(system_prompt.to_owned());
    }
    assert(texts(args@) =~= process_args(model@, system_prompt@, session_id@));
    args
}

/// A process to be started.
#[derive(Debug, Clone)]
pub struct SpawnCommand {
    pub program: String,
    pub args: Vec<String>,
    /// Variables that the process does not inherit.
    pub cleared_env: Vec<String>,
    pub work_dir: String,
}

/// The process that runs the runtime with the arguments, as another user where one is
/// given. That user does not inherit the variables of an SSH agent.
pub fn spawn_command(
    runtime: &str,
    unix_user: &Option<String>,
    args: &Vec<String>,
    work_dir: &str,
) -> (r: SpawnCommand)
    ensures
        r.work_dir@ == work_dir@,
        match opt_text(*unix_user) {
            Some(user) => r.program@ == "sudo"@ && texts(r.args@) == seq![
                "-u"@,
                user,
                "-H"@,
                "--"@,
                runtime@,
            ] + texts(args@) && texts(r.cleared_env@) == seq!["SSH_AUTH_SOCK"@, "SSH_AGENT_PID"@],
            None => r.program@ == runtime@ && texts(r.args@) == texts(args@) && texts(
                r.cleared_env@,
            ) == Seq::<Seq<char>>::empty(),
        },
{
    let mut all: Vec<String> = Vec::new();
    let mut cleared: Vec<String> = Vec::new();
    let program = match unix_user {
        Some(user) => {
            all.push("-u".to_owned());
            all.push(user.clone());
            all.push("-H".to_owned());
            all.push("--".to_owned());
            all.push(runtime.to_owned());
            cleared.push("SSH_AUTH_SOCK".to_owned());
            cleared.push("SSH_AGENT_PID".to_owned());
            "sudo"
        },
        None => runtime,
    };
    let ghost head = all@;
    let mut i: usize = 0;
    while i < args.len()
        invariant
            i <= args@.len(),
            all@.len() == head.len() + i,
            forall|k: int| 0 <= k < head.len() ==> (#[trigger] all@[k]) == head[k],
            forall|k: int|
                head.len() <= k < all@.len() ==> (#[trigger] all@[k])@ == args@[k - head.len()]@,
        decreases args@.len() - i,
    {
        all.push(args[i].clone());
        i += 1;
    }
    proof {
        assert(texts(all@) =~= texts(head) + texts(args@));
        match opt_text(*unix_user) {
            Some(user) => {
                assert(texts(head) =~= seq!["-u"@, user, "-H"@, "--"@, runtime@]);
                assert(texts(cleared@) =~= seq!["SSH_AUTH_SOCK"@, "SSH_AGENT_PID"@]);
            },
            None => {
                assert(texts(all@) =~= texts(args@));
                assert(texts(cleared@) =~= Seq::<Seq<char>>::empty());
            },
        }
    }
    SpawnCommand {
        program: program.to_owned(),
        args: all,
        cleared_env: cleared,
        work_dir: work_dir.to_owned(),
    }
}

// ─── Laws ───────────────────────────────────────────────────────────────────

/// The turn after the events, one after the other.
pub open spec fn after_events(t: TurnView, events: Seq<JsonView>) -> TurnView {
    events.fold_left(t, |u: TurnView, v: JsonView| after_event(u, v))
}

/// The content blocks of an event of the assistant; any other event has none.
pub open spec fn spoken_blocks(v: JsonView) -> Seq<JsonView> {
    match (member(v, "type"@), member2(v, "message"@, "content"@)) {
        (Some(JsonView::Str(kind)), Some(JsonView::Array(blocks))) => if kind == "assistant"@ {
            blocks
        } else {
            Seq::empty()
        },
        _ => Seq::empty(),
    }
}

/// The words of a content block: the text of a text block, nothing else.
pub open spec fn block_words(block: JsonView) -> Seq<char> {
    match (member(block, "type"@), member(block, "text"@)) {
        (Some(JsonView::Str(kind)), Some(JsonView::Str(text))) => if kind == "text"@ {
            text
        } else {
            Seq::empty()
        },
        _ => Seq::empty(),
    }
}

proof fn lemma_blocks_text_is_words(blocks: Seq<JsonView>)
    ensures
        blocks_text(blocks) == blocks.map_values(|b: JsonView| block_words(b)).flatten(),
    decreases blocks.len(),
{
    let words = blocks.map_values(|b: JsonView| block_words(b));
    words.lemma_flatten_and_flatten_alt_are_equivalent();
    if blocks.len() > 0 {
        lemma_blocks_text_is_words(blocks.drop_last());
        let front = blocks.drop_last().map_values(|b: JsonView| block_words(b));
        front.lemma_flatten_and_flatten_alt_are_equivalent();
        assert(words.drop_last() =~= front);
        assert(words.last() == block_words(blocks.last()));
        assert(blocks_text(blocks) =~= blocks_text(blocks.drop_last()) + block_words(
            blocks.last(),
        ));
    }
}

proof fn lemma_event_appends(t: TurnView, v: JsonView)
    ensures
        after_event(t, v).text == t.text + spoken_blocks(v).map_values(
            |b: JsonView| block_words(b),
        ).flatten(),
{
    reveal_strlit("assistant");
    reveal_strlit("result");
    lemma_blocks_text_is_words(spoken_blocks(v));
    assert(t.text + Seq::<char>::empty() =~= t.text);
    assert(spoken_blocks(v).len() == 0 ==> blocks_text(spoken_blocks(v)) == Seq::<char>::empty());
}

/// The text of a turn is all that the assistant said: the words of every block of every
/// event, in their order, behind what the turn had.
pub proof fn law_turn_text_is_all_that_was_said(t: TurnView, events: Seq<JsonView>)
    ensures
        after_events(t, events).text == t.text + events.map_values(
            |v: JsonView| spoken_blocks(v).map_values(|b: JsonView| block_words(b)).flatten(),
        ).flatten(),
    decreases events.len(),
{
    let said = |v: JsonView| spoken_blocks(v).map_values(|b: JsonView| block_words(b)).flatten();
    let parts = events.map_values(said);
    parts.lemma_flatten_and_flatten_alt_are_equivalent();
    if events.len() > 0 {
        law_turn_text_is_all_that_was_said(t, events.drop_last());
        let front = events.drop_last().map_values(said);
        front.lemma_flatten_and_flatten_alt_are_equivalent();
        assert(parts.drop_last() =~= front);
        assert(parts.last() == said(events.last()));
        lemma_event_appends(after_events(t, events.drop_last()), events.last());
        assert(t.text + (front.flatten() + said(events.last())) =~= (t.text + front.flatten())
            + said(events.last()));
    } else {
        assert(t.text + Seq::<char>::empty() =~= t.text);
    }
}

/// An event of the assistant with one text block appends exactly the text of the block,
/// whatever the turn has already, and touches nothing else.
pub proof fn law_text_block_is_appended(t: TurnView, v: JsonView, block: JsonView, text: Seq<char>)
    requires
        member(v, "type"@) == Some(JsonView::Str("assistant"@)),
        member2(v, "message"@, "content"@) == Some(JsonView::Array(seq![block])),
        member(block, "type"@) == Some(JsonView::Str("text"@)),
        member(block, "text"@) == Some(JsonView::Str(text)),
    ensures
        after_event(t, v).text == t.text + text,
        after_event(t, v).session_id == t.session_id,
        after_event(t, v).cost == t.cost,
        after_event(t, v).turns == t.turns,
        after_event(t, v).done == t.done,
{
    let blocks = seq![block];
    reveal_with_fuel(blocks_text, 2);
    assert(blocks.drop_last() =~= Seq::<JsonView>::empty());
    assert(Seq::<char>::empty() + text =~= text);
}

/// A block that is no text block says nothing.
pub proof fn law_other_blocks_say_nothing(t: TurnView, v: JsonView, block: JsonView)
    requires
        member(v, "type"@) == Some(JsonView::Str("assistant"@)),
        member2(v, "message"@, "content"@) == Some(JsonView::Array(seq![block])),
        member(block, "type"@) != Some(JsonView::Str("text"@)),
    ensures
        after_event(t, v) == t,
{
    let blocks = seq![block];
    reveal_with_fuel(blocks_text, 2);
    assert(blocks.drop_last() =~= Seq::<JsonView>::empty());
    assert(t.text + Seq::<char>::empty() =~= t.text);
    assert(after_event(t, v) =~= t);
}

/// The blocks of one event say what they would say in two.
pub proof fn law_blocks_split_over_events(t: TurnView, whole: JsonView, a: JsonView, b: JsonView)
    requires
        member(whole, "type"@) == Some(JsonView::Str("assistant"@)),
        member(a, "type"@) == Some(JsonView::Str("assistant"@)),
        member(b, "type"@) == Some(JsonView::Str("assistant"@)),
        member2(a, "message"@, "content"@) is Some,
        member2(a, "message"@, "content"@)->0 is Array,
        member2(b, "message"@, "content"@) is Some,
        member2(b, "message"@, "content"@)->0 is Array,
        member2(whole, "message"@, "content"@) == Some(
            JsonView::Array(
                member2(a, "message"@, "content"@)->0->Array_0 + member2(
                    b,
                    "message"@,
                    "content"@,
                )->0->Array_0,
            ),
        ),
    ensures
        after_event(t, whole) == after_event(after_event(t, a), b),
{
    let x = member2(a, "message"@, "content"@)->0->Array_0;
    let y = member2(b, "message"@, "content"@)->0->Array_0;
    lemma_blocks_text_concat(x, y);
    assert(t.text + (blocks_text(x) + blocks_text(y)) =~= (t.text + blocks_text(x)) + blocks_text(
        y,
    ));
    assert(after_event(t, whole) =~= after_event(after_event(t, a), b));
}

proof fn lemma_blocks_text_concat(x: Seq<JsonView>, y: Seq<JsonView>)
    ensures
        blocks_text(x + y) == blocks_text(x) + blocks_text(y),
    decreases y.len(),
{
    if y.len() == 0 {
        assert(x + y =~= x);
        assert(blocks_text(x) + blocks_text(y) =~= blocks_text(x));
    } else {
        lemma_blocks_text_concat(x, y.drop_last());
        assert((x + y).drop_last() =~= x + y.drop_last());
        assert((x + y).last() == y.last());
        assert(blocks_text(x + y) =~= blocks_text(x) + blocks_text(y));
    }
}

/// A result ends the turn and leaves its text. The session and the turns are those that it
/// names; what it does not name stays as it was.
pub proof fn law_result_ends_the_turn(t: TurnView, v: JsonView)
    requires
        member(v, "type"@) == Some(JsonView::Str("result"@)),
    ensures
        after_event(t, v).done,
        after_event(t, v).text == t.text,
        forall|s: Seq<char>|
            member(v, "session_id"@) == Some(JsonView::Str(s)) ==> after_event(t, v).session_id
                == s,
        member(v, "session_id"@) is None ==> after_event(t, v).session_id == t.session_id,
        forall|n: u64|
            member(v, "num_turns"@) == Some(JsonView::Natural(n)) && n <= u32::MAX ==> after_event(
                t,
                v,
            ).turns == n,
        member(v, "num_turns"@) is None ==> after_event(t, v).turns == t.turns,
        forall|n: u64|
            member(v, "total_cost_usd"@) == Some(JsonView::Natural(n)) ==> after_event(t, v).cost
                == Some(JsonView::Natural(n)),
        forall|d: Seq<char>|
            member(v, "total_cost_usd"@) == Some(JsonView::Decimal(d)) ==> after_event(t, v).cost
                == Some(JsonView::Decimal(d)),
        member(v, "total_cost_usd"@) is None ==> after_event(t, v).cost == t.cost,
{
    reveal_strlit("assistant");
    reveal_strlit("result");
    assert("assistant"@.len() != "result"@.len());
}

/// No other event changes a turn.
pub proof fn law_other_events_change_nothing(t: TurnView, v: JsonView)
    requires
        member(v, "type"@) != Some(JsonView::Str("assistant"@)),
        member(v, "type"@) != Some(JsonView::Str("result"@)),
    ensures
        after_event(t, v) == t,
{
}

/// A line counts for the event that it holds. An empty line, and one that is no JSON, is
/// passed over.
pub proof fn law_line_counts_for_its_event(t: TurnView, line: Seq<char>)
    ensures
        line.len() == 0 ==> after_line(t, line) == t,
        json_parsed(line) is None ==> after_line(t, line) == t,
        line.len() > 0 && json_parsed(line) is Some ==> after_line(t, line) == after_event(
            t,
            json_parsed(line)->0,
        ),
{
}

/// A known session is resumed, by its id and without a prompt. A new one is given the
/// prompt, where there is one. The model is always named.
pub proof fn law_known_session_is_resumed(
    model: Seq<char>,
    system_prompt: Seq<char>,
    session_id: Seq<char>,
)
    ensures
        process_args(model, system_prompt, session_id)[4] == "--model"@,
        process_args(model, system_prompt, session_id)[5] == model,
        process_args(model, system_prompt, session_id).len() == if session_id.len() > 0
            || system_prompt.len() > 0 {
            8int
        } else {
            6
        },
        session_id.len() > 0 ==> process_args(model, system_prompt, session_id)[6] == "--resume"@
            && process_args(model, system_prompt, session_id)[7] == session_id,
        session_id.len() == 0 && system_prompt.len() > 0 ==> process_args(
            model,
            system_prompt,
            session_id,
        )[6] == "--system-prompt"@ && process_args(model, system_prompt, session_id)[7]
            == system_prompt,
{
}

/// A turn is read line by line: what the assistant says in a line with one text block is
/// in the turn afterwards, behind all that was there.
pub proof fn law_line_with_text_is_taken_in(
    turn: &mut Turn,
    line: &str,
    r: bool,
    v: JsonView,
    block: JsonView,
    text: Seq<char>,
)
    requires
        call_ensures(Turn::take_line, (turn, line), r),
        line@.len() > 0,
        json_parsed(line@) == Some(v),
        member(v, "type"@) == Some(JsonView::Str("assistant"@)),
        member2(v, "message"@, "content"@) == Some(JsonView::Array(seq![block])),
        member(block, "type"@) == Some(JsonView::Str("text"@)),
        member(block, "text"@) == Some(JsonView::Str(text)),
    ensures
        final(turn)@.text == old(turn)@.text + text,
        r == old(turn)@.done,
{
    law_text_block_is_appended(old(turn)@, v, block, text);
}

/// A turn begins with nothing said, and a line takes in exactly the event that it holds.
pub proof fn law_turn_takes_in_its_lines(fresh: Turn, turn: &mut Turn, line: &str, r: bool)
    requires
        call_ensures(Turn::new, (), fresh),
        call_ensures(Turn::take_line, (turn, line), r),
    ensures
        fresh@.text.len() == 0,
        fresh@.session_id.len() == 0,
        fresh@.cost is None,
        fresh@.turns == 0,
        !fresh@.done,
        line@.len() == 0 ==> final(turn)@ == old(turn)@,
        json_parsed(line@) is None ==> final(turn)@ == old(turn)@,
        line@.len() > 0 && json_parsed(line@) is Some ==> final(turn)@ == after_event(
            old(turn)@,
            json_parsed(line@)->0,
        ),
        r == final(turn)@.done,
{
}

/// A finished turn gives back its whole text. Without a result it has not ended, and
/// without any text there is no answer.
pub proof fn law_finished_turn_gives_its_text(turn: Turn, r: Result<String, SessionError>)
    requires
        call_ensures(Turn::finish, (turn,), r),
    ensures
        turn@.done && turn@.text.len() > 0 ==> (r matches Ok(t) && t@ == turn@.text),
        turn@.done && turn@.text.len() == 0 ==> r == Err::<String, SessionError>(
            SessionError::NoResponse,
        ),
        !turn@.done ==> r == Err::<String, SessionError>(SessionError::Exited),
{
}

/// The session that the result names is resumed next time, and the turns add up.
pub proof fn law_session_and_turns_carry_over(
    turn: &Turn,
    current: &str,
    session: String,
    before: u32,
    turns: u32,
)
    requires
        call_ensures(Turn::next_session, (turn, current), session),
        call_ensures(Turn::total_turns, (turn, before), turns),
    ensures
        turn@.session_id.len() > 0 ==> session@ == turn@.session_id,
        turn@.session_id.len() == 0 ==> session@ == current@,
        turns == before + turn@.turns,
{
}

/// A write that fails is tried again after a restart, three times at most; a write that
/// fails after a restart is a failure.
pub proof fn law_three_restarts(
    restarts: &mut Restarts,
    written: bool,
    retried: bool,
    r: SendAction,
)
    requires
        call_ensures(Restarts::after_write, (restarts, written, retried), r),
    ensures
        written ==> r == SendAction::ReadResult && final(restarts).count == old(restarts).count,
        !written && retried ==> r == SendAction::Fail && final(restarts).count
            == old(restarts).count,
        !written && !retried && old(restarts).count < 3 ==> r == SendAction::Restart,
        !written && !retried && old(restarts).count >= 3 ==> r == SendAction::GiveUp,
        !written && !retried ==> final(restarts).count == old(restarts).count + 1,
{
}

/// The process runs the runtime in the work directory with the given arguments, last and in
/// order. As another user it runs through `sudo`, and does not inherit the SSH agent.
pub proof fn law_process_runs_the_runtime(
    runtime: &str,
    unix_user: &Option<String>,
    args: &Vec<String>,
    work_dir: &str,
    r: SpawnCommand,
)
    requires
        call_ensures(spawn_command, (runtime, unix_user, args, work_dir), r),
    ensures
        r.work_dir@ == work_dir@,
        unix_user is None ==> r.program@ == runtime@ && r.args@.len() == args@.len()
            && r.cleared_env@.len() == 0,
        unix_user matches Some(user) ==> r.program@ == "sudo"@ && r.args@.len() == args@.len() + 5
            && r.args@[0]@ == "-u"@ && r.args@[1]@ == user@ && r.args@[4]@ == runtime@
            && r.cleared_env@.len() == 2 && r.cleared_env@[0]@ == "SSH_AUTH_SOCK"@
            && r.cleared_env@[1]@ == "SSH_AGENT_PID"@,
        forall|i: int|
            0 <= i < args@.len() ==> (#[trigger] args@[i])@ == r.args@[r.args@.len()
                - args@.len() + i]@,
{
    let given = texts(args@);
    let all = texts(r.args@);
    assert(given.len() == args@.len() && all.len() == r.args@.len());
    if unix_user is Some {
        assert(all[0] == r.args@[0]@ && all[1] == r.args@[1]@ && all[4] == r.args@[4]@);
        let cleared = texts(r.cleared_env@);
        assert(cleared.len() == r.cleared_env@.len());
        assert(cleared[0] == r.cleared_env@[0]@ && cleared[1] == r.cleared_env@[1]@);
    } else {
        assert(texts(r.cleared_env@).len() == r.cleared_env@.len());
    }
    assert forall|i: int| 0 <= i < args@.len() implies (#[trigger] args@[i])@
        == r.args@[r.args@.len() - args@.len() + i]@ by {
        assert(all[all.len() - given.len() + i] == given[i]);
    }
}

/// An error in words names the runtime, or the agent whose session was restarted too often.
pub proof fn law_error_in_words(e: &SessionError, runtime: &str, r: String)
    requires
        call_ensures(SessionError::message, (e, runtime), r),
    ensures
        e is Exited ==> r@ == runtime@ + " process exited unexpectedly"@,
        e is NoResponse ==> r@ == "no response text from "@ + runtime@,
        e matches SessionError::TooManyRestarts { name } ==> r@ == "persistent session for '"@
            + name@ + "' exceeded max restarts (3)"@,
        e is WriteFailed ==> r@ == "stdin write failed after restart"@,
{
}

/// A message is written to the process as it is, but for its line ends, which become spaces,
/// and one at its end.
pub proof fn law_message_is_written_as_it_is(message: &str, r: String, i: int)
    requires
        call_ensures(flatten, (message,), r),
        0 <= i < message@.len(),
    ensures
        r@.len() == message@.len() + 1,
        r@.last() == '\n',
        r@[i] == if message@[i] == '\n' {
            ' '
        } else {
            message@[i]
        },
{
    reveal_strlit("\n");
}

} // verus!

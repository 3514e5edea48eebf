//! The worker of an agent: which messages from the bus become tasks, and what is
//! answered.

use crate::domain::message::Message;
use crate::domain::message::Metadata;
use crate::domain::message::RegisterView;
use crate::ids::is_id;
use crate::ids::new_id;
use crate::infra::dto::BusEnvelope;
use crate::infra::dto::BusRegister;
use crate::infra::dto::default_priority;
use crate::infra::dto::json_line;
use crate::infra::dto::lemma_wire_names;
use crate::infra::dto::line_of;
use crate::infra::dto::metadata_json;
use crate::infra::dto::register_json;
use crate::json::JSON_DEPTH;
use crate::json::Json;
use crate::json::JsonNumber;
use crate::json::JsonView;
use crate::json::ObjectBuilder;
use crate::json::as_text;
use crate::json::json_parsed;
use crate::json::lemma_object_member;
use crate::json::lemma_object_missing;
use crate::json::lemma_plain_object;
use crate::json::member2;
use crate::json::member;
use crate::json::object;
use crate::json::parse_json;
use crate::json::plain;
use crate::text::concat2;
use crate::text::head_within;
use crate::text::opt_text;
use crate::text::prefix_within;
use crate::text::text_eq;
use crate::text::texts;
use vstd::prelude::*;

verus! {

/// The registration line of a client.
pub fn register_line(name: &str, subscriptions: Vec<String>) -> (r: String)
    ensures
        r@ == line_of(
            register_json(RegisterView { name: name@, subscriptions: texts(subscriptions@) }),
        ),
        json_parsed(r@.drop_last()) == Some(
            register_json(RegisterView { name: name@, subscriptions: texts(subscriptions@) }),
        ),
{
    let register = BusRegister { name: name.to_owned(), subscriptions };
    BusEnvelope::Register(register).to_line()
}

/// What the worker of an agent subscribes to: its own messages and the task queue.
pub fn subscriptions(name: &str) -> (r: Vec<String>)
    ensures
        texts(r@) == seq!["agent:"@ + name@, "queue:tasks"@],
{
    let mut out: Vec<String> = Vec::new();
    out.push(concat2("agent:", name));
    out.push("queue:tasks".to_owned());
    assert(texts(out@) =~= seq!["agent:"@ + name@, "queue:tasks"@]);
    out
}

// ─── Incoming ───────────────────────────────────────────────────────────────

/// A task, and where its answer goes.
#[derive(Debug, Clone)]
pub struct TaskRequest {
    pub task: String,
    pub msg_id: String,
    pub source: String,
    pub reply_to: Option<String>,
}

#[verifier::ext_equal]
pub ghost struct RequestView {
    pub task: Seq<char>,
    pub msg_id: Seq<char>,
    pub source: Seq<char>,
    pub reply_to: Option<Seq<char>>,
}

impl View for TaskRequest {
    type V = RequestView;

    open spec fn view(&self) -> RequestView {
        RequestView {
            task: self.task@,
            msg_id: self.msg_id@,
            source: self.source@,
            reply_to: opt_text(self.reply_to),
        }
    }
}

/// What becomes of a line from the bus.
pub enum Incoming {
    /// The line is empty.
    Empty,
    /// The line is no JSON.
    Invalid,
    /// The line holds a message.
    Message(Json),
}

/// Reads a line from the bus.
pub fn read_line(line: &str) -> (r: Incoming)
    ensures
        match r {
            Incoming::Empty => line@.len() == 0,
            Incoming::Invalid => line@.len() > 0 && json_parsed(line@) is None,
            Incoming::Message(v) => line@.len() > 0 && json_parsed(line@) == Some(v@),
        },
{
    if text_eq(line, "") {
        proof {
            reveal_strlit("");
        }
        return Incoming::Empty;
    }
    proof {
        reveal_strlit("");
        if line@.len() == 0 {
            assert(line@ =~= ""@);
        }
    }
    match parse_json(line) {
        Some(v) => Incoming::Message(v),
        None => Incoming::Invalid,
    }
}

/// The text of a value, or the empty one.
pub open spec fn text_or_empty(v: Option<JsonView>) -> Seq<char> {
    match as_text(v) {
        Some(t) => t,
        None => Seq::empty(),
    }
}

/// The task that a message asks for.
pub open spec fn request_in(v: JsonView) -> RequestView {
    RequestView {
        task: text_or_empty(member2(v, "payload"@, "task"@)),
        msg_id: text_or_empty(member(v, "id"@)),
        source: text_or_empty(member(v, "source"@)),
        reply_to: as_text(member(v, "reply_to"@)),
    }
}

/// What the worker does with a message.
pub enum Decision {
    /// The agent has spent its budget: the message is dropped.
    OverBudget,
    /// The message has no task: it is dropped.
    NoTask,
    /// The task is run.
    Run(TaskRequest),
}

/// Decides on a message. A spent budget comes first.
pub fn decide(msg: &Json, budget_spent: bool) -> (r: Decision)
    ensures
        match r {
            Decision::OverBudget => budget_spent,
            Decision::NoTask => !budget_spent && request_in(msg@).task.len() == 0,
            Decision::Run(q) => !budget_spent && q@ == request_in(msg@) && q@.task.len() > 0,
        },
{
    if budget_spent {
        return Decision::OverBudget;
    }
    proof {
        reveal_strlit("");
    }
    let task = match msg.str_member2("payload", "task") {
        Some(t) => t,
        None => "",
    };
    assert(task@ =~= request_in(msg@).task);
    if text_eq(task, "") {
        return Decision::NoTask;
    }
    assert(task@.len() > 0) by {
        if task@.len() == 0 {
            assert(task@ =~= ""@);
        }
    }
    let msg_id = match msg.str_member("id") {
        Some(t) => t,
        None => "",
    };
    let source = match msg.str_member("source") {
        Some(t) => t,
        None => "",
    };
    let reply_to = match msg.str_member("reply_to") {
        Some(t) => Some(t.to_owned()),
        None => None,
    };
    let request = TaskRequest {
        task: task.to_owned(),
        msg_id: msg_id.to_owned(),
        source: source.to_owned(),
        reply_to,
    };
    assert(request@ =~= request_in(msg@));
    Decision::Run(request)
}

// ─── Answers ────────────────────────────────────────────────────────────────

/// Where the result of a task goes: to the reply address, or to the sender.
pub open spec fn reply_target(q: RequestView) -> Seq<char> {
    match q.reply_to {
        Some(t) => t,
        None => q.source,
    }
}

/// The answer that holds the result of a task.
pub open spec fn result_reply(
    id: Seq<char>,
    name: Seq<char>,
    q: RequestView,
    text: Seq<char>,
) -> JsonView {
    object(
        seq![
            ("type"@, JsonView::Str("message"@)),
            ("id"@, JsonView::Str(id)),
            ("source"@, JsonView::Str(name)),
            ("target"@, JsonView::Str(reply_target(q))),
            (
                "payload"@,
                object(
                    seq![
                        ("result"@, JsonView::Str(text)),
                        ("in_reply_to"@, JsonView::Str(q.msg_id)),
                    ],
                ),
            ),
            ("metadata"@, metadata_json(Metadata { priority: 0, fresh: false })),
        ],
    )
}

/// The metadata of an ordinary message.
pub open spec fn plain_metadata() -> JsonView {
    object(seq![("priority"@, JsonView::Natural(5))])
}

/// The answer that says why a task failed.
pub open spec fn error_reply(
    id: Seq<char>,
    name: Seq<char>,
    target: Seq<char>,
    q: RequestView,
    error: Seq<char>,
) -> JsonView {
    object(
        seq![
            ("type"@, JsonView::Str("message"@)),
            ("id"@, JsonView::Str(id)),
            ("source"@, JsonView::Str(name)),
            ("target"@, JsonView::Str(target)),
            (
                "payload"@,
                object(
                    seq![
                        ("error"@, JsonView::Str(error)),
                        ("in_reply_to"@, JsonView::Str(q.msg_id)),
                    ],
                ),
            ),
            ("metadata"@, plain_metadata()),
        ],
    )
}

/// Makes the metadata of an ordinary message.
pub fn ordinary_metadata() -> (r: Json)
    ensures
        r@ == plain_metadata(),
{
    let b = ObjectBuilder::new().with(
        "priority",
        Json::Number(JsonNumber::Natural(default_priority() as u64)),
    );
    assert(b@ =~= seq![("priority"@, JsonView::Natural(5))]);
    b.build()
}

/// A message object of the given parts.
fn message_object(id: &str, source: &str, target: &str, payload: Json, metadata: Json) -> (r:
    ObjectBuilder)
    ensures
        r@ == seq![
            ("type"@, JsonView::Str("message"@)),
            ("id"@, JsonView::Str(id@)),
            ("source"@, JsonView::Str(source@)),
            ("target"@, JsonView::Str(target@)),
            ("payload"@, payload@),
            ("metadata"@, metadata@),
        ],
{
    let r = ObjectBuilder::new().with_text("type", "message").with_text("id", id).with_text(
        "source",
        source,
    ).with_text("target", target).with("payload", payload).with("metadata", metadata);
    assert(r@ =~= seq![
        ("type"@, JsonView::Str("message"@)),
        ("id"@, JsonView::Str(id@)),
        ("source"@, JsonView::Str(source@)),
        ("target"@, JsonView::Str(target@)),
        ("payload"@, payload@),
        ("metadata"@, metadata@),
    ]);
    r
}

/// The line that answers a task with its result, under the given identifier.
pub fn result_line_with_id(id: &str, name: &str, q: &TaskRequest, text: &str) -> (r: String)
    ensures
        r@ == line_of(result_reply(id@, name@, q@, text@)),
        json_parsed(r@.drop_last()) == Some(result_reply(id@, name@, q@, text@)),
{
    let payload = ObjectBuilder::new().with_text("result", text).with_text(
        "in_reply_to",
        q.msg_id.as_str(),
    );
    assert(payload@ =~= seq![
        ("result"@, JsonView::Str(text@)),
        ("in_reply_to"@, JsonView::Str(q.msg_id@)),
    ]);
    let target = match &q.reply_to {
        Some(t) => t.as_str(),
        None => q.source.as_str(),
    };
    let metadata = Metadata::default();
    let meta = ObjectBuilder::new().with(
        "priority",
        Json::Number(JsonNumber::Natural(metadata.priority as u64)),
    ).with("fresh", Json::Bool(metadata.fresh));
    assert(meta@ =~= seq![
        ("priority"@, JsonView::Natural(0u8 as u64)),
        ("fresh"@, JsonView::Bool(false)),
    ]);
    proof {
        lemma_wire_names();
        let inner = (JSON_DEPTH - 1) as nat;
        lemma_plain_object(payload@, inner);
        lemma_plain_object(meta@, inner);
    }
    let m = message_object(id, name, target, payload.build(), meta.build());
    proof {
        lemma_plain_object(m@, JSON_DEPTH as nat);
    }
    json_line(&m.build())
}

/// The line that answers a task with its result.
pub fn result_line(name: &str, q: &TaskRequest, text: &str) -> (r: String)
    ensures
        exists|id: Seq<char>| #[trigger]
            is_id(id) && r@ == line_of(result_reply(id, name@, q@, text@)) && json_parsed(
                r@.drop_last(),
            ) == Some(result_reply(id, name@, q@, text@)),
{
    let id = new_id();
    let r = result_line_with_id(id.as_str(), name, q, text);
    assert(is_id(id@));
    r
}

/// The line that says why a task failed, under the given identifier. There is one only
/// for a task with a reply address.
pub fn error_line_with_id(id: &str, name: &str, q: &TaskRequest, error: &str) -> (r: Option<String>)
    ensures
        match q@.reply_to {
            Some(target) => r matches Some(line) && line@ == line_of(
                error_reply(id@, name@, target, q@, error@),
            ) && json_parsed(line@.drop_last()) == Some(
                error_reply(id@, name@, target, q@, error@),
            ),
            None => r is None,
        },
{
    match &q.reply_to {
        Some(target) => {
            let payload = ObjectBuilder::new().with_text("error", error).with_text(
                "in_reply_to",
                q.msg_id.as_str(),
            );
            assert(payload@ =~= seq![
                ("error"@, JsonView::Str(error@)),
                ("in_reply_to"@, JsonView::Str(q.msg_id@)),
            ]);
            proof {
                lemma_wire_names();
                let inner = (JSON_DEPTH - 1) as nat;
                lemma_plain_object(payload@, inner);
                lemma_plain_object(seq![("priority"@, JsonView::Natural(5))], inner);
            }
            let m = message_object(id, name, target.as_str(), payload.build(), ordinary_metadata());
            proof {
                lemma_plain_object(m@, JSON_DEPTH as nat);
            }
            Some(json_line(&m.build()))
        },
        None => None,
    }
}

/// The line that says why a task failed, if the task has a reply address.
pub fn error_line(name: &str, q: &TaskRequest, error: &str) -> (r: Option<String>)
    ensures
        match q@.reply_to {
            Some(target) => r matches Some(line) && exists|id: Seq<char>| #[trigger]
                is_id(id) && line@ == line_of(error_reply(id, name@, target, q@, error@))
                    && json_parsed(line@.drop_last()) == Some(
                    error_reply(id, name@, target, q@, error@),
                ),
            None => r is None,
        },
{
    let id = new_id();
    let r = error_line_with_id(id.as_str(), name, q, error);
    assert(is_id(id@));
    r
}

// ─── Requests ───────────────────────────────────────────────────────────────

/// The payload of a request.
pub open spec fn request_payload(task: Seq<char>, max_turns: Option<u32>) -> JsonView {
    let head = seq![("task"@, JsonView::Str(task))];
    object(
        match max_turns {
            Some(n) => head.push(("max_turns"@, JsonView::Natural(n as u64))),
            None => head,
        },
    )
}

/// A request that is answered to its source.
pub open spec fn request_json(
    id: Seq<char>,
    source: Seq<char>,
    target: Seq<char>,
    task: Seq<char>,
    max_turns: Option<u32>,
) -> JsonView {
    object(
        seq![
            ("type"@, JsonView::Str("message"@)),
            ("id"@, JsonView::Str(id)),
            ("source"@, JsonView::Str(source)),
            ("target"@, JsonView::Str(target)),
            ("payload"@, request_payload(task, max_turns)),
            ("metadata"@, plain_metadata()),
            ("reply_to"@, JsonView::Str("agent:"@ + source)),
        ],
    )
}

/// The line of a request, under the given identifier.
pub fn request_line_with_id(
    id: &str,
    source: &str,
    target: &str,
    task: &str,
    max_turns: Option<u32>,
) -> (r: String)
    ensures
        r@ == line_of(request_json(id@, source@, target@, task@, max_turns)),
        json_parsed(r@.drop_last()) == Some(
            request_json(id@, source@, target@, task@, max_turns),
        ),
{
    let head = ObjectBuilder::new().with_text("task", task);
    assert(head@ =~= seq![("task"@, JsonView::Str(task@))]);
    let payload = match max_turns {
        Some(n) => head.with("max_turns", Json::Number(JsonNumber::Natural(n as u64))).build(),
        None => head.build(),
    };
    let reply_to = concat2("agent:", source);
    let m = message_object(id, source, target, payload, ordinary_metadata()).with_text(
        "reply_to",
        reply_to.as_str(),
    );
    assert(m@ =~= seq![
        ("type"@, JsonView::Str("message"@)),
        ("id"@, JsonView::Str(id@)),
        ("source"@, JsonView::Str(source@)),
        ("target"@, JsonView::Str(target@)),
        ("payload"@, request_payload(task@, max_turns)),
        ("metadata"@, plain_metadata()),
        ("reply_to"@, JsonView::Str("agent:"@ + source@)),
    ]);
    proof {
        lemma_request_plain(id@, source@, target@, task@, max_turns);
    }
    json_line(&m.build())
}

proof fn lemma_request_plain(
    id: Seq<char>,
    source: Seq<char>,
    target: Seq<char>,
    task: Seq<char>,
    max_turns: Option<u32>,
)
    ensures
        plain(request_json(id, source, target, task, max_turns), JSON_DEPTH as nat),
{
    lemma_wire_names();
    let depth = JSON_DEPTH as nat;
    let inner = (depth - 1) as nat;
    lemma_plain_object(seq![("priority"@, JsonView::Natural(5))], inner);
    let head = seq![("task"@, JsonView::Str(task))];
    match max_turns {
        Some(n) => {
            lemma_plain_object(head.push(("max_turns"@, JsonView::Natural(n as u64))), inner);
        },
        None => {
            lemma_plain_object(head, inner);
        },
    }
    lemma_plain_object(
        seq![
            ("type"@, JsonView::Str("message"@)),
            ("id"@, JsonView::Str(id)),
            ("source"@, JsonView::Str(source)),
            ("target"@, JsonView::Str(target)),
            ("payload"@, request_payload(task, max_turns)),
            ("metadata"@, plain_metadata()),
            ("reply_to"@, JsonView::Str("agent:"@ + source)),
        ],
        depth,
    );
}

/// The line of a request.
pub fn request_line(source: &str, target: &str, task: &str, max_turns: Option<u32>) -> (r: String)
    ensures
        exists|id: Seq<char>| #[trigger]
            is_id(id) && r@ == line_of(request_json(id, source@, target@, task@, max_turns))
                && json_parsed(r@.drop_last()) == Some(
                request_json(id, source@, target@, task@, max_turns),
            ),
{
    let id = new_id();
    let r = request_line_with_id(id.as_str(), source, target, task, max_turns);
    assert(is_id(id@));
    r
}

/// What an agent answered.
pub enum Response {
    /// The result of the task.
    Result(String),
    /// Why the task failed.
    Error(String),
    /// Anything else.
    Other(Json),
}

/// Reads the answer to a request; `None` where it is no JSON.
pub fn read_response(line: &str) -> (r: Option<Response>)
    ensures
        match json_parsed(line@) {
            Some(v) => match as_text(member2(v, "payload"@, "result"@)) {
                Some(t) => r matches Some(Response::Result(s)) && s@ == t,
                None => match as_text(member2(v, "payload"@, "error"@)) {
                    Some(t) => r matches Some(Response::Error(s)) && s@ == "Agent error: "@ + t,
                    None => r matches Some(Response::Other(j)) && j@ == v,
                },
            },
            None => r is None,
        },
{
    match parse_json(line) {
        Some(v) => {
            if let Some(t) = v.str_member2("payload", "result") {
                return Some(Response::Result(t.to_owned()));
            }
            if let Some(t) = v.str_member2("payload", "error") {
                return Some(Response::Error(concat2("Agent error: ", t)));
            }
            Some(Response::Other(v))
        },
        None => None,
    }
}

/// The longest start of the text of at most `max` bytes.
pub fn truncate(s: &str, max: usize) -> (r: String)
    ensures
        r@ == prefix_within(s@, max as nat),
{
    head_within(s, max)
}

/// A worker that gets a request runs its task and answers to the agent that asked: the
/// result goes to `agent:<source>`.
pub proof fn law_request_is_run(
    id: Seq<char>,
    source: Seq<char>,
    target: Seq<char>,
    task: Seq<char>,
    max_turns: Option<u32>,
)
    ensures
        request_in(request_json(id, source, target, task, max_turns)) == (RequestView {
            task,
            msg_id: id,
            source,
            reply_to: Some("agent:"@ + source),
        }),
        reply_target(request_in(request_json(id, source, target, task, max_turns))) == "agent:"@
            + source,
{
    lemma_wire_names();
    let members = seq![
        ("type"@, JsonView::Str("message"@)),
        ("id"@, JsonView::Str(id)),
        ("source"@, JsonView::Str(source)),
        ("target"@, JsonView::Str(target)),
        ("payload"@, request_payload(task, max_turns)),
        ("metadata"@, plain_metadata()),
        ("reply_to"@, JsonView::Str("agent:"@ + source)),
    ];
    assert forall|j: int| 1 < j < members.len() implies (#[trigger] members[j]).0.len() != 2 by {}
    lemma_object_member(members, 1);
    lemma_object_member(members, 2);
    lemma_object_member(members, 4);
    lemma_object_member(members, 6);
    let head = seq![("task"@, JsonView::Str(task))];
    match max_turns {
        Some(n) => {
            let members = head.push(("max_turns"@, JsonView::Natural(n as u64)));
            assert(members[1].0 == "max_turns"@);
            lemma_object_member(members, 0);
        },
        None => {
            lemma_object_member(head, 0);
        },
    }
}

/// The client that asked reads its result out of the worker's answer, and the reason
/// of a failure out of the other one.
pub proof fn law_answer_is_read(
    id: Seq<char>,
    name: Seq<char>,
    target: Seq<char>,
    q: RequestView,
    text: Seq<char>,
)
    ensures
        as_text(member2(result_reply(id, name, q, text), "payload"@, "result"@)) == Some(text),
        as_text(member2(error_reply(id, name, target, q, text), "payload"@, "result"@)) is None,
        as_text(member2(error_reply(id, name, target, q, text), "payload"@, "error"@)) == Some(
            text,
        ),
{
    lemma_wire_names();
    let done = seq![
        ("result"@, JsonView::Str(text)),
        ("in_reply_to"@, JsonView::Str(q.msg_id)),
    ];
    assert(done[1].0 == "in_reply_to"@);
    lemma_object_member(done, 0);
    let result = seq![
        ("type"@, JsonView::Str("message"@)),
        ("id"@, JsonView::Str(id)),
        ("source"@, JsonView::Str(name)),
        ("target"@, JsonView::Str(reply_target(q))),
        ("payload"@, object(done)),
        ("metadata"@, metadata_json(Metadata { priority: 0, fresh: false })),
    ];
    assert(result[5].0 == "metadata"@);
    lemma_object_member(result, 4);
    let failed = seq![
        ("error"@, JsonView::Str(text)),
        ("in_reply_to"@, JsonView::Str(q.msg_id)),
    ];
    assert(failed[1].0 == "in_reply_to"@);
    lemma_object_member(failed, 0);
    lemma_object_missing(failed, "result"@);
    let error = seq![
        ("type"@, JsonView::Str("message"@)),
        ("id"@, JsonView::Str(id)),
        ("source"@, JsonView::Str(name)),
        ("target"@, JsonView::Str(target)),
        ("payload"@, object(failed)),
        ("metadata"@, plain_metadata()),
    ];
    assert(error[5].0 == "metadata"@);
    lemma_object_member(error, 4);
}

/// What a message asks for is read out of it as it stands: the task out of the payload,
/// and the message's own id, sender and reply address.
pub proof fn law_request_as_sent(
    v: JsonView,
    task: Seq<char>,
    id: Seq<char>,
    source: Seq<char>,
    reply_to: Seq<char>,
)
    ensures
        member2(v, "payload"@, "task"@) == Some(JsonView::Str(task)) ==> request_in(v).task == task,
        member2(v, "payload"@, "task"@) is None ==> request_in(v).task.len() == 0,
        member(v, "id"@) == Some(JsonView::Str(id)) ==> request_in(v).msg_id == id,
        member(v, "source"@) == Some(JsonView::Str(source)) ==> request_in(v).source == source,
        member(v, "reply_to"@) == Some(JsonView::Str(reply_to)) ==> request_in(v).reply_to == Some(
            reply_to,
        ),
        member(v, "reply_to"@) is None ==> request_in(v).reply_to is None,
{
}

/// The result of a task goes to the reply address of its message, and to the sender where
/// there is none.
pub proof fn law_result_goes_back(v: JsonView, source: Seq<char>, reply_to: Seq<char>)
    requires
        member(v, "source"@) == Some(JsonView::Str(source)),
    ensures
        member(v, "reply_to"@) == Some(JsonView::Str(reply_to)) ==> reply_target(request_in(v))
            == reply_to,
        member(v, "reply_to"@) is None ==> reply_target(request_in(v)) == source,
{
}

/// An answer is addressed: it names its id, the worker that sends it and where it goes, and
/// in its payload the message that it answers.
pub proof fn law_answer_is_addressed(
    id: Seq<char>,
    name: Seq<char>,
    target: Seq<char>,
    q: RequestView,
    text: Seq<char>,
)
    ensures
        member(result_reply(id, name, q, text), "type"@) == Some(JsonView::Str("message"@)),
        member(result_reply(id, name, q, text), "id"@) == Some(JsonView::Str(id)),
        member(result_reply(id, name, q, text), "source"@) == Some(JsonView::Str(name)),
        member(result_reply(id, name, q, text), "target"@) == Some(
            JsonView::Str(
                match q.reply_to {
                    Some(t) => t,
                    None => q.source,
                },
            ),
        ),
        member2(result_reply(id, name, q, text), "payload"@, "in_reply_to"@) == Some(
            JsonView::Str(q.msg_id),
        ),
        member(error_reply(id, name, target, q, text), "type"@) == Some(JsonView::Str("message"@)),
        member(error_reply(id, name, target, q, text), "id"@) == Some(JsonView::Str(id)),
        member(error_reply(id, name, target, q, text), "source"@) == Some(JsonView::Str(name)),
        member(error_reply(id, name, target, q, text), "target"@) == Some(JsonView::Str(target)),
        member2(error_reply(id, name, target, q, text), "payload"@, "in_reply_to"@) == Some(
            JsonView::Str(q.msg_id),
        ),
{
    lemma_wire_names();
    let done = seq![
        ("result"@, JsonView::Str(text)),
        ("in_reply_to"@, JsonView::Str(q.msg_id)),
    ];
    lemma_object_member(done, 1);
    let result = seq![
        ("type"@, JsonView::Str("message"@)),
        ("id"@, JsonView::Str(id)),
        ("source"@, JsonView::Str(name)),
        ("target"@, JsonView::Str(reply_target(q))),
        ("payload"@, object(done)),
        ("metadata"@, metadata_json(Metadata { priority: 0, fresh: false })),
    ];
    assert forall|j: int| 1 < j < result.len() implies (#[trigger] result[j]).0.len() != 2 by {}
    lemma_object_member(result, 0);
    lemma_object_member(result, 1);
    lemma_object_member(result, 2);
    lemma_object_member(result, 3);
    lemma_object_member(result, 4);
    let failed = seq![
        ("error"@, JsonView::Str(text)),
        ("in_reply_to"@, JsonView::Str(q.msg_id)),
    ];
    lemma_object_member(failed, 1);
    let error = seq![
        ("type"@, JsonView::Str("message"@)),
        ("id"@, JsonView::Str(id)),
        ("source"@, JsonView::Str(name)),
        ("target"@, JsonView::Str(target)),
        ("payload"@, object(failed)),
        ("metadata"@, plain_metadata()),
    ];
    assert forall|j: int| 1 < j < error.len() implies (#[trigger] error[j]).0.len() != 2 by {}
    lemma_object_member(error, 0);
    lemma_object_member(error, 1);
    lemma_object_member(error, 2);
    lemma_object_member(error, 3);
    lemma_object_member(error, 4);
}

/// A message with a task is run while the budget lasts, with that task; one without is
/// dropped, and so is every message once the budget is spent.
pub proof fn law_decision_by_budget_and_task(
    msg: &Json,
    budget_spent: bool,
    r: Decision,
    task: Seq<char>,
)
    requires
        call_ensures(decide, (msg, budget_spent), r),
    ensures
        budget_spent ==> r is OverBudget,
        !budget_spent && member2(msg@, "payload"@, "task"@) is None ==> r is NoTask,
        !budget_spent && task.len() > 0 && member2(msg@, "payload"@, "task"@) == Some(
            JsonView::Str(task),
        ) ==> (r matches Decision::Run(q) && q.task@ == task),
{
}

/// A failure is reported only to a reply address.
pub proof fn law_failure_needs_an_address(
    id: &str,
    name: &str,
    q: &TaskRequest,
    error: &str,
    r: Option<String>,
)
    requires
        call_ensures(error_line_with_id, (id, name, q, error), r),
    ensures
        r is Some <==> q.reply_to is Some,
        r matches Some(line) ==> json_parsed(line@.drop_last()) is Some && member(
            json_parsed(line@.drop_last())->0,
            "target"@,
        ) == Some(JsonView::Str(q.reply_to->0@)) && member2(
            json_parsed(line@.drop_last())->0,
            "payload"@,
            "error"@,
        ) == Some(JsonView::Str(error@)),
{
    if q.reply_to is Some {
        let target = q.reply_to->0@;
        law_answer_is_addressed(id@, name@, target, q@, error@);
        law_answer_is_read(id@, name@, target, q@, error@);
    }
}

/// The text of a result, or of an error, comes out of the answer that holds it.
pub proof fn law_response_tells_the_outcome(line: &str, r: Option<Response>, text: Seq<char>)
    requires
        call_ensures(read_response, (line,), r),
        json_parsed(line@) is Some,
    ensures
        member2(json_parsed(line@)->0, "payload"@, "result"@) == Some(JsonView::Str(text)) ==> (
        r matches Some(Response::Result(s)) && s@ == text),
        member2(json_parsed(line@)->0, "payload"@, "result"@) is None && member2(
            json_parsed(line@)->0,
            "payload"@,
            "error"@,
        ) == Some(JsonView::Str(text)) ==> (r matches Some(Response::Error(s)) && s@
            == "Agent error: "@ + text),
{
}

/// A task that is run carries what its message says: the id, the sender and the reply
/// address of the message itself.
pub proof fn law_run_carries_the_message(msg: &Json, budget_spent: bool, q: TaskRequest)
    requires
        call_ensures(decide, (msg, budget_spent), Decision::Run(q)),
    ensures
        q.task@.len() > 0,
        member2(msg@, "payload"@, "task"@) == Some(JsonView::Str(q.task@)),
        member(msg@, "id"@) matches Some(JsonView::Str(t)) ==> q.msg_id@ == t,
        member(msg@, "source"@) matches Some(JsonView::Str(t)) ==> q.source@ == t,
        match member(msg@, "reply_to"@) {
            Some(JsonView::Str(t)) => q.reply_to matches Some(s) && s@ == t,
            _ => q.reply_to is None,
        },
{
}

/// The line of a result holds the result and the id of the message that it answers, and
/// goes to the reply address, or else to the sender.
pub proof fn law_result_line_answers(
    id: &str,
    name: &str,
    q: &TaskRequest,
    text: &str,
    r: String,
    v: JsonView,
)
    requires
        call_ensures(result_line_with_id, (id, name, q, text), r),
        json_parsed(r@.drop_last()) == Some(v),
    ensures
        member(v, "id"@) == Some(JsonView::Str(id@)),
        member(v, "source"@) == Some(JsonView::Str(name@)),
        member(v, "target"@) == Some(
            JsonView::Str(
                match q.reply_to {
                    Some(t) => t@,
                    None => q.source@,
                },
            ),
        ),
        member2(v, "payload"@, "result"@) == Some(JsonView::Str(text@)),
        member2(v, "payload"@, "in_reply_to"@) == Some(JsonView::Str(q.msg_id@)),
{
    law_answer_is_addressed(id@, name@, name@, q@, text@);
    law_answer_is_read(id@, name@, name@, q@, text@);
}

/// The line of a request goes from its source to its target, with the task and, where one
/// is set, the limit on turns. It is answered to the agent that sends it.
pub proof fn law_request_line_asks(
    id: &str,
    source: &str,
    target: &str,
    task: &str,
    max_turns: Option<u32>,
    r: String,
    v: JsonView,
)
    requires
        call_ensures(request_line_with_id, (id, source, target, task, max_turns), r),
        json_parsed(r@.drop_last()) == Some(v),
    ensures
        member(v, "type"@) == Some(JsonView::Str("message"@)),
        member(v, "id"@) == Some(JsonView::Str(id@)),
        member(v, "source"@) == Some(JsonView::Str(source@)),
        member(v, "target"@) == Some(JsonView::Str(target@)),
        member(v, "reply_to"@) == Some(JsonView::Str("agent:"@ + source@)),
        member2(v, "payload"@, "task"@) == Some(JsonView::Str(task@)),
        max_turns matches Some(n) ==> member2(v, "payload"@, "max_turns"@) == Some(
            JsonView::Natural(n as u64),
        ),
        max_turns is None ==> member2(v, "payload"@, "max_turns"@) is None,
        member2(v, "metadata"@, "priority"@) == Some(JsonView::Natural(5)),
{
    lemma_wire_names();
    let members = seq![
        ("type"@, JsonView::Str("message"@)),
        ("id"@, JsonView::Str(id@)),
        ("source"@, JsonView::Str(source@)),
        ("target"@, JsonView::Str(target@)),
        ("payload"@, request_payload(task@, max_turns)),
        ("metadata"@, plain_metadata()),
        ("reply_to"@, JsonView::Str("agent:"@ + source@)),
    ];
    assert(v == object(members));
    assert forall|j: int| 1 < j < members.len() implies (#[trigger] members[j]).0.len() != 2 by {}
    lemma_object_member(members, 0);
    lemma_object_member(members, 1);
    lemma_object_member(members, 2);
    lemma_object_member(members, 3);
    lemma_object_member(members, 4);
    lemma_object_member(members, 5);
    lemma_object_member(members, 6);
    lemma_object_member(seq![("priority"@, JsonView::Natural(5))], 0);
    let head = seq![("task"@, JsonView::Str(task@))];
    match max_turns {
        Some(n) => {
            let payload = head.push(("max_turns"@, JsonView::Natural(n as u64)));
            assert(payload[1].0 == "max_turns"@);
            lemma_object_member(payload, 0);
            lemma_object_member(payload, 1);
        },
        None => {
            lemma_object_member(head, 0);
            lemma_object_missing(head, "max_turns"@);
        },
    }
}

} // verus!

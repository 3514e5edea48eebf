//! The Telegram adapter: which messages on the bus go to which chat, and how a chat
//! message becomes a task.

use crate::domain::message::Metadata;
use crate::domain::message::RegisterView;
use crate::ids::is_id;
use crate::ids::new_id;
use crate::infra::dto::json_line;
use crate::infra::dto::lemma_wire_names;
use crate::infra::dto::line_of;
use crate::infra::dto::metadata_json;
use crate::infra::dto::register_json;
use crate::json::JSON_DEPTH;
use crate::json::Json;
use crate::json::JsonView;
use crate::json::ObjectBuilder;
use crate::json::as_text;
use crate::json::json_parsed;
use crate::json::lemma_object_member;
use crate::json::lemma_plain_object;
use crate::json::member2;
use crate::json::member;
use crate::json::object;
use crate::text::concat2;
use crate::text::format_i64;
use crate::text::has_prefix;
use crate::text::lemma_signed_decimal_parses;
use crate::text::parse_i64;
use crate::text::parsed_i64;
use crate::text::signed_decimal;
use crate::text::strip_prefix;
use crate::text::texts;
use crate::worker::Incoming;
use crate::worker::ordinary_metadata;
use crate::worker::plain_metadata;
use crate::worker::read_line;
use crate::worker::register_line;
use crate::worker::reply_target;
use crate::worker::request_in;
use crate::worker::result_reply;
use crate::worker::text_or_empty;
use vstd::prelude::*;

verus! {

/// The name under which the adapter registers.
pub const ADAPTER_NAME: &'static str = "telegram-adapter";

/// The registration line of the adapter, which takes every message to a chat.
pub fn adapter_register_line() -> (r: String)
    ensures
        r@ == line_of(
            register_json(
                RegisterView {
                    name: "telegram-adapter"@,
                    subscriptions: seq!["telegram:*"@],
                },
            ),
        ),
{
    let mut subscriptions: Vec<String> = Vec::new();
    subscriptions.push("telegram:*".to_owned());
    assert(texts(subscriptions@) =~= seq!["telegram:*"@]);
    register_line(ADAPTER_NAME, subscriptions)
}

// ─── From the bus ───────────────────────────────────────────────────────────

/// What becomes of a line from the bus.
#[derive(Debug, Clone)]
pub enum Outbound {
    /// The line is empty, or its message is for no chat.
    Skip,
    /// The line is no JSON.
    Invalid,
    /// The target names no chat number.
    BadChat,
    /// The text goes to the chat.
    Send { chat_id: i64, text: String },
}

/// The chat that a target names: `None` where it is for no chat, `Some(None)` where its
/// chat is no number.
pub open spec fn chat_of(target: Seq<char>) -> Option<Option<i64>> {
    if has_prefix(target, "telegram:"@) {
        Some(parsed_i64(target.skip("telegram:"@.len() as int)))
    } else {
        None
    }
}

/// The text that a message has for a chat: its result, or else its error.
pub open spec fn chat_text(v: JsonView) -> Seq<char> {
    let content = match member2(v, "payload"@, "result"@) {
        Some(c) => Some(c),
        None => member2(v, "payload"@, "error"@),
    };
    match as_text(content) {
        Some(t) => t,
        None => "(no content)"@,
    }
}

/// The chat that a message is for.
pub open spec fn chat_in(v: JsonView) -> Option<Option<i64>> {
    chat_of(text_or_empty(member(v, "target"@)))
}

/// Decides on a message from the bus.
pub fn route(v: &Json) -> (r: Outbound)
    ensures
        match chat_in(v@) {
            Some(Some(id)) => r matches Outbound::Send { chat_id, text } && chat_id == id && text@
                == chat_text(v@),
            Some(None) => r is BadChat,
            None => r is Skip,
        },
{
    proof {
        reveal_strlit("");
    }
    let target = match v.str_member("target") {
        Some(t) => t,
        None => "",
    };
    assert(target@ =~= text_or_empty(member(v@, "target"@)));
    match strip_prefix(target, "telegram:") {
        Some(chat) => match parse_i64(chat.as_str()) {
            Some(chat_id) => {
                let content: Option<&Json> = match v.get("payload") {
                    Some(p) => match p.get("result") {
                        Some(c) => Some(c),
                        None => p.get("error"),
                    },
                    None => None,
                };
                let text = match content {
                    Some(c) => match c.as_str() {
                        Some(t) => t,
                        None => "(no content)",
                    },
                    None => "(no content)",
                };
                Outbound::Send { chat_id, text: text.to_owned() }
            },
            None => Outbound::BadChat,
        },
        None => Outbound::Skip,
    }
}

/// Decides on a line from the bus.
pub fn route_line(line: &str) -> (r: Outbound)
    ensures
        line@.len() == 0 ==> r is Skip,
        line@.len() > 0 ==> match json_parsed(line@) {
            Some(v) => match chat_in(v) {
                Some(Some(id)) => r matches Outbound::Send { chat_id, text } && chat_id == id
                    && text@ == chat_text(v),
                Some(None) => r is BadChat,
                None => r is Skip,
            },
            None => r is Invalid,
        },
{
    match read_line(line) {
        Incoming::Empty => Outbound::Skip,
        Incoming::Invalid => Outbound::Invalid,
        Incoming::Message(v) => route(&v),
    }
}

// ─── To the bus ─────────────────────────────────────────────────────────────

/// Where the answer to a message from the chat goes.
pub open spec fn chat_address(chat_id: i64) -> Seq<char> {
    "telegram:"@ + signed_decimal(chat_id as int)
}

/// Where the answer to a message from the chat goes.
pub fn reply_address(chat_id: i64) -> (r: String)
    ensures
        r@ == chat_address(chat_id),
{
    let id = format_i64(chat_id);
    concat2("telegram:", id.as_str())
}

/// A chat message as a task in the queue.
pub open spec fn inbound_json(id: Seq<char>, task: Seq<char>, reply_to: Seq<char>) -> JsonView {
    object(
        seq![
            ("type"@, JsonView::Str("message"@)),
            ("id"@, JsonView::Str(id)),
            ("source"@, JsonView::Str("telegram-adapter"@)),
            ("target"@, JsonView::Str("queue:tasks"@)),
            (
                "payload"@,
                object(
                    seq![("task"@, JsonView::Str(task)), ("msg_type"@, JsonView::Str("task"@))],
                ),
            ),
            ("reply_to"@, JsonView::Str(reply_to)),
            ("metadata"@, plain_metadata()),
        ],
    )
}

/// The line that puts a chat message in the queue, under the given identifier.
pub fn inbound_line_with_id(id: &str, task: &str, reply_to: &str) -> (r: String)
    ensures
        r@ == line_of(inbound_json(id@, task@, reply_to@)),
        json_parsed(r@.drop_last()) == Some(inbound_json(id@, task@, reply_to@)),
{
    let payload = ObjectBuilder::new().with_text("task", task).with_text("msg_type", "task");
    assert(payload@ =~= seq![("task"@, JsonView::Str(task@)), ("msg_type"@, JsonView::Str("task"@))]);
    proof {
        lemma_wire_names();
        let inner = (JSON_DEPTH - 1) as nat;
        lemma_plain_object(payload@, inner);
        lemma_plain_object(seq![("priority"@, JsonView::Natural(5))], inner);
    }
    let m = ObjectBuilder::new().with_text("type", "message").with_text("id", id).with_text(
        "source",
        ADAPTER_NAME,
    ).with_text("target", "queue:tasks").with("payload", payload.build()).with_text(
        "reply_to",
        reply_to,
    ).with("metadata", ordinary_metadata());
    assert(m@ =~= seq![
        ("type"@, JsonView::Str("message"@)),
        ("id"@, JsonView::Str(id@)),
        ("source"@, JsonView::Str("telegram-adapter"@)),
        ("target"@, JsonView::Str("queue:tasks"@)),
        (
            "payload"@,
            object(seq![("task"@, JsonView::Str(task@)), ("msg_type"@, JsonView::Str("task"@))]),
        ),
        ("reply_to"@, JsonView::Str(reply_to@)),
        ("metadata"@, plain_metadata()),
    ]);
    proof {
        lemma_plain_object(m@, JSON_DEPTH as nat);
    }
    json_line(&m.build())
}

/// The lines that put a chat message in the queue: a registration under a name of its
/// own, and the task.
pub fn inbound_lines(task: &str, reply_to: &str) -> (r: (String, String))
    ensures
        exists|client: Seq<char>| #[trigger]
            is_id(client) && r.0@ == line_of(
                register_json(
                    RegisterView {
                        name: "telegram-inbound-"@ + client,
                        subscriptions: Seq::empty(),
                    },
                ),
            ),
        exists|id: Seq<char>| #[trigger]
            is_id(id) && r.1@ == line_of(inbound_json(id, task@, reply_to@)),
{
    let client = new_id();
    let name = concat2("telegram-inbound-", client.as_str());
    let none: Vec<String> = Vec::new();
    assert(texts(none@) =~= Seq::<Seq<char>>::empty());
    let register = register_line(name.as_str(), none);
    let id = new_id();
    let message = inbound_line_with_id(id.as_str(), task, reply_to);
    assert(is_id(client@) && is_id(id@));
    (register, message)
}

/// The answer to a chat message comes back to its chat: a worker takes the message as a
/// task, and what it answers is routed to the chat with the result as its text.
pub proof fn law_answer_returns_to_chat(
    id: Seq<char>,
    task: Seq<char>,
    chat_id: i64,
    reply_id: Seq<char>,
    agent: Seq<char>,
    result: Seq<char>,
)
    ensures
        ({
            let q = request_in(inbound_json(id, task, chat_address(chat_id)));
            let reply = result_reply(reply_id, agent, q, result);
            &&& q.task == task
            &&& q.msg_id == id
            &&& chat_in(reply) == Some(Some(chat_id))
            &&& chat_text(reply) == result
        }),
{
    lemma_wire_names();
    let inner = seq![("task"@, JsonView::Str(task)), ("msg_type"@, JsonView::Str("task"@))];
    assert(inner[1].0 == "msg_type"@);
    lemma_object_member(inner, 0);
    let members = seq![
        ("type"@, JsonView::Str("message"@)),
        ("id"@, JsonView::Str(id)),
        ("source"@, JsonView::Str("telegram-adapter"@)),
        ("target"@, JsonView::Str("queue:tasks"@)),
        ("payload"@, object(inner)),
        ("reply_to"@, JsonView::Str(chat_address(chat_id))),
        ("metadata"@, plain_metadata()),
    ];
    assert forall|j: int| 1 < j < members.len() implies (#[trigger] members[j]).0.len() != 2 by {}
    lemma_object_member(members, 1);
    lemma_object_member(members, 4);
    assert(members[6].0 == "metadata"@);
    lemma_object_member(members, 5);
    let q = request_in(inbound_json(id, task, chat_address(chat_id)));
    let done = seq![("result"@, JsonView::Str(result)), ("in_reply_to"@, JsonView::Str(q.msg_id))];
    assert(done[1].0 == "in_reply_to"@);
    lemma_object_member(done, 0);
    let reply = seq![
        ("type"@, JsonView::Str("message"@)),
        ("id"@, JsonView::Str(reply_id)),
        ("source"@, JsonView::Str(agent)),
        ("target"@, JsonView::Str(reply_target(q))),
        ("payload"@, object(done)),
        ("metadata"@, metadata_json(Metadata { priority: 0, fresh: false })),
    ];
    assert(reply[4].0 == "payload"@ && reply[5].0 == "metadata"@);
    lemma_object_member(reply, 3);
    lemma_object_member(reply, 4);
    lemma_signed_decimal_parses(chat_id);
    let target = chat_address(chat_id);
    assert(target.take("telegram:"@.len() as int) =~= "telegram:"@);
    assert(target.skip("telegram:"@.len() as int) =~= signed_decimal(chat_id as int));
}

/// A message for a chat goes to the chat that its target names: with its result, or else
/// with its error, or else with a note that there is none.
pub proof fn law_message_goes_to_its_chat(v: &Json, r: Outbound, chat: i64, text: Seq<char>)
    requires
        call_ensures(route, (v,), r),
        member(v@, "target"@) == Some(JsonView::Str("telegram:"@ + signed_decimal(chat as int))),
    ensures
        r matches Outbound::Send { chat_id, .. } && chat_id == chat,
        member2(v@, "payload"@, "result"@) == Some(JsonView::Str(text)) ==> (
        r matches Outbound::Send { text: t, .. } && t@ == text),
        member2(v@, "payload"@, "result"@) is None && member2(v@, "payload"@, "error"@) == Some(
            JsonView::Str(text),
        ) ==> (r matches Outbound::Send { text: t, .. } && t@ == text),
        member2(v@, "payload"@, "result"@) is None && member2(v@, "payload"@, "error"@) is None
            ==> (r matches Outbound::Send { text: t, .. } && t@ == "(no content)"@),
{
    lemma_signed_decimal_parses(chat);
    let target = "telegram:"@ + signed_decimal(chat as int);
    assert(target.take("telegram:"@.len() as int) =~= "telegram:"@);
    assert(target.skip("telegram:"@.len() as int) =~= signed_decimal(chat as int));
}

/// A message whose target does not begin as a chat's does is for no chat.
pub proof fn law_other_targets_are_skipped(v: &Json, r: Outbound, target: Seq<char>)
    requires
        call_ensures(route, (v,), r),
        member(v@, "target"@) == Some(JsonView::Str(target)),
        !"telegram:"@.is_prefix_of(target),
    ensures
        r is Skip,
{
    let p = "telegram:"@;
    if has_prefix(target, p) {
        assert(target.take(p.len() as int) =~= target.subrange(0, p.len() as int));
    }
}

/// A line goes where its message goes. An empty one is passed over, one that is no JSON is
/// invalid.
pub proof fn law_line_goes_where_its_message_goes(line: &str, r: Outbound, chat: i64)
    requires
        call_ensures(route_line, (line,), r),
    ensures
        line@.len() == 0 ==> r is Skip,
        line@.len() > 0 && json_parsed(line@) is None ==> r is Invalid,
        line@.len() > 0 && json_parsed(line@) is Some && member(json_parsed(line@)->0, "target"@)
            == Some(JsonView::Str("telegram:"@ + signed_decimal(chat as int))) ==> (
        r matches Outbound::Send { chat_id, .. } && chat_id == chat),
{
    lemma_signed_decimal_parses(chat);
    let target = "telegram:"@ + signed_decimal(chat as int);
    assert(target.take("telegram:"@.len() as int) =~= "telegram:"@);
    assert(target.skip("telegram:"@.len() as int) =~= signed_decimal(chat as int));
}

/// A chat message becomes a task in the queue, with its own text, to be answered to its
/// reply address.
pub proof fn law_chat_message_is_queued(id: Seq<char>, task: Seq<char>, reply_to: Seq<char>)
    ensures
        member(inbound_json(id, task, reply_to), "id"@) == Some(JsonView::Str(id)),
        member(inbound_json(id, task, reply_to), "target"@) == Some(JsonView::Str("queue:tasks"@)),
        member(inbound_json(id, task, reply_to), "reply_to"@) == Some(JsonView::Str(reply_to)),
        member2(inbound_json(id, task, reply_to), "payload"@, "task"@) == Some(
            JsonView::Str(task),
        ),
{
    lemma_wire_names();
    let inner = seq![("task"@, JsonView::Str(task)), ("msg_type"@, JsonView::Str("task"@))];
    lemma_object_member(inner, 0);
    let members = seq![
        ("type"@, JsonView::Str("message"@)),
        ("id"@, JsonView::Str(id)),
        ("source"@, JsonView::Str("telegram-adapter"@)),
        ("target"@, JsonView::Str("queue:tasks"@)),
        ("payload"@, object(inner)),
        ("reply_to"@, JsonView::Str(reply_to)),
        ("metadata"@, plain_metadata()),
    ];
    assert forall|j: int| 1 < j < members.len() implies (#[trigger] members[j]).0.len() != 2 by {}
    lemma_object_member(members, 1);
    lemma_object_member(members, 3);
    lemma_object_member(members, 4);
    lemma_object_member(members, 5);
}

/// A message for a chat whose number cannot be read goes nowhere, and that is told.
pub proof fn law_unreadable_chat_is_told(v: &Json, r: Outbound, chat: Seq<char>)
    requires
        call_ensures(route, (v,), r),
        member(v@, "target"@) == Some(JsonView::Str("telegram:"@ + chat)),
        parsed_i64(chat) is None,
    ensures
        r is BadChat,
{
    let target = "telegram:"@ + chat;
    assert(target.take("telegram:"@.len() as int) =~= "telegram:"@);
    assert(target.skip("telegram:"@.len() as int) =~= chat);
}

/// The address of a chat is read back as that chat.
pub proof fn law_address_names_the_chat(chat_id: i64, r: String, v: &Json, out: Outbound)
    requires
        call_ensures(reply_address, (chat_id,), r),
        member(v@, "target"@) == Some(JsonView::Str(r@)),
        call_ensures(route, (v,), out),
    ensures
        r@ == "telegram:"@ + signed_decimal(chat_id as int),
        out matches Outbound::Send { chat_id: c, .. } && c == chat_id,
{
    lemma_signed_decimal_parses(chat_id);
    let number = signed_decimal(chat_id as int);
    assert(r@.take("telegram:"@.len() as int) =~= "telegram:"@);
    assert(r@.skip("telegram:"@.len() as int) =~= number);
}

} // verus!

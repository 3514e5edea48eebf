//! Wire and storage formats.
//!
//! The bus speaks JSON, one envelope per line. Tasks and instances are stored as
//! records of their own, which are converted at the boundary.

use crate::domain::message::Envelope;
use crate::domain::message::EnvelopeView;
use crate::domain::message::Message;
use crate::domain::message::MessageView;
use crate::domain::message::Metadata;
use crate::domain::message::Register;
use crate::domain::message::RegisterView;
use crate::domain::statemachine::Instance;
use crate::domain::statemachine::InstanceView;
use crate::domain::statemachine::Transition;
use crate::domain::statemachine::TransitionView;
use crate::domain::task::CriteriaView;
use crate::domain::task::Task;
use crate::domain::task::TaskCriteria;
use crate::domain::task::TaskStatus;
use crate::domain::task::TaskView;
use crate::json::JSON_DEPTH;
use crate::json::Json;
use crate::json::JsonNumber;
use crate::json::JsonView;
use crate::json::ObjectBuilder;
use crate::json::as_text;
use crate::json::json_parsed;
use crate::json::json_rendered;
use crate::json::json_texts;
use crate::json::lemma_models;
use crate::json::lemma_object_member;
use crate::json::lemma_object_missing;
use crate::json::lemma_plain_object;
use crate::json::lemma_plain_texts;
use crate::json::member;
use crate::json::models;
use crate::json::object;
use crate::json::optional_text;
use crate::json::parse_json;
use crate::json::plain;
use crate::json::render_json;
use crate::json::text_array;
use crate::text::concat2;
use crate::text::opt_text;
use crate::text::text_eq;
use crate::text::texts;
use vstd::prelude::*;

verus! {

// ─── Bus ────────────────────────────────────────────────────────────────────

/// A message on the wire.
pub struct BusMessage {
    pub id: String,
    pub source: String,
    pub target: String,
    pub payload: Json,
    pub reply_to: Option<String>,
    pub metadata: BusMetadata,
}

impl View for BusMessage {
    type V = MessageView;

    open spec fn view(&self) -> MessageView {
        MessageView {
            id: self.id@,
            source: self.source@,
            target: self.target@,
            payload: self.payload@,
            reply_to: opt_text(self.reply_to),
            metadata: self.metadata@,
        }
    }
}

/// The metadata of a message on the wire.
#[derive(Debug, Clone, Copy, PartialEq, Eq, Structural)]
pub struct BusMetadata {
    pub priority: u8,
    pub fresh: bool,
}

impl View for BusMetadata {
    type V = Metadata;

    open spec fn view(&self) -> Metadata {
        Metadata { priority: self.priority, fresh: self.fresh }
    }
}

impl Default for BusMetadata {
    fn default() -> (r: Self)
        ensures
            r == (BusMetadata { priority: 0, fresh: false }),
    {
        BusMetadata { priority: 0, fresh: false }
    }
}

/// The priority of a message whose metadata names none.
pub fn default_priority() -> (r: u8)
    ensures
        r == 5,
{
    5
}

/// A registration on the wire.
#[derive(Debug, Clone)]
pub struct BusRegister {
    pub name: String,
    pub subscriptions: Vec<String>,
}

impl View for BusRegister {
    type V = RegisterView;

    open spec fn view(&self) -> RegisterView {
        RegisterView { name: self.name@, subscriptions: texts(self.subscriptions@) }
    }
}

/// Anything on the wire.
pub enum BusEnvelope {
    Register(BusRegister),
    Message(BusMessage),
    List,
}

impl View for BusEnvelope {
    type V = EnvelopeView;

    open spec fn view(&self) -> EnvelopeView {
        match *self {
            BusEnvelope::Register(r) => EnvelopeView::Register(r@),
            BusEnvelope::Message(m) => EnvelopeView::Message(m@),
            BusEnvelope::List => EnvelopeView::List,
        }
    }
}

impl BusMessage {
    /// The message.
    pub fn into_message(self) -> (r: Message)
        ensures
            r@ == self@,
    {
        Message {
            id: self.id,
            source: self.source,
            target: self.target,
            payload: self.payload,
            reply_to: self.reply_to,
            metadata: Metadata { priority: self.metadata.priority, fresh: self.metadata.fresh },
        }
    }

    /// The message as it goes on the wire.
    pub fn from_message(msg: &Message) -> (r: Self)
        ensures
            r@ == msg@,
    {
        BusMessage {
            id: msg.id.clone(),
            source: msg.source.clone(),
            target: msg.target.clone(),
            payload: msg.payload.copied(),
            reply_to: msg.reply_to.clone(),
            metadata: BusMetadata { priority: msg.metadata.priority, fresh: msg.metadata.fresh },
        }
    }
}

/// A message as JSON. It names a reply address only if it has one.
pub open spec fn message_json(m: MessageView) -> JsonView {
    let head = seq![
        ("type"@, JsonView::Str("message"@)),
        ("id"@, JsonView::Str(m.id)),
        ("source"@, JsonView::Str(m.source)),
        ("target"@, JsonView::Str(m.target)),
        ("payload"@, m.payload),
        ("metadata"@, metadata_json(m.metadata)),
    ];
    object(
        match m.reply_to {
            Some(t) => head.push(("reply_to"@, JsonView::Str(t))),
            None => head,
        },
    )
}

pub open spec fn metadata_json(m: Metadata) -> JsonView {
    object(
        seq![
            ("priority"@, JsonView::Natural(m.priority as u64)),
            ("fresh"@, JsonView::Bool(m.fresh)),
        ],
    )
}

pub open spec fn register_json(r: RegisterView) -> JsonView {
    object(
        seq![
            ("type"@, JsonView::Str("register"@)),
            ("name"@, JsonView::Str(r.name)),
            ("subscriptions"@, text_array(r.subscriptions)),
        ],
    )
}

pub open spec fn list_json() -> JsonView {
    object(seq![("type"@, JsonView::Str("list"@))])
}

/// An envelope as JSON.
pub open spec fn envelope_json(e: EnvelopeView) -> JsonView {
    match e {
        EnvelopeView::Register(r) => register_json(r),
        EnvelopeView::Message(m) => message_json(m),
        EnvelopeView::List => list_json(),
    }
}

/// The names on the wire are short, and different where they could be confused.
pub proof fn lemma_wire_names()
    ensures
        "type"@.len() == 4,
        "id"@.len() == 2,
        "source"@.len() == 6,
        "target"@.len() == 6,
        "source"@ != "target"@,
        "payload"@.len() == 7,
        "metadata"@.len() == 8,
        "reply_to"@.len() == 8,
        "metadata"@ != "reply_to"@,
        "name"@.len() == 4,
        "name"@ != "type"@,
        "subscriptions"@.len() == 13,
        "priority"@.len() == 8,
        "fresh"@.len() == 5,
        "register"@.len() == 8,
        "message"@.len() == 7,
        "list"@.len() == 4,
        "task"@.len() == 4,
        "max_turns"@.len() == 9,
        "msg_type"@.len() == 8,
        "result"@.len() == 6,
        "error"@.len() == 5,
        "in_reply_to"@.len() == 11,
{
    reveal_strlit("type");
    reveal_strlit("id");
    reveal_strlit("source");
    reveal_strlit("target");
    reveal_strlit("payload");
    reveal_strlit("metadata");
    reveal_strlit("reply_to");
    reveal_strlit("name");
    reveal_strlit("subscriptions");
    reveal_strlit("priority");
    reveal_strlit("fresh");
    reveal_strlit("register");
    reveal_strlit("message");
    reveal_strlit("list");
    reveal_strlit("task");
    reveal_strlit("max_turns");
    reveal_strlit("msg_type");
    reveal_strlit("result");
    reveal_strlit("error");
    reveal_strlit("in_reply_to");
    assert("source"@[0] == 's');
    assert("target"@[0] == 't');
    assert("name"@[0] == 'n');
    assert("type"@[0] == 't');
    assert("metadata"@[0] == 'm');
    assert("reply_to"@[0] == 'r');
}

/// A value as one line of the wire.
pub open spec fn line_of(v: JsonView) -> Seq<char> {
    json_rendered(v) + "\n"@
}

/// Writes a value as one line of the wire. What stands before the line end reads back
/// as the value, where that is plain.
pub fn json_line(v: &Json) -> (r: String)
    ensures
        r@ == line_of(v@),
        plain(v@, JSON_DEPTH as nat) ==> json_parsed(r@.drop_last()) == Some(v@),
{
    let text = render_json(v);
    let r = concat2(text.as_str(), "\n");
    proof {
        reveal_strlit("\n");
        assert(r@.drop_last() =~= text@);
    }
    r
}

fn metadata_to_json(m: &BusMetadata) -> (r: Json)
    ensures
        r@ == metadata_json(m@),
{
    let b = ObjectBuilder::new().with(
        "priority",
        Json::Number(JsonNumber::Natural(m.priority as u64)),
    ).with("fresh", Json::Bool(m.fresh));
    assert(b@ =~= seq![
        ("priority"@, JsonView::Natural(m.priority as u64)),
        ("fresh"@, JsonView::Bool(m.fresh)),
    ]);
    b.build()
}

impl BusEnvelope {
    /// The envelope without its wire format.
    pub fn into_envelope(self) -> (r: Envelope)
        ensures
            r@ == self@,
    {
        match self {
            BusEnvelope::Register(r) => Envelope::Register(
                Register { name: r.name, subscriptions: r.subscriptions },
            ),
            BusEnvelope::Message(m) => Envelope::Message(m.into_message()),
            BusEnvelope::List => Envelope::List,
        }
    }

    /// The envelope as JSON.
    pub fn to_json(&self) -> (r: Json)
        ensures
            r@ == envelope_json(self@),
    {
        match self {
            BusEnvelope::Register(r) => {
                let b = ObjectBuilder::new().with_text("type", "register").with_text(
                    "name",
                    r.name.as_str(),
                ).with("subscriptions", json_texts(&r.subscriptions));
                assert(b@ =~= seq![
                    ("type"@, JsonView::Str("register"@)),
                    ("name"@, JsonView::Str(r.name@)),
                    ("subscriptions"@, text_array(texts(r.subscriptions@))),
                ]);
                b.build()
            },
            BusEnvelope::Message(m) => {
                let head = ObjectBuilder::new().with_text("type", "message").with_text(
                    "id",
                    m.id.as_str(),
                ).with_text("source", m.source.as_str()).with_text(
                    "target",
                    m.target.as_str(),
                ).with("payload", m.payload.copied()).with(
                    "metadata",
                    metadata_to_json(&m.metadata),
                );
                assert(head@ =~= seq![
                    ("type"@, JsonView::Str("message"@)),
                    ("id"@, JsonView::Str(m.id@)),
                    ("source"@, JsonView::Str(m.source@)),
                    ("target"@, JsonView::Str(m.target@)),
                    ("payload"@, m.payload@),
                    ("metadata"@, metadata_json(m.metadata@)),
                ]);
                match &m.reply_to {
                    Some(t) => head.with_text("reply_to", t.as_str()).build(),
                    None => head.build(),
                }
            },
            BusEnvelope::List => {
                let b = ObjectBuilder::new().with_text("type", "list");
                assert(b@ =~= seq![("type"@, JsonView::Str("list"@))]);
                b.build()
            },
        }
    }

    /// The envelope as one line of the wire. Where the payload is plain, `from_line`
    /// reads it back.
    pub fn to_line(&self) -> (r: String)
        ensures
            r@ == line_of(envelope_json(self@)),
            plain_payload(self@) ==> json_parsed(r@.drop_last()) == Some(envelope_json(self@)),
    {
        proof {
            lemma_envelope_plain(self@);
        }
        json_line(&self.to_json())
    }
}

/// Whether the payload of the envelope, if it has one, is plain.
pub open spec fn plain_payload(e: EnvelopeView) -> bool {
    e matches EnvelopeView::Message(m) ==> plain(m.payload, (JSON_DEPTH - 1) as nat)
}

proof fn lemma_envelope_plain(e: EnvelopeView)
    ensures
        plain_payload(e) ==> plain(envelope_json(e), JSON_DEPTH as nat),
{
    lemma_wire_names();
    let depth = JSON_DEPTH as nat;
    match e {
        EnvelopeView::Message(m) => {
            if plain(m.payload, (JSON_DEPTH - 1) as nat) {
                let meta = seq![
                    ("priority"@, JsonView::Natural(m.metadata.priority as u64)),
                    ("fresh"@, JsonView::Bool(m.metadata.fresh)),
                ];
                lemma_plain_object(meta, (depth - 1) as nat);
                let head = seq![
                    ("type"@, JsonView::Str("message"@)),
                    ("id"@, JsonView::Str(m.id)),
                    ("source"@, JsonView::Str(m.source)),
                    ("target"@, JsonView::Str(m.target)),
                    ("payload"@, m.payload),
                    ("metadata"@, metadata_json(m.metadata)),
                ];
                match m.reply_to {
                    Some(t) => {
                        lemma_plain_object(head.push(("reply_to"@, JsonView::Str(t))), depth);
                    },
                    None => {
                        lemma_plain_object(head, depth);
                    },
                }
            }
        },
        EnvelopeView::Register(r) => {
            let members = seq![
                ("type"@, JsonView::Str("register"@)),
                ("name"@, JsonView::Str(r.name)),
                ("subscriptions"@, text_array(r.subscriptions)),
            ];
            lemma_plain_texts(r.subscriptions, (depth - 1) as nat);
            lemma_plain_object(members, depth);
        },
        EnvelopeView::List => {
            lemma_plain_object(seq![("type"@, JsonView::Str("list"@))], depth);
        },
    }
}

// ─── Reading the wire ───────────────────────────────────────────────────────

/// The texts of a JSON array that holds only texts.
pub open spec fn text_items(v: JsonView) -> Option<Seq<Seq<char>>> {
    match v {
        JsonView::Array(items) => if forall|i: int|
            0 <= i < items.len() ==> (#[trigger] items[i]) is Str {
            Some(Seq::new(items.len(), |i: int| items[i]->Str_0))
        } else {
            None
        },
        _ => None,
    }
}

/// The registration in a JSON object; its fields in an array are none. Without subscriptions there are none.
pub open spec fn register_in(v: JsonView) -> Option<RegisterView> {
    let subscriptions = match member(v, "subscriptions"@) {
        Some(s) => text_items(s),
        None => Some(Seq::empty()),
    };
    match (as_text(member(v, "name"@)), subscriptions) {
        (Some(name), Some(subscriptions)) => Some(RegisterView { name, subscriptions }),
        _ => None,
    }
}

/// The metadata in a JSON object; its fields in an array are none. What is missing has its default.
pub open spec fn metadata_in(v: JsonView) -> Option<Metadata> {
    let priority = match member(v, "priority"@) {
        Some(JsonView::Natural(n)) => if n <= 255 {
            Some(n as u8)
        } else {
            None
        },
        Some(_) => None,
        None => Some(5),
    };
    let fresh = match member(v, "fresh"@) {
        Some(JsonView::Bool(b)) => Some(b),
        Some(_) => None,
        None => Some(false),
    };
    match (v, priority, fresh) {
        (JsonView::Object(_), Some(priority), Some(fresh)) => Some(Metadata { priority, fresh }),
        _ => None,
    }
}

/// The message in a JSON object. Its fields in an array are no message.
pub open spec fn message_in(v: JsonView) -> Option<MessageView> {
    let metadata = match member(v, "metadata"@) {
        Some(m) => metadata_in(m),
        None => Some(Metadata { priority: 0, fresh: false }),
    };
    match (
        as_text(member(v, "id"@)),
        as_text(member(v, "source"@)),
        as_text(member(v, "target"@)),
        member(v, "payload"@),
        optional_text(member(v, "reply_to"@)),
        metadata,
    ) {
        (
            Some(id),
            Some(source),
            Some(target),
            Some(payload),
            Some(reply_to),
            Some(metadata),
        ) => Some(MessageView { id, source, target, payload, reply_to, metadata }),
        _ => None,
    }
}

/// The envelope in a JSON object. Its fields in an array are no envelope.
pub open spec fn envelope_in(v: JsonView) -> Option<EnvelopeView> {
    match as_text(member(v, "type"@)) {
        Some(t) => if t == "register"@ {
            match register_in(v) {
                Some(r) => Some(EnvelopeView::Register(r)),
                None => None,
            }
        } else if t == "message"@ {
            match message_in(v) {
                Some(m) => Some(EnvelopeView::Message(m)),
                None => None,
            }
        } else if t == "list"@ {
            Some(EnvelopeView::List)
        } else {
            None
        },
        None => None,
    }
}

fn texts_from_json(v: &Json) -> (r: Option<Vec<String>>)
    ensures
        match r {
            Some(t) => text_items(v@) == Some(texts(t@)),
            None => text_items(v@) is None,
        },
{
    match v {
        Json::Array(items) => {
            proof {
                lemma_models(items@);
            }
            let mut out: Vec<String> = Vec::new();
            let mut i: usize = 0;
            while i < items.len()
                invariant
                    i <= items@.len(),
                    out@.len() == i,
                    models(items@).len() == items@.len(),
                    forall|k: int| 0 <= k < items@.len() ==> models(items@)[k] == (#[trigger] items@[k])@,
                    forall|k: int|
                        0 <= k < i ==> (#[trigger] items@[k])@ == JsonView::Str(out@[k]@),
                    v@ == JsonView::Array(models(items@)),
                decreases items@.len() - i,
            {
                match items[i].as_str() {
                    Some(t) => out.push(t.to_owned()),
                    None => {
                        assert(!(models(items@)[i as int] is Str));
                        return None;
                    },
                }
                i += 1;
            }
            proof {
                let m = models(items@);
                assert forall|k: int| 0 <= k < m.len() implies (#[trigger] m[k]) is Str by {
                    assert(items@[k]@ == JsonView::Str(out@[k]@));
                }
                assert(Seq::new(m.len(), |k: int| m[k]->Str_0) =~= texts(out@)) by {
                    assert forall|k: int| 0 <= k < m.len() implies m[k]->Str_0 == texts(
                        out@,
                    )[k] by {
                        assert(items@[k]@ == JsonView::Str(out@[k]@));
                    }
                }
            }
            Some(out)
        },
        _ => None,
    }
}

fn register_from_json(v: &Json) -> (r: Option<BusRegister>)
    ensures
        match r {
            Some(b) => register_in(v@) == Some(b@),
            None => register_in(v@) is None,
        },
{
    let subscriptions: Option<Vec<String>> = match v.get("subscriptions") {
        Some(s) => texts_from_json(s),
        None => {
            let none: Vec<String> = Vec::new();
            assert(texts(none@) =~= Seq::<Seq<char>>::empty());
            Some(none)
        },
    };
    match (v.str_member("name"), subscriptions) {
        (Some(name), Some(subscriptions)) => Some(
            BusRegister { name: name.to_owned(), subscriptions },
        ),
        _ => None,
    }
}

fn metadata_from_json(v: &Json) -> (r: Option<BusMetadata>)
    ensures
        match r {
            Some(m) => metadata_in(v@) == Some(m@),
            None => metadata_in(v@) is None,
        },
{
    let is_object = match v {
        Json::Object(_) => true,
        _ => false,
    };
    let priority: Option<u8> = match v.get("priority") {
        Some(Json::Number(JsonNumber::Natural(n))) => if *n <= 255 {
            Some(*n as u8)
        } else {
            None
        },
        Some(_) => None,
        None => Some(default_priority()),
    };
    let fresh: Option<bool> = match v.get("fresh") {
        Some(Json::Bool(b)) => Some(*b),
        Some(_) => None,
        None => Some(false),
    };
    match (is_object, priority, fresh) {
        (true, Some(priority), Some(fresh)) => Some(BusMetadata { priority, fresh }),
        _ => None,
    }
}

fn message_from_json(v: &Json) -> (r: Option<BusMessage>)
    ensures
        match r {
            Some(m) => message_in(v@) == Some(m@),
            None => message_in(v@) is None,
        },
{
    let metadata: Option<BusMetadata> = match v.get("metadata") {
        Some(m) => metadata_from_json(m),
        None => Some(BusMetadata::default()),
    };
    let reply_to = v.optional_str_member("reply_to");
    match (
        v.str_member("id"),
        v.str_member("source"),
        v.str_member("target"),
        v.get("payload"),
        reply_to,
        metadata,
    ) {
        (
            Some(id),
            Some(source),
            Some(target),
            Some(payload),
            Some(reply_to),
            Some(metadata),
        ) => Some(
            BusMessage {
                id: id.to_owned(),
                source: source.to_owned(),
                target: target.to_owned(),
                payload: payload.copied(),
                reply_to,
                metadata,
            },
        ),
        _ => None,
    }
}

impl BusEnvelope {
    /// Reads an envelope from JSON.
    pub fn from_json(v: &Json) -> (r: Option<Self>)
        ensures
            match r {
                Some(e) => envelope_in(v@) == Some(e@),
                None => envelope_in(v@) is None,
            },
    {
        match v.str_member("type") {
            Some(t) => if text_eq(t, "register") {
                match register_from_json(v) {
                    Some(r) => Some(BusEnvelope::Register(r)),
                    None => None,
                }
            } else if text_eq(t, "message") {
                match message_from_json(v) {
                    Some(m) => Some(BusEnvelope::Message(m)),
                    None => None,
                }
            } else if text_eq(t, "list") {
                Some(BusEnvelope::List)
            } else {
                None
            },
            None => None,
        }
    }

    /// Reads an envelope from a line of the wire, without its line end.
    pub fn from_line(line: &str) -> (r: Option<Self>)
        ensures
            match json_parsed(line@) {
                Some(v) => match r {
                    Some(e) => envelope_in(v) == Some(e@),
                    None => envelope_in(v) is None,
                },
                None => r is None,
            },
    {
        match parse_json(line) {
            Some(v) => Self::from_json(&v),
            None => None,
        }
    }
}

/// What was written on the wire is read back: the JSON of an envelope holds that
/// envelope.
pub proof fn law_envelope_comes_back(e: EnvelopeView)
    ensures
        envelope_in(envelope_json(e)) == Some(e),
{
    lemma_wire_names();
    match e {
        EnvelopeView::Message(m) => {
            let meta = seq![
                ("priority"@, JsonView::Natural(m.metadata.priority as u64)),
                ("fresh"@, JsonView::Bool(m.metadata.fresh)),
            ];
            lemma_object_member(meta, 0);
            lemma_object_member(meta, 1);
            assert(metadata_in(metadata_json(m.metadata)) == Some(m.metadata));
            let head = seq![
                ("type"@, JsonView::Str("message"@)),
                ("id"@, JsonView::Str(m.id)),
                ("source"@, JsonView::Str(m.source)),
                ("target"@, JsonView::Str(m.target)),
                ("payload"@, m.payload),
                ("metadata"@, metadata_json(m.metadata)),
            ];
            let members = match m.reply_to {
                Some(t) => head.push(("reply_to"@, JsonView::Str(t))),
                None => head,
            };
            assert(members[0].0 == "type"@ && members[1].0 == "id"@ && members[2].0 == "source"@
                && members[3].0 == "target"@ && members[4].0 == "payload"@ && members[5].0
                == "metadata"@);
            assert forall|j: int| 0 < j < members.len() implies (#[trigger] members[j]).0.len()
                != 4 by {}
            lemma_object_member(members, 0);
            assert forall|j: int| 1 < j < members.len() implies (#[trigger] members[j]).0.len()
                != 2 by {}
            lemma_object_member(members, 1);
            lemma_object_member(members, 2);
            lemma_object_member(members, 3);
            lemma_object_member(members, 4);
            lemma_object_member(members, 5);
            if m.reply_to is Some {
                lemma_object_member(members, 6);
            } else {
                lemma_object_missing(members, "reply_to"@);
            }
        },
        EnvelopeView::Register(r) => {
            let members = seq![
                ("type"@, JsonView::Str("register"@)),
                ("name"@, JsonView::Str(r.name)),
                ("subscriptions"@, text_array(r.subscriptions)),
            ];
            lemma_object_member(members, 0);
            lemma_object_member(members, 1);
            lemma_object_member(members, 2);
            let items = text_array(r.subscriptions)->Array_0;
            assert(Seq::new(items.len(), |i: int| items[i]->Str_0) =~= r.subscriptions);
        },
        EnvelopeView::List => {
            lemma_object_member(seq![("type"@, JsonView::Str("list"@))], 0);
        },
    }
}

// ─── Tasks ──────────────────────────────────────────────────────────────────

/// A task as it is stored.
#[derive(Debug, Clone)]
pub struct StoredTask {
    pub id: String,
    pub description: String,
    pub status: String,
    pub assignee: Option<String>,
    pub result: Option<String>,
    pub error: Option<String>,
    pub created_by: String,
    pub created_at: String,
    pub updated_at: String,
    pub criteria: StoredTaskCriteria,
    pub sm_instance_id: Option<String>,
}

/// The criteria of a task as they are stored.
#[derive(Debug, Clone)]
pub struct StoredTaskCriteria {
    pub model: Option<String>,
    pub labels: Vec<String>,
}

impl View for StoredTaskCriteria {
    type V = CriteriaView;

    open spec fn view(&self) -> CriteriaView {
        CriteriaView { model: opt_text(self.model), labels: texts(self.labels@) }
    }
}

impl Default for StoredTaskCriteria {
    fn default() -> (r: Self)
        ensures
            r@ == (CriteriaView { model: None, labels: Seq::empty() }),
    {
        StoredTaskCriteria { model: None, labels: Vec::new() }
    }
}

/// The name of a status.
pub open spec fn status_name(s: TaskStatus) -> Seq<char> {
    match s {
        TaskStatus::Pending => "pending"@,
        TaskStatus::Active => "active"@,
        TaskStatus::Done => "done"@,
        TaskStatus::Failed => "failed"@,
        TaskStatus::Cancelled => "cancelled"@,
    }
}

/// The status of a name; an unknown name counts as pending.
pub open spec fn status_of(name: Seq<char>) -> TaskStatus {
    if name == "active"@ {
        TaskStatus::Active
    } else if name == "done"@ {
        TaskStatus::Done
    } else if name == "failed"@ {
        TaskStatus::Failed
    } else if name == "cancelled"@ {
        TaskStatus::Cancelled
    } else {
        TaskStatus::Pending
    }
}

fn parse_status(name: &str) -> (r: TaskStatus)
    ensures
        r == status_of(name@),
{
    if text_eq(name, "active") {
        TaskStatus::Active
    } else if text_eq(name, "done") {
        TaskStatus::Done
    } else if text_eq(name, "failed") {
        TaskStatus::Failed
    } else if text_eq(name, "cancelled") {
        TaskStatus::Cancelled
    } else {
        TaskStatus::Pending
    }
}

fn format_status(s: TaskStatus) -> (r: &'static str)
    ensures
        r@ == status_name(s),
{
    match s {
        TaskStatus::Pending => "pending",
        TaskStatus::Active => "active",
        TaskStatus::Done => "done",
        TaskStatus::Failed => "failed",
        TaskStatus::Cancelled => "cancelled",
    }
}

#[verifier::ext_equal]
pub ghost struct StoredTaskView {
    pub id: Seq<char>,
    pub description: Seq<char>,
    pub status: Seq<char>,
    pub assignee: Option<Seq<char>>,
    pub result: Option<Seq<char>>,
    pub error: Option<Seq<char>>,
    pub created_by: Seq<char>,
    pub created_at: Seq<char>,
    pub updated_at: Seq<char>,
    pub criteria: CriteriaView,
    pub sm_instance_id: Option<Seq<char>>,
}

impl View for StoredTask {
    type V = StoredTaskView;

    open spec fn view(&self) -> StoredTaskView {
        StoredTaskView {
            id: self.id@,
            description: self.description@,
            status: self.status@,
            assignee: opt_text(self.assignee),
            result: opt_text(self.result),
            error: opt_text(self.error),
            created_by: self.created_by@,
            created_at: self.created_at@,
            updated_at: self.updated_at@,
            criteria: self.criteria@,
            sm_instance_id: opt_text(self.sm_instance_id),
        }
    }
}

/// A task as it is stored.
pub open spec fn stored_task(t: TaskView) -> StoredTaskView {
    StoredTaskView {
        id: t.id,
        description: t.description,
        status: status_name(t.status),
        assignee: t.assignee,
        result: t.result,
        error: t.error,
        created_by: t.created_by,
        created_at: t.created_at,
        updated_at: t.updated_at,
        criteria: t.criteria,
        sm_instance_id: t.sm_instance_id,
    }
}

/// The task of what is stored.
pub open spec fn restored_task(t: StoredTaskView) -> TaskView {
    TaskView {
        id: t.id,
        description: t.description,
        status: status_of(t.status),
        assignee: t.assignee,
        result: t.result,
        error: t.error,
        created_by: t.created_by,
        created_at: t.created_at,
        updated_at: t.updated_at,
        criteria: t.criteria,
        sm_instance_id: t.sm_instance_id,
    }
}

/// Copies texts.
fn copied_texts(v: &Vec<String>) -> (r: Vec<String>)
    ensures
        texts(r@) == texts(v@),
{
    let mut out: Vec<String> = Vec::new();
    let mut i: usize = 0;
    while i < v.len()
        invariant
            i <= v@.len(),
            out@.len() == i,
            forall|k: int| 0 <= k < i ==> (#[trigger] out@[k])@ == v@[k]@,
        decreases v@.len() - i,
    {
        out.push(v[i].clone());
        i += 1;
    }
    assert(texts(out@) =~= texts(v@));
    out
}

impl StoredTask {
    /// The task.
    pub fn into_task(self) -> (r: Task)
        ensures
            r@ == restored_task(self@),
    {
        Task {
            id: self.id,
            description: self.description,
            status: parse_status(self.status.as_str()),
            assignee: self.assignee,
            result: self.result,
            error: self.error,
            created_by: self.created_by,
            created_at: self.created_at,
            updated_at: self.updated_at,
            criteria: TaskCriteria { model: self.criteria.model, labels: self.criteria.labels },
            sm_instance_id: self.sm_instance_id,
        }
    }

    /// The task as it is stored.
    pub fn from_task(task: &Task) -> (r: Self)
        ensures
            r@ == stored_task(task@),
    {
        StoredTask {
            id: task.id.clone(),
            description: task.description.clone(),
            status: format_status(task.status).to_owned(),
            assignee: task.assignee.clone(),
            result: task.result.clone(),
            error: task.error.clone(),
            created_by: task.created_by.clone(),
            created_at: task.created_at.clone(),
            updated_at: task.updated_at.clone(),
            criteria: StoredTaskCriteria {
                model: task.criteria.model.clone(),
                labels: copied_texts(&task.criteria.labels),
            },
            sm_instance_id: task.sm_instance_id.clone(),
        }
    }
}

/// A stored task is restored as it was.
pub proof fn law_task_comes_back(t: TaskView)
    ensures
        restored_task(stored_task(t)) == t,
{
    reveal_strlit("pending");
    reveal_strlit("active");
    reveal_strlit("done");
    reveal_strlit("failed");
    reveal_strlit("cancelled");
    assert("pending"@[0] == 'p');
    assert("active"@[0] == 'a');
    assert("done"@[0] == 'd');
    assert("failed"@[0] == 'f');
    assert("cancelled"@[0] == 'c');
}

// ─── Instances ──────────────────────────────────────────────────────────────

/// An instance as it is stored.
pub struct StoredInstance {
    pub id: String,
    pub model: String,
    pub title: String,
    pub body: String,
    pub state: String,
    pub assignee: String,
    pub result: Option<String>,
    pub error: Option<String>,
    pub created_by: String,
    pub created_at: String,
    pub updated_at: String,
    pub history: Vec<StoredTransition>,
    pub metadata: Json,
}

/// A transition as it is stored.
#[derive(Debug, Clone)]
pub struct StoredTransition {
    pub from: String,
    pub to: String,
    pub trigger: String,
    pub timestamp: String,
    pub note: Option<String>,
}

/// A stored transition has no cost, turns or task.
impl View for StoredTransition {
    type V = TransitionView;

    open spec fn view(&self) -> TransitionView {
        TransitionView {
            from: self.from@,
            to: self.to@,
            trigger: self.trigger@,
            timestamp: self.timestamp@,
            note: opt_text(self.note),
            cost_nanos: None,
            turns: None,
            task_id: None,
        }
    }
}

/// A stored instance has no totals and no tasks.
impl View for StoredInstance {
    type V = InstanceView;

    open spec fn view(&self) -> InstanceView {
        InstanceView {
            id: self.id@,
            model: self.model@,
            title: self.title@,
            body: self.body@,
            state: self.state@,
            assignee: self.assignee@,
            result: opt_text(self.result),
            error: opt_text(self.error),
            created_by: self.created_by@,
            created_at: self.created_at@,
            updated_at: self.updated_at@,
            history: Seq::new(self.history@.len(), |i: int| self.history@[i]@),
            metadata: self.metadata@,
            total_cost_nanos: 0,
            total_turns: 0,
            task_ids: Seq::empty(),
        }
    }
}

/// What is stored of a transition.
pub open spec fn kept_transition(t: TransitionView) -> TransitionView {
    TransitionView { cost_nanos: None, turns: None, task_id: None, ..t }
}

/// What is stored of an instance.
pub open spec fn kept_instance(i: InstanceView) -> InstanceView {
    InstanceView {
        history: Seq::new(i.history.len(), |k: int| kept_transition(i.history[k])),
        total_cost_nanos: 0,
        total_turns: 0,
        task_ids: Seq::empty(),
        ..i
    }
}

impl StoredTransition {
    /// The transition.
    pub fn into_transition(self) -> (r: Transition)
        ensures
            r@ == self@,
    {
        Transition {
            from: self.from,
            to: self.to,
            trigger: self.trigger,
            timestamp: self.timestamp,
            note: self.note,
            cost_nanos: None,
            turns: None,
            task_id: None,
        }
    }

    /// The transition as it is stored.
    pub fn from_transition(t: &Transition) -> (r: Self)
        ensures
            r@ == kept_transition(t@),
    {
        StoredTransition {
            from: t.from.clone(),
            to: t.to.clone(),
            trigger: t.trigger.clone(),
            timestamp: t.timestamp.clone(),
            note: t.note.clone(),
        }
    }

    fn copied(&self) -> (r: Self)
        ensures
            r@ == self@,
    {
        StoredTransition {
            from: self.from.clone(),
            to: self.to.clone(),
            trigger: self.trigger.clone(),
            timestamp: self.timestamp.clone(),
            note: self.note.clone(),
        }
    }
}

impl StoredInstance {
    /// The instance.
    pub fn into_instance(self) -> (r: Instance)
        ensures
            r@ == self@,
    {
        let mut history: Vec<Transition> = Vec::new();
        let mut i: usize = 0;
        while i < self.history.len()
            invariant
                i <= self.history@.len(),
                history@.len() == i,
                forall|k: int| 0 <= k < i ==> (#[trigger] history@[k])@ == self.history@[k]@,
            decreases self.history@.len() - i,
        {
            history.push(self.history[i].copied().into_transition());
            i += 1;
        }
        let r = Instance {
            id: self.id,
            model: self.model,
            title: self.title,
            body: self.body,
            state: self.state,
            assignee: self.assignee,
            result: self.result,
            error: self.error,
            created_by: self.created_by,
            created_at: self.created_at,
            updated_at: self.updated_at,
            history,
            metadata: self.metadata,
            total_cost_nanos: 0,
            total_turns: 0,
            task_ids: Vec::new(),
        };
        assert(r@ =~= self@);
        r
    }

    /// The instance as it is stored.
    pub fn from_instance(inst: &Instance) -> (r: Self)
        ensures
            r@ == kept_instance(inst@),
    {
        let mut history: Vec<StoredTransition> = Vec::new();
        let mut i: usize = 0;
        while i < inst.history.len()
            invariant
                i <= inst.history@.len(),
                history@.len() == i,
                forall|k: int|
                    0 <= k < i ==> (#[trigger] history@[k])@ == kept_transition(inst.history@[k]@),
            decreases inst.history@.len() - i,
        {
            history.push(StoredTransition::from_transition(&inst.history[i]));
            i += 1;
        }
        let r = StoredInstance {
            id: inst.id.clone(),
            model: inst.model.clone(),
            title: inst.title.clone(),
            body: inst.body.clone(),
            state: inst.state.clone(),
            assignee: inst.assignee.clone(),
            result: inst.result.clone(),
            error: inst.error.clone(),
            created_by: inst.created_by.clone(),
            created_at: inst.created_at.clone(),
            updated_at: inst.updated_at.clone(),
            history,
            metadata: inst.metadata.copied(),
        };
        assert(r@ =~= kept_instance(inst@));
        r
    }
}

/// Storing an instance a second time loses nothing more.
pub proof fn law_kept_once(i: InstanceView)
    ensures
        kept_instance(kept_instance(i)) == kept_instance(i),
{
    assert(kept_instance(kept_instance(i)) =~= kept_instance(i));
}

// ─── Laws of the formats ────────────────────────────────────────────────────

/// A message goes on the wire with each of its parts under the name of that part, and with
/// a reply address only if it has one.
pub proof fn law_message_on_the_wire(m: BusMessage, r: Json)
    requires
        call_ensures(BusEnvelope::to_json, (&BusEnvelope::Message(m),), r),
    ensures
        member(r@, "type"@) == Some(JsonView::Str("message"@)),
        member(r@, "id"@) == Some(JsonView::Str(m.id@)),
        member(r@, "source"@) == Some(JsonView::Str(m.source@)),
        member(r@, "target"@) == Some(JsonView::Str(m.target@)),
        member(r@, "payload"@) == Some(m.payload@),
        m.reply_to matches Some(t) ==> member(r@, "reply_to"@) == Some(JsonView::Str(t@)),
        m.reply_to is None ==> member(r@, "reply_to"@) is None,
        member(r@, "metadata"@) matches Some(d) && member(d, "priority"@) == Some(
            JsonView::Natural(m.metadata.priority as u64),
        ) && member(d, "fresh"@) == Some(JsonView::Bool(m.metadata.fresh)),
{
    lemma_wire_names();
    let meta = seq![
        ("priority"@, JsonView::Natural(m.metadata.priority as u64)),
        ("fresh"@, JsonView::Bool(m.metadata.fresh)),
    ];
    lemma_object_member(meta, 0);
    lemma_object_member(meta, 1);
    let head = seq![
        ("type"@, JsonView::Str("message"@)),
        ("id"@, JsonView::Str(m.id@)),
        ("source"@, JsonView::Str(m.source@)),
        ("target"@, JsonView::Str(m.target@)),
        ("payload"@, m.payload@),
        ("metadata"@, metadata_json(m.metadata@)),
    ];
    let members = match m.reply_to {
        Some(t) => head.push(("reply_to"@, JsonView::Str(t@))),
        None => head,
    };
    assert(BusEnvelope::Message(m)@ == EnvelopeView::Message(m@));
    assert(r@ == object(members));
    assert(members[0].0 == "type"@ && members[1].0 == "id"@ && members[2].0 == "source"@
        && members[3].0 == "target"@ && members[4].0 == "payload"@ && members[5].0 == "metadata"@);
    assert forall|j: int| 0 < j < members.len() implies (#[trigger] members[j]).0.len() != 4 by {}
    lemma_object_member(members, 0);
    assert forall|j: int| 1 < j < members.len() implies (#[trigger] members[j]).0.len() != 2 by {}
    lemma_object_member(members, 1);
    lemma_object_member(members, 2);
    lemma_object_member(members, 3);
    lemma_object_member(members, 4);
    lemma_object_member(members, 5);
    if m.reply_to is Some {
        lemma_object_member(members, 6);
    } else {
        lemma_object_missing(members, "reply_to"@);
    }
}

/// A registration goes on the wire with its name and its subscriptions, in order.
pub proof fn law_register_on_the_wire(b: BusRegister, r: Json)
    requires
        call_ensures(BusEnvelope::to_json, (&BusEnvelope::Register(b),), r),
    ensures
        member(r@, "type"@) == Some(JsonView::Str("register"@)),
        member(r@, "name"@) == Some(JsonView::Str(b.name@)),
        member(r@, "subscriptions"@) matches Some(JsonView::Array(items)) && items.len()
            == b.subscriptions@.len() && forall|i: int|
            0 <= i < items.len() ==> #[trigger] items[i] == JsonView::Str(b.subscriptions@[i]@),
{
    lemma_wire_names();
    let members = seq![
        ("type"@, JsonView::Str("register"@)),
        ("name"@, JsonView::Str(b.name@)),
        ("subscriptions"@, text_array(texts(b.subscriptions@))),
    ];
    assert(BusEnvelope::Register(b)@ == EnvelopeView::Register(b@));
    assert(r@ == object(members));
    lemma_object_member(members, 0);
    lemma_object_member(members, 1);
    lemma_object_member(members, 2);
}

/// A message is read from the names of its parts. Without metadata its priority is 0, with
/// metadata that name none it is 5, and a priority that is no byte is refused.
pub proof fn law_message_is_read_by_name(v: &Json, r: Option<BusEnvelope>)
    requires
        call_ensures(BusEnvelope::from_json, (v,), r),
        member(v@, "type"@) == Some(JsonView::Str("message"@)),
    ensures
        r matches Some(e) ==> (e matches BusEnvelope::Message(m) && member(v@, "id"@) == Some(
            JsonView::Str(m.id@),
        ) && member(v@, "source"@) == Some(JsonView::Str(m.source@)) && member(v@, "target"@)
            == Some(JsonView::Str(m.target@)) && member(v@, "payload"@) == Some(m.payload@)),
        r matches Some(BusEnvelope::Message(m)) ==> match member(v@, "reply_to"@) {
            Some(JsonView::Str(t)) => m.reply_to matches Some(s) && s@ == t,
            _ => m.reply_to is None,
        },
        r matches Some(BusEnvelope::Message(m)) ==> match member(v@, "metadata"@) {
            None => m.metadata.priority == 0 && !m.metadata.fresh,
            Some(d) => (match member(d, "priority"@) {
                Some(p) => p == JsonView::Natural(m.metadata.priority as u64),
                None => m.metadata.priority == 5,
            }) && (match member(d, "fresh"@) {
                Some(f) => f == JsonView::Bool(m.metadata.fresh),
                None => !m.metadata.fresh,
            }),
        },
        member(v@, "metadata"@) matches Some(d) && member(d, "priority"@) matches Some(
            JsonView::Natural(n),
        ) && n > 255 ==> r is None,
        member(v@, "payload"@) is None ==> r is None,
        !(member(v@, "target"@) matches Some(JsonView::Str(_))) ==> r is None,
        member(v@, "id"@) is Some && member(v@, "id"@)->0 is Str && member(v@, "source"@) is Some
            && member(v@, "source"@)->0 is Str && member(v@, "target"@) is Some && member(
            v@,
            "target"@,
        )->0 is Str && member(v@, "payload"@) is Some && member(v@, "reply_to"@) is None && member(
            v@,
            "metadata"@,
        ) is None ==> r is Some,
{
    lemma_wire_names();
    reveal_strlit("message");
    reveal_strlit("register");
    assert("message"@ != "register"@);
    if let Some(e) = r {
        assert(envelope_in(v@) == Some(e@));
        assert(e is Message);
        let m = e->Message_0;
        assert(message_in(v@) == Some(m@));
    }
}

/// What a registration says is its name and its subscriptions; without any, there are none.
pub proof fn law_register_is_read_by_name(v: &Json, r: Option<BusEnvelope>)
    requires
        call_ensures(BusEnvelope::from_json, (v,), r),
        member(v@, "type"@) == Some(JsonView::Str("register"@)),
        member(v@, "name"@) is Some && member(v@, "name"@)->0 is Str,
    ensures
        r matches Some(e) ==> (e matches BusEnvelope::Register(b) && member(v@, "name"@) == Some(
            JsonView::Str(b.name@),
        )),
        r matches Some(BusEnvelope::Register(b)) ==> match member(v@, "subscriptions"@) {
            None => b.subscriptions@.len() == 0,
            Some(s) => s matches JsonView::Array(items) && items.len() == b.subscriptions@.len()
                && forall|i: int|
                0 <= i < items.len() ==> #[trigger] items[i] == JsonView::Str(
                    b.subscriptions@[i]@,
                ),
        },
        member(v@, "subscriptions"@) is None ==> r is Some,
{
    if let Some(e) = r {
        assert(envelope_in(v@) == Some(e@));
        assert(e is Register);
        let b = e->Register_0;
        assert(register_in(v@) == Some(b@));
        if let Some(JsonView::Array(items)) = member(v@, "subscriptions"@) {
            assert(texts(b.subscriptions@) == Seq::new(items.len(), |i: int| items[i]->Str_0));
            assert forall|i: int| 0 <= i < items.len() implies #[trigger] items[i]
                == JsonView::Str(b.subscriptions@[i]@) by {
                assert(items[i] is Str);
                assert(texts(b.subscriptions@)[i] == items[i]->Str_0);
            }
        }
        if member(v@, "subscriptions"@) is None {
            assert(texts(b.subscriptions@).len() == 0);
        }
    }
}

/// A message keeps its parts on its way to the wire and from it.
pub proof fn law_message_keeps_its_parts(
    msg: &Message,
    wire: BusMessage,
    back: Message,
)
    requires
        call_ensures(BusMessage::from_message, (msg,), wire),
        call_ensures(BusMessage::into_message, (wire,), back),
    ensures
        wire.id@ == msg.id@ && back.id@ == msg.id@,
        wire.source@ == msg.source@ && back.source@ == msg.source@,
        wire.target@ == msg.target@ && back.target@ == msg.target@,
        wire.payload@ == msg.payload@ && back.payload@ == msg.payload@,
        opt_text(wire.reply_to) == opt_text(msg.reply_to),
        opt_text(back.reply_to) == opt_text(msg.reply_to),
        wire.metadata.priority == msg.metadata.priority && wire.metadata.fresh
            == msg.metadata.fresh,
        back.metadata == msg.metadata,
{
}

/// A task is stored part by part, and its status under its name.
pub proof fn law_task_is_stored_part_by_part(task: &Task, r: StoredTask)
    requires
        call_ensures(StoredTask::from_task, (task,), r),
    ensures
        r.id@ == task.id@,
        r.description@ == task.description@,
        r.created_by@ == task.created_by@,
        r.created_at@ == task.created_at@,
        r.updated_at@ == task.updated_at@,
        opt_text(r.assignee) == opt_text(task.assignee),
        opt_text(r.result) == opt_text(task.result),
        opt_text(r.error) == opt_text(task.error),
        opt_text(r.sm_instance_id) == opt_text(task.sm_instance_id),
        opt_text(r.criteria.model) == opt_text(task.criteria.model),
        texts(r.criteria.labels@) == texts(task.criteria.labels@),
        task.status is Pending ==> r.status@ == "pending"@,
        task.status is Active ==> r.status@ == "active"@,
        task.status is Done ==> r.status@ == "done"@,
        task.status is Failed ==> r.status@ == "failed"@,
        task.status is Cancelled ==> r.status@ == "cancelled"@,
{
}

/// A stored task is restored part by part. A status of another name is pending.
pub proof fn law_task_is_restored_part_by_part(stored: StoredTask, r: Task)
    requires
        call_ensures(StoredTask::into_task, (stored,), r),
    ensures
        r.id@ == stored.id@,
        r.description@ == stored.description@,
        r.created_by@ == stored.created_by@,
        r.created_at@ == stored.created_at@,
        r.updated_at@ == stored.updated_at@,
        opt_text(r.assignee) == opt_text(stored.assignee),
        opt_text(r.result) == opt_text(stored.result),
        opt_text(r.error) == opt_text(stored.error),
        opt_text(r.sm_instance_id) == opt_text(stored.sm_instance_id),
        opt_text(r.criteria.model) == opt_text(stored.criteria.model),
        texts(r.criteria.labels@) == texts(stored.criteria.labels@),
        r.status is Active <==> stored.status@ == "active"@,
        r.status is Done <==> stored.status@ == "done"@,
        r.status is Failed <==> stored.status@ == "failed"@,
        r.status is Cancelled <==> stored.status@ == "cancelled"@,
{
    reveal_strlit("active");
    reveal_strlit("done");
    reveal_strlit("failed");
    reveal_strlit("cancelled");
    assert("active"@[0] == 'a');
    assert("done"@[0] == 'd');
    assert("failed"@[0] == 'f');
    assert("cancelled"@[0] == 'c');
}

/// An instance is stored part by part, with every transition of its history, in order.
pub proof fn law_instance_is_stored_part_by_part(inst: &Instance, r: StoredInstance)
    requires
        call_ensures(StoredInstance::from_instance, (inst,), r),
    ensures
        r.id@ == inst.id@,
        r.model@ == inst.model@,
        r.title@ == inst.title@,
        r.body@ == inst.body@,
        r.state@ == inst.state@,
        r.assignee@ == inst.assignee@,
        opt_text(r.result) == opt_text(inst.result),
        opt_text(r.error) == opt_text(inst.error),
        r.created_by@ == inst.created_by@,
        r.created_at@ == inst.created_at@,
        r.updated_at@ == inst.updated_at@,
        r.metadata@ == inst.metadata@,
        r.history@.len() == inst.history@.len(),
        forall|k: int|
            0 <= k < r.history@.len() ==> (#[trigger] r.history@[k]).from@ == inst.history@[k].from@
                && r.history@[k].to@ == inst.history@[k].to@ && r.history@[k].trigger@
                == inst.history@[k].trigger@ && r.history@[k].timestamp@
                == inst.history@[k].timestamp@ && opt_text(r.history@[k].note) == opt_text(
                inst.history@[k].note,
            ),
{
    assert(r@.history.len() == r.history@.len());
    assert(kept_instance(inst@).history.len() == inst.history@.len());
    assert forall|k: int| 0 <= k < r.history@.len() implies (#[trigger] r.history@[k])@
        == kept_transition(inst.history@[k]@) by {
        assert(r@.history[k] == kept_instance(inst@).history[k]);
    }
}

/// A stored instance is restored part by part, with every transition of its history, in
/// order. It has neither totals nor tasks.
pub proof fn law_instance_is_restored_part_by_part(stored: StoredInstance, r: Instance)
    requires
        call_ensures(StoredInstance::into_instance, (stored,), r),
    ensures
        r.id@ == stored.id@,
        r.model@ == stored.model@,
        r.title@ == stored.title@,
        r.body@ == stored.body@,
        r.state@ == stored.state@,
        r.assignee@ == stored.assignee@,
        opt_text(r.result) == opt_text(stored.result),
        opt_text(r.error) == opt_text(stored.error),
        r.created_by@ == stored.created_by@,
        r.created_at@ == stored.created_at@,
        r.updated_at@ == stored.updated_at@,
        r.metadata@ == stored.metadata@,
        r.total_cost_nanos == 0,
        r.total_turns == 0,
        r.task_ids@.len() == 0,
        r.history@.len() == stored.history@.len(),
        forall|k: int|
            0 <= k < r.history@.len() ==> (#[trigger] r.history@[k]).from@
                == stored.history@[k].from@ && r.history@[k].to@ == stored.history@[k].to@
                && r.history@[k].trigger@ == stored.history@[k].trigger@
                && r.history@[k].timestamp@ == stored.history@[k].timestamp@ && opt_text(
                r.history@[k].note,
            ) == opt_text(stored.history@[k].note) && r.history@[k].task_id is None,
{
    assert(r@.history.len() == r.history@.len());
    assert(stored@.history.len() == stored.history@.len());
    assert(r@.task_ids.len() == r.task_ids@.len());
    assert forall|k: int| 0 <= k < r.history@.len() implies (#[trigger] r.history@[k])@
        == stored.history@[k]@ by {
        assert(r@.history[k] == stored@.history[k]);
    }
}

} // verus!

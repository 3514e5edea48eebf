//! Diagnostics on the bus: warnings and errors as structured events on two topics.

use crate::domain::message::Message;
use crate::domain::message::Metadata;
use crate::ids::is_id;
use crate::ids::new_id;
use crate::json::Json;
use crate::json::JsonView;
use crate::json::ObjectBuilder;
use crate::json::lemma_object_member;
use crate::json::member;
use crate::json::object;
use crate::json::text_or_null;
use crate::text::concat3;
use crate::text::has_suffix;
use crate::text::text_eq;
use vstd::prelude::*;

verus! {

/// The topic of warnings.
pub const TOPIC_WARN: &'static str = "diagnostics.warn";

/// The topic of errors.
pub const TOPIC_ERROR: &'static str = "diagnostics.error";

/// How severe an event is.
#[derive(Debug, Clone, Copy, PartialEq, Eq, Structural)]
pub enum Level {
    Warn,
    Error,
}

/// The topic of a level.
pub open spec fn topic_of(level: Level) -> Seq<char> {
    match level {
        Level::Warn => "diagnostics.warn"@,
        Level::Error => "diagnostics.error"@,
    }
}

impl Level {
    /// The topic of the level.
    pub fn topic(self) -> (r: &'static str)
        ensures
            r@ == topic_of(self),
    {
        match self {
            Level::Warn => TOPIC_WARN,
            Level::Error => TOPIC_ERROR,
        }
    }
}

/// Whether the time is given in UTC, with the offset written out.
pub open spec fn in_utc(timestamp: Seq<char>) -> bool {
    has_suffix(timestamp, "+00:00"@)
}

/// Calls `chrono::Utc::now` and `to_rfc3339`. The text ends in the offset of UTC; the rest
/// is left unsaid, as it depends on the time of the call.
#[verifier::external_body]
fn utc_now_text() -> (r: String)
    ensures
        in_utc(r@),
{
    chrono::Utc::now().to_rfc3339()
}

/// An event.
pub open spec fn event_json(
    level: Level,
    timestamp: Seq<char>,
    source: Seq<char>,
    kind: Seq<char>,
    message: Seq<char>,
    details: JsonView,
    trace_id: Option<Seq<char>>,
) -> JsonView {
    object(
        seq![
            ("topic"@, JsonView::Str(topic_of(level))),
            ("timestamp"@, JsonView::Str(timestamp)),
            ("source"@, JsonView::Str(source)),
            ("kind"@, JsonView::Str(kind)),
            ("message"@, JsonView::Str(message)),
            ("details"@, details),
            ("trace_id"@, text_or_null(trace_id)),
        ],
    )
}

pub open spec fn opt_view(t: Option<&str>) -> Option<Seq<char>> {
    match t {
        Some(s) => Some(s@),
        None => None,
    }
}

/// The event at the given time.
pub fn build_event_at(
    level: Level,
    timestamp: &str,
    source: &str,
    kind: &str,
    message: &str,
    details: Json,
    trace_id: Option<&str>,
) -> (r: Json)
    ensures
        r@ == event_json(
            level,
            timestamp@,
            source@,
            kind@,
            message@,
            details@,
            opt_view(trace_id),
        ),
{
    let trace = match trace_id {
        Some(t) => Json::Str(t.to_owned()),
        None => Json::Null,
    };
    let b = ObjectBuilder::new().with_text("topic", level.topic()).with_text(
        "timestamp",
        timestamp,
    ).with_text("source", source).with_text("kind", kind).with_text("message", message).with(
        "details",
        details,
    ).with("trace_id", trace);
    assert(b@ =~= seq![
        ("topic"@, JsonView::Str(topic_of(level))),
        ("timestamp"@, JsonView::Str(timestamp@)),
        ("source"@, JsonView::Str(source@)),
        ("kind"@, JsonView::Str(kind@)),
        ("message"@, JsonView::Str(message@)),
        ("details"@, details@),
        ("trace_id"@, text_or_null(opt_view(trace_id))),
    ]);
    b.build()
}

/// The event at the time of the call, which is given in UTC. Which time that is depends on
/// the clock.
pub fn build_event(
    level: Level,
    source: &str,
    kind: &str,
    message: &str,
    details: Json,
    trace_id: Option<&str>,
) -> (r: Json)
    ensures
        exists|timestamp: Seq<char>|
            in_utc(timestamp) && r@ == #[trigger] event_json(
                level,
                timestamp,
                source@,
                kind@,
                message@,
                details@,
                opt_view(trace_id),
            ),
{
    let now = utc_now_text();
    build_event_at(level, now.as_str(), source, kind, message, details, trace_id)
}

// ─── Publishing ─────────────────────────────────────────────────────────────

/// What is sent to publish an event: the registration of a client of its own, and its
/// message.
pub struct Publication {
    pub socket: String,
    pub client_name: String,
    pub message: Message,
}

/// Whether the event is published: there is a bus, and its socket has a name.
pub open spec fn has_bus(bus_socket: Option<&str>) -> bool {
    bus_socket is Some && bus_socket->0@.len() > 0
}

/// Whether the publication is that of an event on the bus: from a client of its own, to
/// the topic of the level, with the event as its payload.
pub open spec fn publishes(
    p: Publication,
    level: Level,
    socket: Seq<char>,
    source: Seq<char>,
    kind: Seq<char>,
    message: Seq<char>,
    details: JsonView,
) -> bool {
    &&& p.socket@ == socket
    &&& exists|client: Seq<char>| #[trigger]
        is_id(client) && p.client_name@ == "diag:"@ + source + "-"@ + client
    &&& is_id(p.message@.id)
    &&& p.message@.source == p.client_name@
    &&& p.message@.target == topic_of(level)
    &&& p.message@.reply_to is None
    &&& p.message@.metadata == (Metadata { priority: 0, fresh: false })
    &&& exists|timestamp: Seq<char>|
        in_utc(timestamp) && p.message@.payload == #[trigger] event_json(
            level,
            timestamp,
            source,
            kind,
            message,
            details,
            None,
        )
}

/// What is sent to publish an event, if there is a bus to publish it on. The client has
/// a name of its own, and the message goes to the topic of the level.
pub fn publication(
    level: Level,
    bus_socket: Option<&str>,
    source: &str,
    kind: &str,
    message: &str,
    details: Json,
) -> (r: Option<Publication>)
    ensures
        r is Some <==> has_bus(bus_socket),
        r matches Some(p) ==> publishes(
            p,
            level,
            bus_socket->0@,
            source@,
            kind@,
            message@,
            details@,
        ),
{
    let socket = match bus_socket {
        Some(s) => s,
        None => {
            return None;
        },
    };
    proof {
        reveal_strlit("");
        if socket@.len() == 0 {
            assert(socket@ =~= ""@);
        }
    }
    if text_eq(socket, "") {
        return None;
    }
    let payload = build_event(level, source, kind, message, details, None);
    let client = new_id();
    let mut client_name = concat3("diag:", source, "-");
    client_name.append(client.as_str());
    assert(is_id(client@) && client_name@ == "diag:"@ + source@ + "-"@ + client@);
    let envelope = Message {
        id: new_id(),
        source: client_name.clone(),
        target: level.topic().to_owned(),
        payload,
        reply_to: None,
        metadata: Metadata::default(),
    };
    Some(Publication { socket: socket.to_owned(), client_name, message: envelope })
}

/// What is sent to publish a warning.
pub fn warn_event(
    bus_socket: Option<&str>,
    source: &str,
    kind: &str,
    message: &str,
    details: Json,
) -> (r: Option<Publication>)
    ensures
        r is Some <==> has_bus(bus_socket),
        r matches Some(p) ==> publishes(
            p,
            Level::Warn,
            bus_socket->0@,
            source@,
            kind@,
            message@,
            details@,
        ),
{
    publication(Level::Warn, bus_socket, source, kind, message, details)
}

/// What is sent to publish an error.
pub fn error_event(
    bus_socket: Option<&str>,
    source: &str,
    kind: &str,
    message: &str,
    details: Json,
) -> (r: Option<Publication>)
    ensures
        r is Some <==> has_bus(bus_socket),
        r matches Some(p) ==> publishes(
            p,
            Level::Error,
            bus_socket->0@,
            source@,
            kind@,
            message@,
            details@,
        ),
{
    publication(Level::Error, bus_socket, source, kind, message, details)
}

// ─── Naming a bus ───────────────────────────────────────────────────────────

/// The text, unless it is empty.
pub open spec fn nonempty(s: Seq<char>) -> Option<Seq<char>> {
    if s.len() > 0 {
        Some(s)
    } else {
        None
    }
}

fn unless_empty(s: &str) -> (r: Option<&str>)
    ensures
        opt_view(r) == nonempty(s@),
{
    proof {
        reveal_strlit("");
        if s@.len() == 0 {
            assert(s@ =~= ""@);
        }
    }
    if text_eq(s, "") {
        None
    } else {
        Some(s)
    }
}

/// What can name a bus.
pub trait DiagBusArg {
    /// The socket that is named.
    spec fn socket(&self) -> Option<Seq<char>>;

    /// The socket that is named; an empty text names none.
    fn as_diag_bus(&self) -> (r: Option<&str>)
        ensures
            opt_view(r) == self.socket(),
    ;
}

impl DiagBusArg for &str {
    open spec fn socket(&self) -> Option<Seq<char>> {
        nonempty(self@)
    }

    fn as_diag_bus(&self) -> (r: Option<&str>) {
        unless_empty(self)
    }
}

impl DiagBusArg for String {
    open spec fn socket(&self) -> Option<Seq<char>> {
        nonempty(self@)
    }

    fn as_diag_bus(&self) -> (r: Option<&str>) {
        unless_empty(self.as_str())
    }
}

impl DiagBusArg for &String {
    open spec fn socket(&self) -> Option<Seq<char>> {
        nonempty(self@)
    }

    fn as_diag_bus(&self) -> (r: Option<&str>) {
        unless_empty(self.as_str())
    }
}

impl DiagBusArg for Option<&str> {
    open spec fn socket(&self) -> Option<Seq<char>> {
        match *self {
            Some(s) => nonempty(s@),
            None => None,
        }
    }

    fn as_diag_bus(&self) -> (r: Option<&str>) {
        match self {
            Some(s) => unless_empty(s),
            None => None,
        }
    }
}

impl DiagBusArg for Option<String> {
    open spec fn socket(&self) -> Option<Seq<char>> {
        match *self {
            Some(s) => nonempty(s@),
            None => None,
        }
    }

    fn as_diag_bus(&self) -> (r: Option<&str>) {
        match self {
            Some(s) => unless_empty(s.as_str()),
            None => None,
        }
    }
}

/// An event tells each of its parts under the name of that part, with its level as its
/// topic.
pub proof fn law_event_tells_its_parts(
    level: Level,
    timestamp: &str,
    source: &str,
    kind: &str,
    message: &str,
    details: Json,
    trace_id: Option<&str>,
    r: Json,
)
    requires
        call_ensures(
            build_event_at,
            (level, timestamp, source, kind, message, details, trace_id),
            r,
        ),
    ensures
        level is Warn ==> member(r@, "topic"@) == Some(JsonView::Str("diagnostics.warn"@)),
        level is Error ==> member(r@, "topic"@) == Some(JsonView::Str("diagnostics.error"@)),
        member(r@, "timestamp"@) == Some(JsonView::Str(timestamp@)),
        member(r@, "source"@) == Some(JsonView::Str(source@)),
        member(r@, "kind"@) == Some(JsonView::Str(kind@)),
        member(r@, "message"@) == Some(JsonView::Str(message@)),
        member(r@, "details"@) == Some(details@),
        trace_id matches Some(t) ==> member(r@, "trace_id"@) == Some(JsonView::Str(t@)),
        trace_id is None ==> member(r@, "trace_id"@) == Some(JsonView::Null),
{
    lemma_event_members(
        level,
        timestamp@,
        source@,
        kind@,
        message@,
        details@,
        opt_view(trace_id),
    );
}

proof fn lemma_event_members(
    level: Level,
    timestamp: Seq<char>,
    source: Seq<char>,
    kind: Seq<char>,
    message: Seq<char>,
    details: JsonView,
    trace_id: Option<Seq<char>>,
)
    ensures
        ({
            let v = event_json(level, timestamp, source, kind, message, details, trace_id);
            &&& member(v, "topic"@) == Some(JsonView::Str(topic_of(level)))
            &&& member(v, "timestamp"@) == Some(JsonView::Str(timestamp))
            &&& member(v, "source"@) == Some(JsonView::Str(source))
            &&& member(v, "kind"@) == Some(JsonView::Str(kind))
            &&& member(v, "message"@) == Some(JsonView::Str(message))
            &&& member(v, "details"@) == Some(details)
            &&& member(v, "trace_id"@) == Some(text_or_null(trace_id))
        }),
{
    reveal_strlit("topic");
    reveal_strlit("timestamp");
    reveal_strlit("source");
    reveal_strlit("kind");
    reveal_strlit("message");
    reveal_strlit("details");
    reveal_strlit("trace_id");
    assert("message"@[0] == 'm');
    assert("details"@[0] == 'd');
    let members = seq![
        ("topic"@, JsonView::Str(topic_of(level))),
        ("timestamp"@, JsonView::Str(timestamp)),
        ("source"@, JsonView::Str(source)),
        ("kind"@, JsonView::Str(kind)),
        ("message"@, JsonView::Str(message)),
        ("details"@, details),
        ("trace_id"@, text_or_null(trace_id)),
    ];
    assert(members[0].0.len() == 5 && members[1].0.len() == 9 && members[2].0.len() == 6
        && members[3].0.len() == 4 && members[4].0.len() == 7 && members[5].0.len() == 7
        && members[6].0.len() == 8);
    lemma_object_member(members, 0);
    lemma_object_member(members, 1);
    lemma_object_member(members, 2);
    lemma_object_member(members, 3);
    lemma_object_member(members, 4);
    lemma_object_member(members, 5);
    lemma_object_member(members, 6);
}

/// A warning is published to the topic of warnings and tells what it is about; without a
/// socket of some name nothing is published.
pub proof fn law_warning_is_published(
    bus_socket: Option<&str>,
    source: &str,
    kind: &str,
    message: &str,
    details: Json,
    r: Option<Publication>,
)
    requires
        call_ensures(warn_event, (bus_socket, source, kind, message, details), r),
    ensures
        bus_socket is None || bus_socket->0@.len() == 0 <==> r is None,
        r matches Some(p) ==> {
            &&& p.socket@ == bus_socket->0@
            &&& p.message.target@ == "diagnostics.warn"@
            &&& p.message.source@ == p.client_name@
            &&& ("diag:"@ + source@ + "-"@).is_prefix_of(p.client_name@)
            &&& member(p.message.payload@, "topic"@) == Some(JsonView::Str("diagnostics.warn"@))
            &&& member(p.message.payload@, "source"@) == Some(JsonView::Str(source@))
            &&& member(p.message.payload@, "kind"@) == Some(JsonView::Str(kind@))
            &&& member(p.message.payload@, "message"@) == Some(JsonView::Str(message@))
            &&& member(p.message.payload@, "details"@) == Some(details@)
        },
{
    if let Some(p) = r {
        lemma_publication(
            p,
            Level::Warn,
            bus_socket->0@,
            source@,
            kind@,
            message@,
            details@,
        );
    }
}

/// An error is published to the topic of errors and tells what it is about; without a
/// socket of some name nothing is published.
pub proof fn law_error_is_published(
    bus_socket: Option<&str>,
    source: &str,
    kind: &str,
    message: &str,
    details: Json,
    r: Option<Publication>,
)
    requires
        call_ensures(error_event, (bus_socket, source, kind, message, details), r),
    ensures
        bus_socket is None || bus_socket->0@.len() == 0 <==> r is None,
        r matches Some(p) ==> {
            &&& p.socket@ == bus_socket->0@
            &&& p.message.target@ == "diagnostics.error"@
            &&& p.message.source@ == p.client_name@
            &&& ("diag:"@ + source@ + "-"@).is_prefix_of(p.client_name@)
            &&& member(p.message.payload@, "topic"@) == Some(JsonView::Str("diagnostics.error"@))
            &&& member(p.message.payload@, "source"@) == Some(JsonView::Str(source@))
            &&& member(p.message.payload@, "kind"@) == Some(JsonView::Str(kind@))
            &&& member(p.message.payload@, "message"@) == Some(JsonView::Str(message@))
            &&& member(p.message.payload@, "details"@) == Some(details@)
        },
{
    if let Some(p) = r {
        lemma_publication(
            p,
            Level::Error,
            bus_socket->0@,
            source@,
            kind@,
            message@,
            details@,
        );
    }
}

proof fn lemma_publication(
    p: Publication,
    level: Level,
    socket: Seq<char>,
    source: Seq<char>,
    kind: Seq<char>,
    message: Seq<char>,
    details: JsonView,
)
    requires
        publishes(p, level, socket, source, kind, message, details),
    ensures
        ("diag:"@ + source + "-"@).is_prefix_of(p.client_name@),
        member(p.message.payload@, "topic"@) == Some(JsonView::Str(topic_of(level))),
        member(p.message.payload@, "source"@) == Some(JsonView::Str(source)),
        member(p.message.payload@, "kind"@) == Some(JsonView::Str(kind)),
        member(p.message.payload@, "message"@) == Some(JsonView::Str(message)),
        member(p.message.payload@, "details"@) == Some(details),
{
    let client = choose|client: Seq<char>| #[trigger]
        is_id(client) && p.client_name@ == "diag:"@ + source + "-"@ + client;
    let head = "diag:"@ + source + "-"@;
    assert((head + client).subrange(0, head.len() as int) =~= head);
    let timestamp = choose|timestamp: Seq<char>|
        in_utc(timestamp) && p.message@.payload == #[trigger] event_json(
            level,
            timestamp,
            source,
            kind,
            message,
            details,
            None,
        );
    lemma_event_members(level, timestamp, source, kind, message, details, None);
}

} // verus!

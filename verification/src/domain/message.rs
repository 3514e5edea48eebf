//! Messages on the bus.

use crate::json::Json;
use crate::json::JsonView;
use crate::text::opt_text;
use crate::text::texts;
use vstd::prelude::*;

verus! {

/// How a message is to be handled.
#[derive(Debug, Clone, Copy, PartialEq, Eq, Structural)]
pub struct Metadata {
    pub priority: u8,
    /// Whether the receiver starts a fresh session.
    pub fresh: bool,
}

impl Default for Metadata {
    fn default() -> (r: Self)
        ensures
            r == (Metadata { priority: 0, fresh: false }),
    {
        Metadata { priority: 0, fresh: false }
    }
}

/// A message.
pub struct Message {
    pub id: String,
    pub source: String,
    pub target: String,
    pub payload: Json,
    pub reply_to: Option<String>,
    pub metadata: Metadata,
}

#[verifier::ext_equal]
pub ghost struct MessageView {
    pub id: Seq<char>,
    pub source: Seq<char>,
    pub target: Seq<char>,
    pub payload: JsonView,
    pub reply_to: Option<Seq<char>>,
    pub metadata: Metadata,
}

impl View for Message {
    type V = MessageView;

    open spec fn view(&self) -> MessageView {
        MessageView {
            id: self.id@,
            source: self.source@,
            target: self.target@,
            payload: self.payload@,
            reply_to: opt_text(self.reply_to),
            metadata: self.metadata,
        }
    }
}

/// A client's registration.
#[derive(Debug, Clone)]
pub struct Register {
    pub name: String,
    pub subscriptions: Vec<String>,
}

#[verifier::ext_equal]
pub ghost struct RegisterView {
    pub name: Seq<char>,
    pub subscriptions: Seq<Seq<char>>,
}

impl View for Register {
    type V = RegisterView;

    open spec fn view(&self) -> RegisterView {
        RegisterView { name: self.name@, subscriptions: texts(self.subscriptions@) }
    }
}

/// What a client sends to the bus.
pub enum Envelope {
    Register(Register),
    Message(Message),
    List,
}

pub ghost enum EnvelopeView {
    Register(RegisterView),
    Message(MessageView),
    List,
}

impl View for Envelope {
    type V = EnvelopeView;

    open spec fn view(&self) -> EnvelopeView {
        match *self {
            Envelope::Register(r) => EnvelopeView::Register(r@),
            Envelope::Message(m) => EnvelopeView::Message(m@),
            Envelope::List => EnvelopeView::List,
        }
    }
}

} // verus!

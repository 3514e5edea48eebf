//! One-shot messages: a client registers, sends one message and disconnects.

use crate::domain::message::Message;
use crate::domain::message::MessageView;
use crate::domain::message::Metadata;
use crate::ids::is_id;
use crate::ids::new_id;
use crate::json::JsonView;
use crate::json::ObjectBuilder;
use crate::json::lemma_object_member;
use crate::json::member;
use crate::json::object;
use vstd::prelude::*;

verus! {

/// A message that hands a task to the target.
pub open spec fn task_message(
    id: Seq<char>,
    source: Seq<char>,
    target: Seq<char>,
    text: Seq<char>,
    fresh: bool,
) -> MessageView {
    MessageView {
        id,
        source,
        target,
        payload: object(seq![("task"@, JsonView::Str(text))]),
        reply_to: None,
        metadata: Metadata { priority: 0, fresh },
    }
}

/// The message under the given identifier.
pub fn message_with_id(id: String, source: &str, target: &str, text: &str, fresh: bool) -> (r:
    Message)
    ensures
        r@ == task_message(id@, source@, target@, text@, fresh),
{
    let payload = ObjectBuilder::new().with_text("task", text);
    assert(payload@ =~= seq![("task"@, JsonView::Str(text@))]);
    let metadata = Metadata::default();
    Message {
        id,
        source: source.to_owned(),
        target: target.to_owned(),
        payload: payload.build(),
        reply_to: None,
        metadata: Metadata { priority: metadata.priority, fresh },
    }
}

/// The message that hands a task to the target, under a new identifier.
pub fn new_message(source: &str, target: &str, text: &str) -> (r: Message)
    ensures
        is_id(r@.id),
        r@ == task_message(r@.id, source@, target@, text@, false),
{
    message_with_id(new_id(), source, target, text, false)
}

/// The same message, for a fresh session of the receiver.
pub fn new_message_fresh(source: &str, target: &str, text: &str) -> (r: Message)
    ensures
        is_id(r@.id),
        r@ == task_message(r@.id, source@, target@, text@, true),
{
    message_with_id(new_id(), source, target, text, true)
}

/// A new message goes from its source to its target with the text as its task. It asks for
/// no reply, and for no fresh session.
pub proof fn law_message_hands_over_a_task(source: &str, target: &str, text: &str, r: Message)
    requires
        call_ensures(new_message, (source, target, text), r),
    ensures
        r.source@ == source@,
        r.target@ == target@,
        member(r.payload@, "task"@) == Some(JsonView::Str(text@)),
        r.reply_to is None,
        !r.metadata.fresh,
        r.metadata.priority == 0,
{
    lemma_object_member(seq![("task"@, JsonView::Str(text@))], 0);
}

/// A message for a fresh session differs from another only in asking for it.
pub proof fn law_fresh_message_asks_for_a_session(
    source: &str,
    target: &str,
    text: &str,
    r: Message,
    plain: Message,
)
    requires
        call_ensures(new_message_fresh, (source, target, text), r),
        call_ensures(new_message, (source, target, text), plain),
    ensures
        r.metadata.fresh && !plain.metadata.fresh,
        r.source@ == plain.source@,
        r.target@ == plain.target@,
        r.payload@ == plain.payload@,
        r.reply_to is None,
        r.metadata.priority == plain.metadata.priority,
{
}

} // verus!

//! Messages and the text that a run of messages adds up to.

use crate::role::Role;
use vstd::prelude::*;
use vstd::std_specs::cmp::PartialEqSpecImpl;

verus! {

/// One utterance and its speaker.
#[derive(Debug)]
pub struct Message {
    pub role: Role,
    pub content: String,
}

/// What a message is: its speaker and the characters of its text.
pub struct MessageView {
    pub role: Role,
    pub content: Seq<char>,
}

impl View for Message {
    type V = MessageView;

    open spec fn view(&self) -> MessageView {
        MessageView { role: self.role, content: self.content@ }
    }
}

/// What a run of messages is.
pub open spec fn views(messages: Seq<Message>) -> Seq<MessageView> {
    Seq::new(messages.len(), |i: int| messages[i]@)
}

/// The text of a run of messages, one after the other with nothing between
/// them. It is the key under which a reply to those messages is filed.
pub open spec fn context_key(messages: Seq<MessageView>) -> Seq<char>
    decreases messages.len(),
{
    if messages.len() == 0 {
        Seq::empty()
    } else {
        context_key(messages.drop_last()) + messages.last().content
    }
}

/// One more message adds its text at the end of the key.
pub proof fn lemma_context_key_step(messages: Seq<MessageView>, i: int)
    requires
        0 <= i < messages.len(),
    ensures
        context_key(messages.take(i + 1)) == context_key(messages.take(i)) + messages[i].content,
{
    assert(messages.take(i + 1).drop_last() == messages.take(i));
}

impl PartialEq for Message {
    fn eq(&self, other: &Message) -> (same: bool) {
        self.role == other.role && self.content == other.content
    }
}

impl Eq for Message {}

impl PartialEqSpecImpl for Message {
    open spec fn obeys_eq_spec() -> bool {
        true
    }

    open spec fn eq_spec(&self, other: &Message) -> bool {
        self.role == other.role && self.content@ == other.content@
    }
}

impl Clone for Message {
    fn clone(&self) -> (copy: Message)
        ensures
            copy == *self,
    {
        Message { role: self.role, content: self.content.clone() }
    }
}

} // verus!

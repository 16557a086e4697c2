//! Checking replies against the conversations they are meant to come from.
//!
//! A conversation yields one exchange for each reply of the assistant in it:
//! the request made of the messages before the reply, and the text that is
//! expected back. Where several conversations share those messages, another
//! reply than the expected one may come back; it is accepted where the
//! conversation that it is said to come from holds it.

use crate::conversations::{distinct_ids, lemma_found_under_own_id, messages_of};
use crate::conversations::{ConversationView, Conversations};
use crate::index::{lemma_candidate_was_recorded, lemma_reply_is_filed, recorded_at};
use crate::index::{response_index, ResponseView};
use crate::message::{context_key, views, Message, MessageView};
use crate::request::{ChatCompletionRequest, ChatCompletionResponse};
use crate::role::Role;
use vstd::prelude::*;

verus! {

/// A request that a conversation can answer, and the text of the reply that
/// the conversation holds for it.
#[derive(Debug)]
pub struct Exchange {
    pub request: ChatCompletionRequest,
    pub expected: String,
}

/// What an exchange is: the messages of its request, and the text expected
/// back.
pub struct ExchangeView {
    pub request: Seq<MessageView>,
    pub expected: Seq<char>,
}

impl View for Exchange {
    type V = ExchangeView;

    open spec fn view(&self) -> ExchangeView {
        ExchangeView { request: self.request@, expected: self.expected@ }
    }
}

/// What a run of exchanges is.
pub open spec fn exchange_views(exchanges: Seq<Exchange>) -> Seq<ExchangeView> {
    Seq::new(exchanges.len(), |i: int| exchanges[i]@)
}

/// The exchange for the reply at place `i`.
pub open spec fn exchange_at(messages: Seq<MessageView>, i: int) -> ExchangeView {
    ExchangeView { request: messages.take(i), expected: messages[i].content }
}

/// The exchanges of a conversation, in order: one for each message of the
/// assistant.
pub open spec fn exchanges_in(messages: Seq<MessageView>) -> Seq<ExchangeView>
    decreases messages.len(),
{
    if messages.len() == 0 {
        Seq::empty()
    } else {
        let earlier = exchanges_in(messages.drop_last());
        if messages.last().role == Role::Assistant {
            earlier.push(exchange_at(messages, messages.len() - 1))
        } else {
            earlier
        }
    }
}

/// The conversation with the given id holds a reply of the assistant with
/// the given text.
pub open spec fn holds_reply(all: Seq<ConversationView>, id: Seq<char>, content: Seq<char>)
    -> bool {
    match messages_of(all, id) {
        Some(messages) => messages.contains(
            MessageView { role: Role::Assistant, content: content },
        ),
        None => false,
    }
}

/// A reply is accepted where it has the expected text, or where the
/// conversation that it names holds it.
pub open spec fn accepted(
    all: Seq<ConversationView>,
    expected: Seq<char>,
    id: Seq<char>,
    content: Seq<char>,
) -> bool {
    content == expected || holds_reply(all, id, content)
}

/// Each exchange of a conversation stands for a reply of the assistant at
/// one of its places.
pub proof fn lemma_exchange_place(messages: Seq<MessageView>, n: int) -> (i: int)
    requires
        0 <= n < exchanges_in(messages).len(),
    ensures
        0 <= i < messages.len(),
        messages[i].role == Role::Assistant,
        exchanges_in(messages)[n] == exchange_at(messages, i),
    decreases messages.len(),
{
    let earlier = exchanges_in(messages.drop_last());
    if n < earlier.len() {
        let i = lemma_exchange_place(messages.drop_last(), n);
        assert(messages.drop_last().take(i) == messages.take(i));
        i
    } else {
        messages.len() - 1
    }
}

/// Every exchange of a conversation can be answered from the index of the
/// conversations: the key of its request is in the index, and the expected
/// reply is among the replies filed there.
pub proof fn lemma_exchange_is_answerable(all: Seq<ConversationView>, c: int, n: int)
    requires
        0 <= c < all.len(),
        0 <= n < exchanges_in(all[c].messages).len(),
    ensures
        ({
            let exchange = exchanges_in(all[c].messages)[n];
            let key = context_key(exchange.request);
            &&& response_index(all).contains_key(key)
            &&& response_index(all)[key].contains(
                ResponseView {
                    id: all[c].id,
                    response_message: MessageView {
                        role: Role::Assistant,
                        content: exchange.expected,
                    },
                },
            )
        }),
{
    let i = lemma_exchange_place(all[c].messages, n);
    lemma_reply_is_filed(all, c, i);
}

/// Whatever reply the index holds under a key is accepted, whichever text
/// was expected: a server that answers from the index is never found wrong.
pub proof fn lemma_index_replies_are_accepted(
    all: Seq<ConversationView>,
    key: Seq<char>,
    n: int,
    expected: Seq<char>,
)
    requires
        distinct_ids(all),
        response_index(all).contains_key(key),
        0 <= n < response_index(all)[key].len(),
    ensures
        accepted(
            all,
            expected,
            response_index(all)[key][n].id,
            response_index(all)[key][n].response_message.content,
        ),
{
    let reply = response_index(all)[key][n];
    lemma_candidate_was_recorded(all, key, n);
    let (c, i) = choose|c: int, i: int| recorded_at(all, c, i, key, reply);
    lemma_found_under_own_id(all, c);
    assert(all[c].messages[i] == MessageView {
        role: Role::Assistant,
        content: reply.response_message.content,
    });
}

/// The first `n` messages, copied.
fn leading(messages: &Vec<Message>, n: usize) -> (copy: Vec<Message>)
    requires
        n <= messages@.len(),
    ensures
        views(copy@) == views(messages@).take(n as int),
{
    let mut copy: Vec<Message> = Vec::new();
    let mut i: usize = 0;
    while i < n
        invariant
            i <= n <= messages@.len(),
            views(copy@) == views(messages@).take(i as int),
        decreases n - i,
    {
        let ghost earlier = views(copy@);
        copy.push(messages[i].clone());
        assert(views(copy@) == earlier.push(messages@[i as int]@));
        i = i + 1;
    }
    copy
}

/// The exchanges of a conversation.
pub fn exchanges(messages: &Vec<Message>) -> (all: Vec<Exchange>)
    ensures
        exchange_views(all@) == exchanges_in(views(messages@)),
{
    let ghost given = views(messages@);
    let mut all: Vec<Exchange> = Vec::new();
    let mut i: usize = 0;
    while i < messages.len()
        invariant
            i <= messages.len(),
            given == views(messages@),
            exchange_views(all@) == exchanges_in(given.take(i as int)),
        decreases messages.len() - i,
    {
        proof {
            assert(given.take(i + 1).drop_last() == given.take(i as int));
        }
        if messages[i].role == Role::Assistant {
            let exchange = Exchange {
                request: ChatCompletionRequest { messages: leading(messages, i) },
                expected: messages[i].content.clone(),
            };
            all.push(exchange);
        }
        i = i + 1;
    }
    proof {
        assert(given.take(i as int) == given);
    }
    all
}

impl Conversations {
    /// Whether the conversation with the given id holds a reply of the
    /// assistant with the given text.
    pub fn holds_reply(&self, id: &String, content: &str) -> (held: bool)
        ensures
            held == holds_reply(self@, id@, content@),
    {
        match self.get_conversation(id) {
            Some(messages) => {
                let ghost wanted = MessageView { role: Role::Assistant, content: content@ };
                let mut i: usize = 0;
                while i < messages.len()
                    invariant
                        i <= messages.len(),
                        wanted == (MessageView { role: Role::Assistant, content: content@ }),
                        messages_of(self@, id@) == Some(views(messages@)),
                        forall|j: int| 0 <= j < i ==> views(messages@)[j] != wanted,
                    decreases messages.len() - i,
                {
                    if messages[i].role == Role::Assistant && messages[i].content.as_str().eq(
                        content,
                    ) {
                        assert(views(messages@)[i as int] == wanted);
                        return true;
                    }
                    i = i + 1;
                }
                false
            },
            None => false,
        }
    }

    /// Whether a reply is accepted for an exchange in which `expected` was
    /// the text to come back.
    pub fn accepts(&self, expected: &str, reply: &ChatCompletionResponse) -> (ok: bool)
        ensures
            ok == accepted(self@, expected@, reply@.id, reply@.message.content),
    {
        reply.message.content.as_str().eq(expected) || self.holds_reply(
            &reply.id,
            reply.message.content.as_str(),
        )
    }
}

} // verus!

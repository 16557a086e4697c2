//! What a caller sends and gets: the messages so far, and a recorded reply
//! to them.

use crate::index::{HashedResponses, Response};
use crate::message::{context_key, lemma_context_key_step, views, Message, MessageView};
use vstd::prelude::*;
use vstd::string::StringExecFns;

verus! {

/// The messages of a conversation so far, for which a reply is asked.
#[derive(Debug)]
pub struct ChatCompletionRequest {
    pub messages: Vec<Message>,
}

impl View for ChatCompletionRequest {
    type V = Seq<MessageView>;

    open spec fn view(&self) -> Seq<MessageView> {
        views(self.messages@)
    }
}

impl ChatCompletionRequest {
    /// The key under which the replies to this request are filed.
    pub fn hash(&self) -> (key: String)
        ensures
            key@ == context_key(self@),
    {
        let mut hash_string = String::new();
        let mut i: usize = 0;
        while i < self.messages.len()
            invariant
                i <= self.messages.len(),
                hash_string@ == context_key(self@.take(i as int)),
            decreases self.messages.len() - i,
        {
            proof {
                lemma_context_key_step(self@, i as int);
            }
            hash_string.append(self.messages[i].content.as_str());
            i = i + 1;
        }
        proof {
            assert(self@.take(i as int) == self@);
        }
        hash_string
    }
}

/// A reply as it is handed to the caller: the recorded message, the id of the
/// conversation it comes from, and the time of the answer in seconds since
/// the Unix epoch.
#[derive(Debug)]
pub struct ChatCompletionResponse {
    pub id: String,
    pub created: i64,
    pub message: Message,
}

/// What a reply handed to the caller is.
pub struct ChatCompletionResponseView {
    pub id: Seq<char>,
    pub created: i64,
    pub message: MessageView,
}

impl View for ChatCompletionResponse {
    type V = ChatCompletionResponseView;

    open spec fn view(&self) -> ChatCompletionResponseView {
        ChatCompletionResponseView { id: self.id@, created: self.created, message: self.message@ }
    }
}

/// Why a request got no reply.
#[derive(Clone, Copy, Debug, PartialEq, Eq, Structural)]
pub enum LookupMiss {
    /// Nothing was ever recorded for the messages of the request.
    NoValidResponse,
}

impl LookupMiss {
    /// The words in which the miss is reported.
    pub fn message(&self) -> (text: String)
        ensures
            text@ == "No valid response exists for the given request"@,
    {
        String::from_str("No valid response exists for the given request")
    }
}

/// What is handed to the caller for the outcome of a lookup made at the time
/// `created`.
pub fn answer(found: Option<&Response>, created: i64) -> (reply: Result<
    ChatCompletionResponse,
    LookupMiss,
>)
    ensures
        match found {
            Some(response) => reply matches Ok(body) && body@ == (ChatCompletionResponseView {
                id: response.id@,
                created: created,
                message: response.response_message@,
            }),
            None => reply == Err::<ChatCompletionResponse, LookupMiss>(
                LookupMiss::NoValidResponse,
            ),
        },
{
    match found {
        Some(response) => Ok(
            ChatCompletionResponse {
                id: response.id.clone(),
                created: created,
                message: response.response_message.clone(),
            },
        ),
        None => Err(LookupMiss::NoValidResponse),
    }
}

impl HashedResponses {
    /// One of the replies recorded for the messages of the request, each with
    /// the same chance, and nothing where none was recorded. Two calls with
    /// the same request may return different replies.
    pub fn get_response_for_request(&self, request: &ChatCompletionRequest) -> (found: Option<
        &Response,
    >)
        ensures
            match found {
                Some(response) => self@.contains_key(context_key(request@))
                    && self@[context_key(request@)].contains(response@),
                None => !self@.contains_key(context_key(request@)),
            },
    {
        let request_hash = request.hash();
        self.lookup(request_hash.as_str())
    }
}

} // verus!

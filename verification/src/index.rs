//! The index from the text of a conversation so far to the replies that were
//! given to it.

use crate::conversations::{conversation_views, ConversationView, Conversations};
use crate::message::{context_key, lemma_context_key_step, views, Message, MessageView};
use crate::random::choose_one;
use crate::role::Role;
use std::sync::Arc;
use vstd::hash_map::StringHashMap;
use vstd::prelude::*;
use vstd::seq_lib::seq_to_set_is_finite;
use vstd::string::StringExecFns;

verus! {

/// A reply together with the id of the conversation it was given in.
#[derive(Debug)]
pub struct Response {
    pub id: String,
    pub response_message: Message,
}

/// What a recorded reply is.
pub struct ResponseView {
    pub id: Seq<char>,
    pub response_message: MessageView,
}

impl View for Response {
    type V = ResponseView;

    open spec fn view(&self) -> ResponseView {
        ResponseView { id: self.id@, response_message: self.response_message@ }
    }
}

/// What a run of recorded replies is.
pub open spec fn response_views(responses: Seq<Response>) -> Seq<ResponseView> {
    Seq::new(responses.len(), |i: int| responses[i]@)
}

/// A reply and the key it is filed under.
pub struct Filed {
    pub key: Seq<char>,
    pub response: ResponseView,
}

/// The reply at place `i` of a conversation, filed under the text of all the
/// messages before it.
pub open spec fn filed_at(id: Seq<char>, messages: Seq<MessageView>, i: int) -> Filed {
    Filed {
        key: context_key(messages.take(i)),
        response: ResponseView { id: id, response_message: messages[i] },
    }
}

/// The replies of one conversation, in order: one for each message of the
/// assistant.
pub open spec fn replies_in(id: Seq<char>, messages: Seq<MessageView>) -> Seq<Filed>
    decreases messages.len(),
{
    if messages.len() == 0 {
        Seq::empty()
    } else {
        let earlier = replies_in(id, messages.drop_last());
        if messages.last().role == Role::Assistant {
            earlier.push(filed_at(id, messages, messages.len() - 1))
        } else {
            earlier
        }
    }
}

/// The replies of all conversations, conversation by conversation.
pub open spec fn replies(all: Seq<ConversationView>) -> Seq<Filed>
    decreases all.len(),
{
    if all.len() == 0 {
        Seq::empty()
    } else {
        replies(all.drop_last()) + replies_in(all.last().id, all.last().messages)
    }
}

/// The replies that are filed under a key, in the order in which they were
/// filed.
pub open spec fn candidates(filed: Seq<Filed>, key: Seq<char>) -> Seq<ResponseView>
    decreases filed.len(),
{
    if filed.len() == 0 {
        Seq::empty()
    } else {
        let earlier = candidates(filed.drop_last(), key);
        if filed.last().key == key {
            earlier.push(filed.last().response)
        } else {
            earlier
        }
    }
}

/// The index of a set of conversations: each key that some reply is filed
/// under, with the replies filed under it.
pub open spec fn response_index(all: Seq<ConversationView>) -> Map<Seq<char>, Seq<ResponseView>> {
    Map::new(
        |key: Seq<char>| candidates(replies(all), key).len() > 0,
        |key: Seq<char>| candidates(replies(all), key),
    )
}

/// The reply `response` under `key` is the message at place `i` of the
/// conversation at place `c`, a message of the assistant, and `key` is the
/// text of the messages before it.
pub open spec fn recorded_at(
    all: Seq<ConversationView>,
    c: int,
    i: int,
    key: Seq<char>,
    response: ResponseView,
) -> bool {
    &&& 0 <= c < all.len()
    &&& 0 <= i < all[c].messages.len()
    &&& all[c].messages[i].role == Role::Assistant
    &&& filed_at(all[c].id, all[c].messages, i) == Filed { key: key, response: response }
}

proof fn lemma_replies_in_hold(id: Seq<char>, messages: Seq<MessageView>, i: int)
    requires
        0 <= i < messages.len(),
        messages[i].role == Role::Assistant,
    ensures
        replies_in(id, messages).contains(filed_at(id, messages, i)),
    decreases messages.len(),
{
    let earlier = replies_in(id, messages.drop_last());
    if i == messages.len() - 1 {
        let all = replies_in(id, messages);
        assert(all[all.len() - 1] == filed_at(id, messages, i));
    } else {
        lemma_replies_in_hold(id, messages.drop_last(), i);
        assert(messages.drop_last().take(i) == messages.take(i));
        let at = choose|at: int|
            0 <= at < earlier.len() && earlier[at] == filed_at(id, messages.drop_last(), i);
        assert(replies_in(id, messages)[at] == filed_at(id, messages, i));
    }
}

proof fn lemma_replies_hold(all: Seq<ConversationView>, c: int, filed: Filed)
    requires
        0 <= c < all.len(),
        replies_in(all[c].id, all[c].messages).contains(filed),
    ensures
        replies(all).contains(filed),
    decreases all.len(),
{
    let earlier = replies(all.drop_last());
    let own = replies_in(all.last().id, all.last().messages);
    if c == all.len() - 1 {
        let at = choose|at: int| 0 <= at < own.len() && own[at] == filed;
        assert(replies(all)[earlier.len() + at] == filed);
    } else {
        lemma_replies_hold(all.drop_last(), c, filed);
        let at = choose|at: int| 0 <= at < earlier.len() && earlier[at] == filed;
        assert(replies(all)[at] == filed);
    }
}

proof fn lemma_candidates_hold(filed: Seq<Filed>, at: int)
    requires
        0 <= at < filed.len(),
    ensures
        candidates(filed, filed[at].key).contains(filed[at].response),
    decreases filed.len(),
{
    let key = filed[at].key;
    let earlier = candidates(filed.drop_last(), key);
    if at == filed.len() - 1 {
        assert(candidates(filed, key)[earlier.len() as int] == filed[at].response);
    } else {
        lemma_candidates_hold(filed.drop_last(), at);
        let n = choose|n: int| 0 <= n < earlier.len() && earlier[n] == filed[at].response;
        assert(candidates(filed, key)[n] == filed[at].response);
    }
}

/// Every reply of the assistant can be looked up: the index holds it under
/// the text of the messages that stand before it in its conversation.
pub proof fn lemma_reply_is_filed(all: Seq<ConversationView>, c: int, i: int)
    requires
        0 <= c < all.len(),
        0 <= i < all[c].messages.len(),
        all[c].messages[i].role == Role::Assistant,
    ensures
        response_index(all).contains_key(context_key(all[c].messages.take(i))),
        response_index(all)[context_key(all[c].messages.take(i))].contains(
            ResponseView { id: all[c].id, response_message: all[c].messages[i] },
        ),
{
    let filed = filed_at(all[c].id, all[c].messages, i);
    lemma_replies_in_hold(all[c].id, all[c].messages, i);
    lemma_replies_hold(all, c, filed);
    let at = choose|at: int| 0 <= at < replies(all).len() && replies(all)[at] == filed;
    lemma_candidates_hold(replies(all), at);
}

proof fn lemma_replies_in_origin(id: Seq<char>, messages: Seq<MessageView>, at: int) -> (i: int)
    requires
        0 <= at < replies_in(id, messages).len(),
    ensures
        0 <= i < messages.len(),
        messages[i].role == Role::Assistant,
        replies_in(id, messages)[at] == filed_at(id, messages, i),
    decreases messages.len(),
{
    let earlier = replies_in(id, messages.drop_last());
    if at < earlier.len() {
        let i = lemma_replies_in_origin(id, messages.drop_last(), at);
        assert(messages.drop_last().take(i) == messages.take(i));
        i
    } else {
        messages.len() - 1
    }
}

proof fn lemma_replies_origin(all: Seq<ConversationView>, at: int) -> (place: (int, int))
    requires
        0 <= at < replies(all).len(),
    ensures
        recorded_at(all, place.0, place.1, replies(all)[at].key, replies(all)[at].response),
    decreases all.len(),
{
    let earlier = replies(all.drop_last());
    if at < earlier.len() {
        lemma_replies_origin(all.drop_last(), at)
    } else {
        let i = lemma_replies_in_origin(
            all.last().id,
            all.last().messages,
            at - earlier.len(),
        );
        (all.len() - 1, i)
    }
}

proof fn lemma_candidates_origin(filed: Seq<Filed>, key: Seq<char>, n: int) -> (at: int)
    requires
        0 <= n < candidates(filed, key).len(),
    ensures
        0 <= at < filed.len(),
        filed[at].key == key,
        filed[at].response == candidates(filed, key)[n],
    decreases filed.len(),
{
    let earlier = candidates(filed.drop_last(), key);
    if n < earlier.len() {
        lemma_candidates_origin(filed.drop_last(), key, n)
    } else {
        filed.len() - 1
    }
}

/// The index replays and never invents: every reply that it holds under a
/// key is a message that the assistant gave in one of the conversations,
/// after messages whose text is that key.
pub proof fn lemma_candidate_was_recorded(all: Seq<ConversationView>, key: Seq<char>, n: int)
    requires
        response_index(all).contains_key(key),
        0 <= n < response_index(all)[key].len(),
    ensures
        exists|c: int, i: int| recorded_at(all, c, i, key, response_index(all)[key][n]),
        response_index(all)[key][n].response_message.role == Role::Assistant,
{
    let at = lemma_candidates_origin(replies(all), key, n);
    lemma_replies_origin(all, at);
}

/// A key that no conversation gives rise to is not in the index.
pub proof fn lemma_unrecorded_key_is_absent(all: Seq<ConversationView>, key: Seq<char>)
    requires
        forall|c: int, i: int|
            0 <= c < all.len() && 0 <= i < all[c].messages.len() && all[c].messages[i].role
                == Role::Assistant ==> context_key(#[trigger] all[c].messages.take(i)) != key,
    ensures
        !response_index(all).contains_key(key),
{
    if response_index(all).contains_key(key) {
        lemma_candidate_was_recorded(all, key, 0);
    }
}

/// No key of the index is without a reply.
pub proof fn lemma_keys_have_candidates(all: Seq<ConversationView>, key: Seq<char>)
    requires
        response_index(all).contains_key(key),
    ensures
        response_index(all)[key].len() > 0,
{
}

/// The replies recorded for each context, ready for lookup. Read-only once
/// built.
pub struct HashedResponses {
    slots: StringHashMap<usize>,
    lists: Vec<Vec<Response>>,
    keys: Ghost<Seq<Seq<char>>>,
}

impl View for HashedResponses {
    type V = Map<Seq<char>, Seq<ResponseView>>;

    closed spec fn view(&self) -> Map<Seq<char>, Seq<ResponseView>> {
        shelved(self.slots@, self.lists@)
    }
}

/// The map that `slots` and `lists` stand for.
spec fn shelved(slots: Map<Seq<char>, usize>, lists: Seq<Vec<Response>>) -> Map<
    Seq<char>,
    Seq<ResponseView>,
> {
    Map::new(
        |key: Seq<char>| slots.contains_key(key),
        |key: Seq<char>| response_views(lists[slots[key] as int]@),
    )
}

/// Each key has a list of its own: `keys` names the key of each list, and
/// `slots` leads from each key to its list.
spec fn one_list_each(
    slots: Map<Seq<char>, usize>,
    lists: Seq<Vec<Response>>,
    keys: Seq<Seq<char>>,
) -> bool {
    &&& keys.len() == lists.len()
    &&& forall|p: int|
        0 <= p < keys.len() ==> slots.contains_key(#[trigger] keys[p]) && slots[keys[p]] == p
    &&& forall|key: Seq<char>| #[trigger]
        slots.contains_key(key) ==> slots[key] < lists.len() && keys[slots[key] as int] == key
}

/// `slots` and `lists` hold exactly the replies in `filed`, each key with a
/// list of its own.
spec fn shelves(
    slots: Map<Seq<char>, usize>,
    lists: Seq<Vec<Response>>,
    keys: Seq<Seq<char>>,
    filed: Seq<Filed>,
) -> bool {
    &&& one_list_each(slots, lists, keys)
    &&& forall|key: Seq<char>|
        slots.contains_key(key) <==> (#[trigger] candidates(filed, key)).len() > 0
    &&& forall|key: Seq<char>| #[trigger]
        slots.contains_key(key) ==> response_views(lists[slots[key] as int]@) == candidates(
            filed,
            key,
        )
}

impl HashedResponses {
    #[verifier::type_invariant]
    spec fn stocked(&self) -> bool {
        &&& one_list_each(self.slots@, self.lists@, self.keys@)
        &&& forall|p: int| 0 <= p < self.lists@.len() ==> (#[trigger] self.lists@[p])@.len() > 0
    }

    /// How many keys there are.
    pub fn len(&self) -> (n: usize)
        ensures
            n == self@.len(),
            self@.dom().finite(),
    {
        proof {
            use_type_invariant(self);
            let keys = self.keys@;
            assert(keys.no_duplicates());
            assert(self@.dom() =~= keys.to_set());
            keys.unique_seq_to_set();
            seq_to_set_is_finite(keys);
        }
        self.lists.len()
    }

    /// One of the replies recorded for a key, each with the same chance, and
    /// nothing where the key is not in the index. Two lookups of one key may
    /// return different replies.
    pub fn lookup(&self, key: &str) -> (found: Option<&Response>)
        ensures
            match found {
                Some(response) => self@.contains_key(key@) && self@[key@].contains(response@),
                None => !self@.contains_key(key@),
            },
    {
        match self.candidates_for(key) {
            Some(valid_responses) => {
                let chosen = choose_one(valid_responses.as_slice());
                proof {
                    let i = choose|i: int|
                        0 <= i < valid_responses@.len() && valid_responses@[i] == *chosen->0;
                    assert(self@[key@][i] == chosen->0@);
                }
                chosen
            },
            None => None,
        }
    }

    /// All the replies recorded for a key.
    pub fn candidates_for(&self, key: &str) -> (found: Option<&Vec<Response>>)
        ensures
            match found {
                Some(list) => self@.contains_key(key@) && self@[key@] == response_views(list@)
                    && list@.len() > 0,
                None => !self@.contains_key(key@),
            },
    {
        proof {
            use_type_invariant(self);
        }
        match self.slots.get(key) {
            Some(slot) => Some(&self.lists[*slot]),
            None => None,
        }
    }
}

/// Files every reply of the assistant under the text of the messages before
/// it. The replies under one key stand in the order of their conversations,
/// and those of one conversation in the order of its messages.
pub fn preprocess_hashed_responses(conversations_data: &Arc<Conversations>) -> (index: Arc<
    HashedResponses,
>)
    ensures
        index@ == response_index(conversations_data@),
        forall|key: Seq<char>| index@.contains_key(key) ==> index@[key].len() > 0,
{
    let all = conversations_data.conversations();
    let mut slots: StringHashMap<usize> = StringHashMap::new();
    let mut lists: Vec<Vec<Response>> = Vec::new();
    let ghost given = conversation_views(all@);
    let ghost mut keys: Seq<Seq<char>> = Seq::empty();
    let mut c: usize = 0;
    while c < all.len()
        invariant
            c <= all.len(),
            given == conversation_views(all@),
            shelves(slots@, lists@, keys, replies(given.take(c as int))),
        decreases all.len() - c,
    {
        let conversation = &all[c];
        let ghost done = replies(given.take(c as int));
        let ghost messages = views(conversation.messages@);
        let ghost id = conversation.id@;
        let mut string_until_now = String::new();
        let mut i: usize = 0;
        while i < conversation.messages.len()
            invariant
                i <= conversation.messages.len(),
                messages == views(conversation.messages@),
                id == conversation.id@,
                string_until_now@ == context_key(messages.take(i as int)),
                shelves(slots@, lists@, keys, done + replies_in(id, messages.take(i as int))),
            decreases conversation.messages.len() - i,
        {
            let message = &conversation.messages[i];
            let ghost before = done + replies_in(id, messages.take(i as int));
            proof {
                assert(messages.take(i + 1).drop_last() == messages.take(i as int));
                lemma_context_key_step(messages, i as int);
            }
            if message.role == Role::Assistant {
                let response = Response {
                    id: conversation.id.clone(),
                    response_message: message.clone(),
                };
                let ghost entry = filed_at(id, messages.take(i + 1), i as int);
                let ghost after = before.push(entry);
                proof {
                    assert(after.drop_last() == before);
                    assert forall|key: Seq<char>| #[trigger]
                        candidates(after, key) == if key == entry.key {
                            candidates(before, key).push(entry.response)
                        } else {
                            candidates(before, key)
                        } by {}
                }
                let found = match slots.get(string_until_now.as_str()) {
                    Some(slot) => Some(*slot),
                    None => None,
                };
                match found {
                    Some(slot) => {
                        let ghost old_lists = lists@;
                        lists[slot].push(response);
                        proof {
                            assert(response_views(lists@[slot as int]@) == response_views(
                                old_lists[slot as int]@,
                            ).push(entry.response));
                            assert forall|key: Seq<char>| #[trigger]
                                slots@.contains_key(key) implies response_views(
                                lists@[slots@[key] as int]@,
                            ) == candidates(after, key) by {}
                        }
                    },
                    None => {
                        let ghost old_lists = lists@;
                        slots.insert(string_until_now.clone(), lists.len());
                        let mut list: Vec<Response> = Vec::new();
                        list.push(response);
                        lists.push(list);
                        proof {
                            keys = keys.push(entry.key);
                            assert(response_views(lists@[old_lists.len() as int]@)
                                == Seq::<ResponseView>::empty().push(entry.response));
                            assert forall|key: Seq<char>| #[trigger]
                                slots@.contains_key(key) implies response_views(
                                lists@[slots@[key] as int]@,
                            ) == candidates(after, key) by {}
                        }
                    },
                }
            }
            string_until_now.append(message.content.as_str());
            i = i + 1;
        }
        proof {
            assert(messages.take(i as int) == messages);
            assert(given.take(c + 1).drop_last() == given.take(c as int));
        }
        c = c + 1;
    }
    proof {
        assert(given.take(c as int) == given);
        assert forall|p: int| 0 <= p < lists@.len() implies (#[trigger] lists@[p])@.len() > 0 by {
            assert(slots@.contains_key(keys[p]));
        }
    }
    Arc::new(HashedResponses { slots, lists, keys: Ghost(keys) })
}

} // verus!

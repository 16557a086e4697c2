//! Reading a corpus: a JSON array of records, each with an `id` and the
//! messages of a fragment under `conversations`.
//!
//! A message names its speaker under `role` or `from` and holds its text
//! under `content` or `value`. A corpus is read as a whole or not at all: the
//! first record that is not as it should be rejects it.

use crate::conversations::{fragment_views, merge, merged, Conversations, ConversationView};
use crate::conversations::{FragmentView, RawFragment};
use crate::error::IngestError;
use crate::json::{json_document, read_json, Json};
use crate::message::{views, Message, MessageView};
use crate::role::{parse_role, role_of};
use vstd::prelude::*;

verus! {

/// The member of an object that has the given name; the first, where several
/// have it.
pub open spec fn member(members: Seq<(String, Json)>, name: Seq<char>) -> Option<Json>
    decreases members.len(),
{
    if members.len() == 0 {
        None
    } else if members[0].0@ == name {
        Some(members[0].1)
    } else {
        member(members.drop_first(), name)
    }
}

/// The text that a JSON string holds.
pub open spec fn text_of(json: Json) -> Option<Seq<char>> {
    match json {
        Json::Text(text) => Some(text@),
        _ => None,
    }
}

/// The text that an object holds under one of two names. It has to be there
/// under exactly one of them.
pub open spec fn text_under(members: Seq<(String, Json)>, name: Seq<char>, alias: Seq<char>)
    -> Option<Seq<char>> {
    match (member(members, name), member(members, alias)) {
        (Some(json), None) => text_of(json),
        (None, Some(json)) => text_of(json),
        _ => None,
    }
}

/// The message that a JSON value stands for. A value of another shape is
/// malformed; a well-shaped one whose speaker is no known name is rejected
/// for that.
pub open spec fn message_in(json: Json) -> Result<MessageView, IngestError> {
    match json {
        Json::Object(members) => match (
            text_under(members@, "role"@, "from"@),
            text_under(members@, "content"@, "value"@),
        ) {
            (Some(speaker), Some(content)) => match role_of(speaker) {
                Some(role) => Ok(MessageView { role: role, content: content }),
                None => Err(IngestError::UnknownRoleAlias),
            },
            _ => Err(IngestError::MalformedRecord),
        },
        _ => Err(IngestError::MalformedRecord),
    }
}

/// The messages that a run of JSON values stands for, or the error of the
/// first that stands for none.
pub open spec fn messages_in(items: Seq<Json>) -> Result<Seq<MessageView>, IngestError>
    decreases items.len(),
{
    if items.len() == 0 {
        Ok(Seq::empty())
    } else {
        match messages_in(items.drop_last()) {
            Ok(messages) => match message_in(items.last()) {
                Ok(message) => Ok(messages.push(message)),
                Err(error) => Err(error),
            },
            Err(error) => Err(error),
        }
    }
}

/// The fragment that a JSON value stands for.
pub open spec fn fragment_in(json: Json) -> Result<FragmentView, IngestError> {
    match json {
        Json::Object(members) => match (
            member(members@, "id"@),
            member(members@, "conversations"@),
        ) {
            (Some(Json::Text(raw_id)), Some(Json::Array(items))) => match messages_in(items@) {
                Ok(messages) => Ok(FragmentView { raw_id: raw_id@, messages: messages }),
                Err(error) => Err(error),
            },
            _ => Err(IngestError::MalformedRecord),
        },
        _ => Err(IngestError::MalformedRecord),
    }
}

/// The fragments that a run of JSON values stands for, or the error of the
/// first that stands for none.
pub open spec fn fragments_in(items: Seq<Json>) -> Result<Seq<FragmentView>, IngestError>
    decreases items.len(),
{
    if items.len() == 0 {
        Ok(Seq::empty())
    } else {
        match fragments_in(items.drop_last()) {
            Ok(fragments) => match fragment_in(items.last()) {
                Ok(fragment) => Ok(fragments.push(fragment)),
                Err(error) => Err(error),
            },
            Err(error) => Err(error),
        }
    }
}

/// The fragments of a corpus.
pub open spec fn corpus_in(json: Json) -> Result<Seq<FragmentView>, IngestError> {
    match json {
        Json::Array(items) => fragments_in(items@),
        _ => Err(IngestError::MalformedRecord),
    }
}

/// The conversations that the text of a corpus adds up to.
pub open spec fn conversations_in(text: Seq<char>) -> Result<Seq<ConversationView>, IngestError> {
    match json_document(text) {
        Some(json) => match corpus_in(json) {
            Ok(fragments) => Ok(merged(fragments)),
            Err(error) => Err(error),
        },
        None => Err(IngestError::MalformedRecord),
    }
}

/// An error at one place is the error of every run that reaches that place.
pub proof fn lemma_messages_in_rejected(items: Seq<Json>, i: int)
    requires
        0 <= i <= items.len(),
        messages_in(items.take(i)) is Err,
    ensures
        messages_in(items) == messages_in(items.take(i)),
    decreases items.len() - i,
{
    if i < items.len() {
        assert(items.take(i + 1).drop_last() == items.take(i));
        lemma_messages_in_rejected(items, i + 1);
    } else {
        assert(items.take(i) == items);
    }
}

/// An error at one place is the error of every run that reaches that place.
pub proof fn lemma_fragments_in_rejected(items: Seq<Json>, i: int)
    requires
        0 <= i <= items.len(),
        fragments_in(items.take(i)) is Err,
    ensures
        fragments_in(items) == fragments_in(items.take(i)),
    decreases items.len() - i,
{
    if i < items.len() {
        assert(items.take(i + 1).drop_last() == items.take(i));
        lemma_fragments_in_rejected(items, i + 1);
    } else {
        assert(items.take(i) == items);
    }
}

/// A corpus is read as a whole or not at all, and the first record that
/// stands for no fragment decides: where every record before place `k` stands
/// for a fragment and the one at `k` for none, the corpus is rejected with
/// the error of that record.
pub proof fn lemma_first_bad_record_decides(items: Seq<Json>, k: int)
    requires
        0 <= k < items.len(),
        forall|j: int| 0 <= j < k ==> (#[trigger] fragment_in(items[j])) is Ok,
        fragment_in(items[k]) is Err,
    ensures
        fragments_in(items) == Err::<Seq<FragmentView>, IngestError>(
            fragment_in(items[k])->Err_0,
        ),
{
    lemma_fragments_in_accepted(items, k);
    assert(items.take(k + 1).drop_last() == items.take(k));
    lemma_fragments_in_rejected(items, k + 1);
}

/// A run of records that each stand for a fragment is read.
pub proof fn lemma_fragments_in_accepted(items: Seq<Json>, k: int)
    requires
        0 <= k <= items.len(),
        forall|j: int| 0 <= j < k ==> (#[trigger] fragment_in(items[j])) is Ok,
    ensures
        fragments_in(items.take(k)) is Ok,
        fragments_in(items.take(k))->Ok_0.len() == k,
    decreases k,
{
    if k > 0 {
        lemma_fragments_in_accepted(items, k - 1);
        assert(items.take(k).drop_last() == items.take(k - 1));
    }
}

/// A message whose speaker is no known name rejects its record for that,
/// where the messages before it are read.
pub proof fn lemma_unknown_speaker_rejects(items: Seq<Json>, k: int)
    requires
        0 <= k < items.len(),
        forall|j: int| 0 <= j < k ==> (#[trigger] message_in(items[j])) is Ok,
        message_in(items[k]) == Err::<MessageView, IngestError>(IngestError::UnknownRoleAlias),
    ensures
        messages_in(items) == Err::<Seq<MessageView>, IngestError>(
            IngestError::UnknownRoleAlias,
        ),
{
    lemma_messages_in_accepted(items, k);
    assert(items.take(k + 1).drop_last() == items.take(k));
    lemma_messages_in_rejected(items, k + 1);
}

/// A run of values that each stand for a message is read.
pub proof fn lemma_messages_in_accepted(items: Seq<Json>, k: int)
    requires
        0 <= k <= items.len(),
        forall|j: int| 0 <= j < k ==> (#[trigger] message_in(items[j])) is Ok,
    ensures
        messages_in(items.take(k)) is Ok,
        messages_in(items.take(k))->Ok_0.len() == k,
    decreases k,
{
    if k > 0 {
        lemma_messages_in_accepted(items, k - 1);
        assert(items.take(k).drop_last() == items.take(k - 1));
    }
}

/// Finds the member of an object that has the given name.
pub fn find_member<'a>(members: &'a Vec<(String, Json)>, name: &str) -> (found: Option<&'a Json>)
    ensures
        match found {
            Some(json) => member(members@, name@) == Some(*json),
            None => member(members@, name@) is None,
        },
{
    let mut i: usize = 0;
    proof {
        assert(members@.skip(0) == members@);
    }
    while i < members.len()
        invariant
            i <= members.len(),
            member(members@, name@) == member(members@.skip(i as int), name@),
        decreases members.len() - i,
    {
        proof {
            assert(members@.skip(i as int).drop_first() == members@.skip(i + 1));
        }
        if members[i].0.as_str().eq(name) {
            return Some(&members[i].1);
        }
        i = i + 1;
    }
    None
}

/// Reads the text that an object holds under one of two names.
pub fn find_text<'a>(members: &'a Vec<(String, Json)>, name: &str, alias: &str) -> (found: Option<
    &'a String,
>)
    ensures
        match found {
            Some(text) => text_under(members@, name@, alias@) == Some(text@),
            None => text_under(members@, name@, alias@) is None,
        },
{
    match (find_member(members, name), find_member(members, alias)) {
        (Some(Json::Text(text)), None) => Some(text),
        (None, Some(Json::Text(text))) => Some(text),
        _ => None,
    }
}

/// Reads one message.
pub fn decode_message(json: &Json) -> (decoded: Result<Message, IngestError>)
    ensures
        match decoded {
            Ok(message) => message_in(*json) == Ok::<MessageView, IngestError>(message@),
            Err(error) => message_in(*json) == Err::<MessageView, IngestError>(error),
        },
{
    match json {
        Json::Object(members) => {
            match (find_text(members, "role", "from"), find_text(members, "content", "value")) {
                (Some(speaker), Some(content)) => match parse_role(speaker.as_str()) {
                    Ok(role) => Ok(Message { role: role, content: content.clone() }),
                    Err(error) => Err(error),
                },
                _ => Err(IngestError::MalformedRecord),
            }
        },
        _ => Err(IngestError::MalformedRecord),
    }
}

/// Reads the messages of a fragment.
pub fn decode_messages(items: &Vec<Json>) -> (decoded: Result<Vec<Message>, IngestError>)
    ensures
        match decoded {
            Ok(messages) => messages_in(items@) == Ok::<Seq<MessageView>, IngestError>(
                views(messages@),
            ),
            Err(error) => messages_in(items@) == Err::<Seq<MessageView>, IngestError>(error),
        },
{
    let mut messages: Vec<Message> = Vec::new();
    let mut i: usize = 0;
    proof {
        assert(views(messages@) == Seq::<MessageView>::empty());
    }
    while i < items.len()
        invariant
            i <= items.len(),
            messages_in(items@.take(i as int)) == Ok::<Seq<MessageView>, IngestError>(
                views(messages@),
            ),
        decreases items.len() - i,
    {
        proof {
            assert(items@.take(i + 1).drop_last() == items@.take(i as int));
        }
        match decode_message(&items[i]) {
            Ok(message) => {
                let ghost earlier = views(messages@);
                messages.push(message);
                assert(views(messages@) == earlier.push(message@));
            },
            Err(error) => {
                proof {
                    lemma_messages_in_rejected(items@, i + 1);
                }
                return Err(error);
            },
        }
        i = i + 1;
    }
    proof {
        assert(items@.take(i as int) == items@);
    }
    Ok(messages)
}

/// Reads one record.
pub fn decode_fragment(json: &Json) -> (decoded: Result<RawFragment, IngestError>)
    ensures
        match decoded {
            Ok(fragment) => fragment_in(*json) == Ok::<FragmentView, IngestError>(fragment@),
            Err(error) => fragment_in(*json) == Err::<FragmentView, IngestError>(error),
        },
{
    match json {
        Json::Object(members) => {
            match (find_member(members, "id"), find_member(members, "conversations")) {
                (Some(Json::Text(raw_id)), Some(Json::Array(items))) => {
                    match decode_messages(items) {
                        Ok(messages) => Ok(
                            RawFragment { raw_id: raw_id.clone(), messages: messages },
                        ),
                        Err(error) => Err(error),
                    }
                },
                _ => Err(IngestError::MalformedRecord),
            }
        },
        _ => Err(IngestError::MalformedRecord),
    }
}

/// Reads the records of a corpus, in order.
pub fn decode_fragments(items: &Vec<Json>) -> (decoded: Result<Vec<RawFragment>, IngestError>)
    ensures
        match decoded {
            Ok(fragments) => fragments_in(items@) == Ok::<Seq<FragmentView>, IngestError>(
                fragment_views(fragments@),
            ),
            Err(error) => fragments_in(items@) == Err::<Seq<FragmentView>, IngestError>(error),
        },
{
    let mut fragments: Vec<RawFragment> = Vec::new();
    let mut i: usize = 0;
    proof {
        assert(fragment_views(fragments@) == Seq::<FragmentView>::empty());
    }
    while i < items.len()
        invariant
            i <= items.len(),
            fragments_in(items@.take(i as int)) == Ok::<Seq<FragmentView>, IngestError>(
                fragment_views(fragments@),
            ),
        decreases items.len() - i,
    {
        proof {
            assert(items@.take(i + 1).drop_last() == items@.take(i as int));
        }
        match decode_fragment(&items[i]) {
            Ok(fragment) => {
                let ghost earlier = fragment_views(fragments@);
                fragments.push(fragment);
                assert(fragment_views(fragments@) == earlier.push(fragment@));
            },
            Err(error) => {
                proof {
                    lemma_fragments_in_rejected(items@, i + 1);
                }
                return Err(error);
            },
        }
        i = i + 1;
    }
    proof {
        assert(items@.take(i as int) == items@);
    }
    Ok(fragments)
}

/// Reads a corpus: an array of records.
pub fn decode_corpus(json: &Json) -> (decoded: Result<Vec<RawFragment>, IngestError>)
    ensures
        match decoded {
            Ok(fragments) => corpus_in(*json) == Ok::<Seq<FragmentView>, IngestError>(
                fragment_views(fragments@),
            ),
            Err(error) => corpus_in(*json) == Err::<Seq<FragmentView>, IngestError>(error),
        },
{
    match json {
        Json::Array(items) => decode_fragments(items),
        _ => Err(IngestError::MalformedRecord),
    }
}

/// Reads the text of a corpus and merges its fragments into conversations.
pub fn build_conversations_data(text: &str) -> (built: Result<Conversations, IngestError>)
    ensures
        match built {
            Ok(conversations) => conversations_in(text@) == Ok::<
                Seq<ConversationView>,
                IngestError,
            >(conversations@),
            Err(error) => conversations_in(text@) == Err::<Seq<ConversationView>, IngestError>(
                error,
            ),
        },
{
    match read_json(text) {
        Ok(json) => match decode_corpus(&json) {
            Ok(fragments) => Ok(merge(fragments)),
            Err(error) => Err(error),
        },
        Err(error) => Err(error),
    }
}

} // verus!

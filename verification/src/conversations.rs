//! Merging the fragments of a corpus into whole conversations.
//!
//! A corpus stores a long conversation as several records whose ids share the
//! part before the first `_`. Merging joins them again, in the order in which
//! they are met, and drops the message that two neighbouring fragments share.

use crate::faults::{corrupt_from, corrupted};
use crate::message::{views, Message, MessageView};
use vstd::hash_map::StringHashMap;
use vstd::prelude::*;

verus! {

broadcast use vstd::string::group_string_axioms;

/// One record of a corpus: a part of a conversation, or all of it.
#[derive(Debug)]
pub struct RawFragment {
    pub raw_id: String,
    pub messages: Vec<Message>,
}

/// What a fragment is: the characters of its raw id, and its messages.
pub struct FragmentView {
    pub raw_id: Seq<char>,
    pub messages: Seq<MessageView>,
}

impl View for RawFragment {
    type V = FragmentView;

    open spec fn view(&self) -> FragmentView {
        FragmentView { raw_id: self.raw_id@, messages: views(self.messages@) }
    }
}

/// What a run of fragments is.
pub open spec fn fragment_views(fragments: Seq<RawFragment>) -> Seq<FragmentView> {
    Seq::new(fragments.len(), |i: int| fragments[i]@)
}

/// A whole conversation under its canonical id.
#[derive(Debug)]
pub struct Conversation {
    pub id: String,
    pub messages: Vec<Message>,
}

/// What a conversation is: the characters of its id, and its messages.
pub struct ConversationView {
    pub id: Seq<char>,
    pub messages: Seq<MessageView>,
}

impl View for Conversation {
    type V = ConversationView;

    open spec fn view(&self) -> ConversationView {
        ConversationView { id: self.id@, messages: views(self.messages@) }
    }
}

/// What a run of conversations is.
pub open spec fn conversation_views(all: Seq<Conversation>) -> Seq<ConversationView> {
    Seq::new(all.len(), |i: int| all[i]@)
}

/// How many characters of a raw id stand before its first `_`; all of them
/// where it has none.
pub open spec fn id_length(raw_id: Seq<char>) -> nat
    decreases raw_id.len(),
{
    if raw_id.len() == 0 || raw_id[0] == '_' {
        0
    } else {
        1 + id_length(raw_id.drop_first())
    }
}

/// The id of the conversation that a fragment belongs to.
pub open spec fn canonical_id(raw_id: Seq<char>) -> Seq<char> {
    raw_id.take(id_length(raw_id) as int)
}

/// `id_length` is the one place that has no `_` before it and either ends
/// the id or holds a `_`.
pub proof fn lemma_id_length(raw_id: Seq<char>, n: int)
    requires
        0 <= n <= raw_id.len(),
        forall|j: int| 0 <= j < n ==> raw_id[j] != '_',
        n < raw_id.len() ==> raw_id[n] == '_',
    ensures
        id_length(raw_id) == n,
    decreases raw_id.len(),
{
    if n > 0 {
        lemma_id_length(raw_id.drop_first(), n - 1);
    }
}

/// Cuts a raw id at its first `_`.
pub fn canonical_id_of(raw_id: &str) -> (id: String)
    ensures
        id@ == canonical_id(raw_id@),
{
    let total = raw_id.unicode_len();
    let mut n: usize = 0;
    let mut open: bool = true;
    for c in it: raw_id.chars()
        invariant
            it.seq() == raw_id@,
            raw_id@.len() == total,
            n <= it.index(),
            open ==> n == it.index(),
            !open ==> n < raw_id@.len() && raw_id@[n as int] == '_',
            forall|j: int| 0 <= j < n ==> raw_id@[j] != '_',
    {
        if open {
            if c == '_' {
                open = false;
            } else {
                n = n + 1;
            }
        }
    }
    proof {
        lemma_id_length(raw_id@, n as int);
    }
    raw_id.substring_char(0, n).to_owned()
}

/// Where the conversation with the given id stands, if there is one.
pub open spec fn position_of(all: Seq<ConversationView>, id: Seq<char>) -> Option<int>
    decreases all.len(),
{
    if all.len() == 0 {
        None
    } else {
        match position_of(all.drop_last(), id) {
            Some(i) => Some(i),
            None => if all.last().id == id {
                Some(all.len() - 1)
            } else {
                None
            },
        }
    }
}

/// The messages of the conversation with the given id, if there is one.
pub open spec fn messages_of(all: Seq<ConversationView>, id: Seq<char>) -> Option<
    Seq<MessageView>,
> {
    match position_of(all, id) {
        Some(i) => Some(all[i].messages),
        None => None,
    }
}

/// No two conversations have the same id.
pub open spec fn distinct_ids(all: Seq<ConversationView>) -> bool {
    forall|i: int, j: int| 0 <= i < j < all.len() ==> all[i].id != all[j].id
}

/// The fragment begins with the message that the conversation ends with.
pub open spec fn shares_boundary(existing: Seq<MessageView>, incoming: Seq<MessageView>) -> bool {
    existing.len() > 0 && incoming.len() > 0 && existing.last() == incoming[0]
}

/// A conversation followed by the next fragment of it. Where the fragment
/// begins with the message that the conversation ends with, that message is
/// kept once.
pub open spec fn joined(existing: Seq<MessageView>, incoming: Seq<MessageView>) -> Seq<
    MessageView,
> {
    if shares_boundary(existing, incoming) {
        existing + incoming.skip(1)
    } else {
        existing + incoming
    }
}

/// The conversations after one more fragment: it starts a conversation where
/// its id is new, and continues the one that has its id otherwise.
pub open spec fn absorb(all: Seq<ConversationView>, fragment: FragmentView) -> Seq<
    ConversationView,
> {
    let id = canonical_id(fragment.raw_id);
    match position_of(all, id) {
        Some(i) => all.update(
            i,
            ConversationView { id: id, messages: joined(all[i].messages, fragment.messages) },
        ),
        None => all.push(ConversationView { id: id, messages: fragment.messages }),
    }
}

/// The conversations that a run of fragments adds up to, in the order in
/// which their ids first occur.
pub open spec fn merged(fragments: Seq<FragmentView>) -> Seq<ConversationView>
    decreases fragments.len(),
{
    if fragments.len() == 0 {
        Seq::empty()
    } else {
        absorb(merged(fragments.drop_last()), fragments.last())
    }
}

/// What `position_of` returns: the first place that holds the id.
pub proof fn lemma_position_of(all: Seq<ConversationView>, id: Seq<char>)
    ensures
        match position_of(all, id) {
            Some(i) => 0 <= i < all.len() && all[i].id == id && forall|j: int|
                0 <= j < i ==> all[j].id != id,
            None => forall|j: int| 0 <= j < all.len() ==> all[j].id != id,
        },
    decreases all.len(),
{
    if all.len() > 0 {
        lemma_position_of(all.drop_last(), id);
        assert forall|j: int| 0 <= j < all.len() - 1 implies all.drop_last()[j] == all[j] by {}
    }
}

/// Where ids are distinct, each conversation is found under its own id.
pub proof fn lemma_found_under_own_id(all: Seq<ConversationView>, i: int)
    requires
        distinct_ids(all),
        0 <= i < all.len(),
    ensures
        position_of(all, all[i].id) == Some(i),
        messages_of(all, all[i].id) == Some(all[i].messages),
{
    lemma_position_of(all, all[i].id);
}

/// One more fragment keeps ids distinct.
pub proof fn lemma_absorb_distinct(all: Seq<ConversationView>, fragment: FragmentView)
    requires
        distinct_ids(all),
    ensures
        distinct_ids(absorb(all, fragment)),
{
    let id = canonical_id(fragment.raw_id);
    lemma_position_of(all, id);
}

/// Merged conversations never share an id.
pub proof fn lemma_merged_distinct(fragments: Seq<FragmentView>)
    ensures
        distinct_ids(merged(fragments)),
    decreases fragments.len(),
{
    if fragments.len() > 0 {
        lemma_merged_distinct(fragments.drop_last());
        lemma_absorb_distinct(merged(fragments.drop_last()), fragments.last());
    }
}

/// `later` holds every conversation of `earlier` at its place, each with the
/// messages it had at its beginning, in their order.
pub open spec fn extends(earlier: Seq<ConversationView>, later: Seq<ConversationView>) -> bool {
    &&& earlier.len() <= later.len()
    &&& forall|p: int|
        0 <= p < earlier.len() ==> (#[trigger] later[p]).id == earlier[p].id
            && earlier[p].messages.is_prefix_of(later[p].messages)
}

/// A fragment goes to the end of its conversation and its messages keep
/// their order. Its first message is left out if and only if it is the
/// message that the conversation ends with.
pub proof fn lemma_joined_appends(existing: Seq<MessageView>, incoming: Seq<MessageView>)
    ensures
        existing.is_prefix_of(joined(existing, incoming)),
        joined(existing, incoming).skip(existing.len() as int) == if shares_boundary(
            existing,
            incoming,
        ) {
            incoming.skip(1)
        } else {
            incoming
        },
{
}

/// One more fragment moves no conversation and takes no message away.
pub proof fn lemma_absorb_extends(all: Seq<ConversationView>, fragment: FragmentView)
    ensures
        extends(all, absorb(all, fragment)),
{
    let id = canonical_id(fragment.raw_id);
    lemma_position_of(all, id);
    match position_of(all, id) {
        Some(i) => {
            lemma_joined_appends(all[i].messages, fragment.messages);
        },
        None => {},
    }
}

/// Merging never reorders: what the first `n` fragments add up to stays, at
/// its place and in its order, whatever fragments follow.
pub proof fn lemma_merged_extends(fragments: Seq<FragmentView>, n: int)
    requires
        0 <= n <= fragments.len(),
    ensures
        extends(merged(fragments.take(n)), merged(fragments)),
    decreases fragments.len() - n,
{
    if n == fragments.len() {
        assert(fragments.take(n) == fragments);
    } else {
        assert(fragments.take(n + 1).drop_last() == fragments.take(n));
        lemma_absorb_extends(merged(fragments.take(n)), fragments[n]);
        lemma_merged_extends(fragments, n + 1);
    }
}

/// The conversations of a corpus, each under its canonical id, in the order
/// in which the ids first occurred. Read-only once built.
pub struct Conversations {
    entries: Vec<Conversation>,
    positions: StringHashMap<usize>,
}

/// `positions` maps each id in `entries` to its place, and nothing else.
spec fn indexed(entries: Seq<Conversation>, positions: Map<Seq<char>, usize>) -> bool {
    &&& forall|i: int|
        0 <= i < entries.len() ==> positions.contains_key(#[trigger] entries[i].id@)
            && positions[entries[i].id@] == i
    &&& forall|id: Seq<char>| #[trigger]
        positions.contains_key(id) ==> positions[id] < entries.len()
            && entries[positions[id] as int].id@ == id
}

proof fn lemma_indexed_position(
    entries: Seq<Conversation>,
    positions: Map<Seq<char>, usize>,
    id: Seq<char>,
)
    requires
        indexed(entries, positions),
    ensures
        distinct_ids(conversation_views(entries)),
        position_of(conversation_views(entries), id) == if positions.contains_key(id) {
            Some(positions[id] as int)
        } else {
            None
        },
{
    let all = conversation_views(entries);
    lemma_position_of(all, id);
    if positions.contains_key(id) {
        assert(all[positions[id] as int].id == id);
    }
}

impl View for Conversations {
    type V = Seq<ConversationView>;

    closed spec fn view(&self) -> Seq<ConversationView> {
        conversation_views(self.entries@)
    }
}

impl Conversations {
    #[verifier::type_invariant]
    spec fn consistent(&self) -> bool {
        indexed(self.entries@, self.positions@)
    }

    /// The conversations in the order in which their ids first occurred.
    pub fn conversations(&self) -> (all: &Vec<Conversation>)
        ensures
            conversation_views(all@) == self@,
            distinct_ids(self@),
    {
        proof {
            use_type_invariant(self);
            lemma_indexed_position(self.entries@, self.positions@, Seq::empty());
        }
        &self.entries
    }

    /// How many conversations there are.
    pub fn len(&self) -> (n: usize)
        ensures
            n == self@.len(),
    {
        self.entries.len()
    }

    /// Marks every message of the conversation at place `c` from place
    /// `start` on as faulty. A place that holds no conversation changes
    /// nothing.
    pub fn corrupt_from(self, c: usize, start: usize) -> (out: Conversations)
        ensures
            out@ == if c < self@.len() {
                self@.update(
                    c as int,
                    ConversationView {
                        id: self@[c as int].id,
                        messages: corrupted(self@[c as int].messages, start as int),
                    },
                )
            } else {
                self@
            },
    {
        proof {
            use_type_invariant(&self);
        }
        let Conversations { entries, positions } = self;
        let mut entries = entries;
        if c < entries.len() {
            corrupt_from(&mut entries[c].messages, start);
        }
        Conversations { entries, positions }
    }

    /// The messages of the conversation with the given id.
    pub fn get_conversation(&self, id: &String) -> (found: Option<&Vec<Message>>)
        ensures
            match found {
                Some(messages) => messages_of(self@, id@) == Some(views(messages@)),
                None => messages_of(self@, id@) is None,
            },
    {
        proof {
            use_type_invariant(self);
            lemma_indexed_position(self.entries@, self.positions@, id@);
        }
        match self.positions.get(id.as_str()) {
            Some(position) => Some(&self.entries[*position].messages),
            None => None,
        }
    }
}

/// Merges the fragments of a corpus, in the order given, into conversations.
pub fn merge(fragments: Vec<RawFragment>) -> (all: Conversations)
    ensures
        all@ == merged(fragment_views(fragments@)),
        distinct_ids(all@),
{
    let ghost given = fragment_views(fragments@);
    let mut entries: Vec<Conversation> = Vec::new();
    let mut positions: StringHashMap<usize> = StringHashMap::new();
    for fragment in it: fragments
        invariant
            it.seq() == fragments@,
            given == fragment_views(fragments@),
            indexed(entries@, positions@),
            conversation_views(entries@) == merged(given.take(it.index() as int)),
    {
        proof {
            assert(given.take(it.index() + 1).drop_last() == given.take(it.index() as int));
        }
        let RawFragment { raw_id, messages } = fragment;
        let mut incoming = messages;
        let id = canonical_id_of(raw_id.as_str());
        proof {
            lemma_indexed_position(entries@, positions@, id@);
        }
        let found = match positions.get(id.as_str()) {
            Some(position) => Some(*position),
            None => None,
        };
        match found {
            Some(position) => {
                let ghost existing = entries@[position as int];
                let ghost arrived = incoming@;
                let held = entries[position].messages.len();
                if incoming.len() > 0 && held > 0 && entries[position].messages[held - 1]
                    == incoming[0] {
                    incoming.remove(0);
                }
                entries[position].messages.append(&mut incoming);
                assert(views(entries@[position as int].messages@) == joined(
                    views(existing.messages@),
                    views(arrived),
                ));
            },
            None => {
                positions.insert(id.clone(), entries.len());
                entries.push(Conversation { id, messages: incoming });
            },
        }
    }
    proof {
        assert(given.take(fragments@.len() as int) == given);
        lemma_merged_distinct(given);
    }
    Conversations { entries, positions }
}

} // verus!

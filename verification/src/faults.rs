//! Faults put into conversations on purpose, so that what checks replies can
//! be tried against replies that are wrong.
//!
//! A faulty conversation has the word `error` at the end of every message
//! from some place on. Roles, places and the number of messages stay.

use crate::conversations::Conversations;
use crate::message::{views, Message, MessageView};
use crate::random::{draw_below, draw_ratio};
use rand::rngs::StdRng;
use vstd::prelude::*;
use vstd::string::StringExecFns;

verus! {

/// A message with the mark of a fault at the end of its text.
pub open spec fn marked(message: MessageView) -> MessageView {
    MessageView { role: message.role, content: message.content + "error"@ }
}

/// The messages with every one from place `start` on marked.
pub open spec fn corrupted(messages: Seq<MessageView>, start: int) -> Seq<MessageView> {
    Seq::new(
        messages.len(),
        |i: int|
            if start <= i {
                marked(messages[i])
            } else {
                messages[i]
            },
    )
}

/// A faulty conversation has as many messages as before, each with the role
/// it had; the text of a message before `start` is as it was, and the text of
/// a message from `start` on is as it was with `error` after it.
pub proof fn lemma_corrupted_shape(messages: Seq<MessageView>, start: int)
    ensures
        corrupted(messages, start).len() == messages.len(),
        forall|i: int|
            0 <= i < messages.len() ==> (#[trigger] corrupted(messages, start)[i]).role
                == messages[i].role,
        forall|i: int|
            0 <= i < messages.len() && i < start ==> (#[trigger] corrupted(
                messages,
                start,
            )[i]).content == messages[i].content,
        forall|i: int|
            0 <= i < messages.len() && start <= i ==> (#[trigger] corrupted(
                messages,
                start,
            )[i]).content == messages[i].content + "error"@,
{
}

/// `after` is `before` made faulty from one of its places on.
pub open spec fn is_corruption(before: Seq<MessageView>, after: Seq<MessageView>) -> bool {
    exists|start: int| 0 <= start < before.len() && #[trigger] corrupted(before, start) == after
}

/// Marks every message from place `start` on.
pub fn corrupt_from(messages: &mut Vec<Message>, start: usize)
    ensures
        views(final(messages)@) == corrupted(views(old(messages)@), start as int),
{
    let mut i: usize = start;
    while i < messages.len()
        invariant
            start <= i,
            messages@.len() == old(messages)@.len(),
            forall|j: int|
                0 <= j < messages@.len() ==> (#[trigger] messages@[j])@ == if start <= j < i {
                    marked(old(messages)@[j]@)
                } else {
                    old(messages)@[j]@
                },
        decreases messages.len() - i,
    {
        messages[i].content.append("error");
        i = i + 1;
    }
}

/// How often a conversation is made faulty: `numerator` times in
/// `denominator`.
#[derive(Clone, Copy, Debug)]
pub struct FaultRate {
    numerator: u32,
    denominator: u32,
}

impl FaultRate {
    #[verifier::type_invariant]
    spec fn proper(&self) -> bool {
        0 < self.denominator && self.numerator <= self.denominator
    }

    pub closed spec fn parts(&self) -> (u32, u32) {
        (self.numerator, self.denominator)
    }

    /// The rate of `numerator` in `denominator`, where that is a chance: a
    /// `denominator` above zero and a `numerator` not above it.
    pub fn new(numerator: u32, denominator: u32) -> (rate: Option<FaultRate>)
        ensures
            match rate {
                Some(rate) => 0 < denominator && numerator <= denominator && rate.parts() == (
                    numerator,
                    denominator,
                ),
                None => denominator == 0 || numerator > denominator,
            },
    {
        if 0 < denominator && numerator <= denominator {
            Some(FaultRate { numerator, denominator })
        } else {
            None
        }
    }

    /// The rate at which every conversation is made faulty.
    pub fn always() -> (rate: FaultRate)
        ensures
            rate.parts() == (1u32, 1u32),
    {
        FaultRate { numerator: 1, denominator: 1 }
    }

    /// The rate at which no conversation is made faulty.
    pub fn never() -> (rate: FaultRate)
        ensures
            rate.parts() == (0u32, 1u32),
    {
        FaultRate { numerator: 0, denominator: 1 }
    }
}

impl Default for FaultRate {
    /// One conversation in a hundred.
    fn default() -> (rate: FaultRate)
        ensures
            rate.parts() == (1u32, 100u32),
    {
        FaultRate { numerator: 1, denominator: 100 }
    }
}

/// Makes conversations faulty at the given rate: each conversation that has
/// messages is, with that chance, marked from a place drawn among its own on.
/// At the rate of one every such conversation is marked, at the rate of zero
/// none. Ids and the order of conversations stay.
pub fn inject_faults(conversations: Conversations, rate: FaultRate, rng: &mut StdRng) -> (faulty:
    Conversations)
    ensures
        faulty@.len() == conversations@.len(),
        forall|c: int|
            0 <= c < conversations@.len() ==> {
                let before = (#[trigger] conversations@[c]);
                let after = faulty@[c];
                &&& after.id == before.id
                &&& after.messages == before.messages || is_corruption(
                    before.messages,
                    after.messages,
                )
                &&& rate.parts().0 == rate.parts().1 && before.messages.len() > 0
                    ==> is_corruption(before.messages, after.messages)
                &&& rate.parts().0 == 0 ==> after.messages == before.messages
            },
{
    proof {
        use_type_invariant(rate);
    }
    let total = conversations.len();
    let mut faulty = conversations;
    let mut c: usize = 0;
    while c < total
        invariant
            c <= total,
            total == conversations@.len(),
            0 < rate.parts().1,
            rate.parts().0 <= rate.parts().1,
            faulty@.len() == conversations@.len(),
            forall|k: int| c <= k < total ==> faulty@[k] == conversations@[k],
            forall|k: int|
                0 <= k < c ==> {
                    let before = (#[trigger] conversations@[k]);
                    let after = faulty@[k];
                    &&& after.id == before.id
                    &&& after.messages == before.messages || is_corruption(
                        before.messages,
                        after.messages,
                    )
                    &&& rate.parts().0 == rate.parts().1 && before.messages.len() > 0
                        ==> is_corruption(before.messages, after.messages)
                    &&& rate.parts().0 == 0 ==> after.messages == before.messages
                },
        decreases total - c,
    {
        let count = faulty.conversations()[c].messages.len();
        if count > 0 {
            if draw_ratio(rng, rate.numerator, rate.denominator) {
                let start = draw_below(rng, count);
                faulty = faulty.corrupt_from(c, start);
                proof {
                    assert(faulty@[c as int].messages == corrupted(
                        conversations@[c as int].messages,
                        start as int,
                    ));
                }
            }
        }
        c = c + 1;
    }
    faulty
}

} // verus!

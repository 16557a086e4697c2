use chat_replay::{
    answer, inject_faults, merge, preprocess_hashed_responses, ChatCompletionRequest,
    Conversations, FaultRate, LookupMiss, Message, RawFragment, Response, Role,
};
use rand::rngs::StdRng;
use rand::SeedableRng;
use std::sync::Arc;

fn say(role: Role, text: &str) -> Message {
    Message { role, content: text.to_string() }
}

fn sample() -> Conversations {
    let long: Vec<Message> = (0..40)
        .map(|i| say(if i % 2 == 0 { Role::User } else { Role::Assistant }, &format!("m{}", i)))
        .collect();
    merge(vec![
        RawFragment { raw_id: "a_0".to_string(), messages: long },
        RawFragment { raw_id: "empty_0".to_string(), messages: vec![] },
        RawFragment {
            raw_id: "b_0".to_string(),
            messages: vec![say(Role::System, "s"), say(Role::User, "u"), say(Role::Assistant, "a")],
        },
        RawFragment { raw_id: "c_0".to_string(), messages: vec![say(Role::User, "only")] },
    ])
}

fn snapshot(all: &Conversations) -> Vec<(String, Vec<Message>)> {
    all.conversations().iter().map(|c| (c.id.clone(), c.messages.clone())).collect()
}

/// The place from which `after` is `before` with every text marked.
fn offset(before: &Vec<Message>, after: &Vec<Message>) -> Option<usize> {
    assert_eq!(before.len(), after.len());
    (0..before.len()).find(|&start| {
        (0..before.len()).all(|i| {
            let expected = if i >= start {
                format!("{}error", before[i].content)
            } else {
                before[i].content.clone()
            };
            after[i].role == before[i].role && after[i].content == expected
        })
    })
}

#[test]
fn corrupt_from_marks_the_messages_from_a_place_on() {
    let all = sample().corrupt_from(2, 1);
    let held = snapshot(&all);
    assert_eq!(held[0], snapshot(&sample())[0]);
    assert_eq!(held[1], ("empty".to_string(), vec![]));
    assert_eq!(
        held[2],
        (
            "b".to_string(),
            vec![say(Role::System, "s"), say(Role::User, "uerror"), say(Role::Assistant, "aerror")]
        )
    );
    assert_eq!(held[3], ("c".to_string(), vec![say(Role::User, "only")]));
    assert_eq!(all.get_conversation(&"b".to_string()), Some(&held[2].1));
}

#[test]
fn corrupt_from_the_first_place_marks_all() {
    let all = sample().corrupt_from(3, 0);
    assert_eq!(all.get_conversation(&"c".to_string()), Some(&vec![say(Role::User, "onlyerror")]));
}

#[test]
fn corrupt_from_a_place_that_is_not_there_changes_nothing() {
    let before = snapshot(&sample());
    assert_eq!(snapshot(&sample().corrupt_from(4, 0)), before);
    assert_eq!(snapshot(&sample().corrupt_from(usize::MAX, 0)), before);
    assert_eq!(snapshot(&sample().corrupt_from(2, 3)), before);
    assert_eq!(snapshot(&sample().corrupt_from(1, 0)), before);
}

#[test]
fn corrupting_twice_marks_twice() {
    let all = sample().corrupt_from(2, 1).corrupt_from(2, 2);
    assert_eq!(
        all.get_conversation(&"b".to_string()),
        Some(&vec![
            say(Role::System, "s"),
            say(Role::User, "uerror"),
            say(Role::Assistant, "aerrorerror")
        ])
    );
}

#[test]
fn forced_faults_mark_every_conversation_from_some_place_on() {
    let before = snapshot(&sample());
    let mut starts = Vec::new();
    for seed in 0..50u64 {
        let mut rng = StdRng::seed_from_u64(seed);
        let after = snapshot(&inject_faults(sample(), FaultRate::always(), &mut rng));
        assert_eq!(after.len(), before.len());
        for (was, is) in before.iter().zip(after.iter()) {
            assert_eq!(was.0, is.0);
            assert_eq!(was.1.len(), is.1.len());
            if was.1.is_empty() {
                assert!(is.1.is_empty());
            } else {
                let start = offset(&was.1, &is.1);
                assert!(start.is_some(), "seed {} conversation {}", seed, was.0);
                assert!(start.unwrap() < was.1.len());
                if was.0 == "a" {
                    starts.push(start.unwrap());
                }
            }
        }
    }
    starts.sort();
    starts.dedup();
    assert!(starts.len() > 10, "places drawn: {:?}", starts);
}

#[test]
fn forced_faults_with_one_seed_are_the_same_faults() {
    let mut first = StdRng::seed_from_u64(7);
    let mut second = StdRng::seed_from_u64(7);
    let once = snapshot(&inject_faults(sample(), FaultRate::always(), &mut first));
    let again = snapshot(&inject_faults(sample(), FaultRate::always(), &mut second));
    assert_eq!(once, again);
    assert_ne!(once, snapshot(&sample()));
}

#[test]
fn faults_at_the_rate_of_zero_change_nothing() {
    let before = snapshot(&sample());
    for seed in 0..20u64 {
        let mut rng = StdRng::seed_from_u64(seed);
        assert_eq!(snapshot(&inject_faults(sample(), FaultRate::never(), &mut rng)), before);
        let mut rng = StdRng::seed_from_u64(seed);
        let rate = FaultRate::new(0, 5).unwrap();
        assert_eq!(snapshot(&inject_faults(sample(), rate, &mut rng)), before);
    }
}

#[test]
fn faults_at_a_rate_between_leave_each_conversation_whole_or_marked() {
    let before = snapshot(&sample());
    let rate = FaultRate::new(1, 2).unwrap();
    let mut marked = 0;
    let mut whole = 0;
    for seed in 0..200u64 {
        let mut rng = StdRng::seed_from_u64(seed);
        let after = snapshot(&inject_faults(sample(), rate, &mut rng));
        for (was, is) in before.iter().zip(after.iter()) {
            assert_eq!(was.0, is.0);
            if was.1 == is.1 {
                whole += 1;
            } else {
                assert!(offset(&was.1, &is.1).is_some());
                marked += 1;
            }
        }
    }
    assert_eq!(marked + whole, 800);
    assert!(marked > 200 && marked < 400, "{} marked", marked);
}

#[test]
fn the_default_rate_is_one_in_a_hundred() {
    let corpus: Vec<RawFragment> = (0..20_000)
        .map(|i| RawFragment { raw_id: format!("{}_0", i), messages: vec![say(Role::User, "x")] })
        .collect();
    let mut rng = StdRng::seed_from_u64(1);
    let after = inject_faults(merge(corpus), FaultRate::default(), &mut rng);
    let marked =
        after.conversations().iter().filter(|c| c.messages[0].content == "xerror").count();
    let whole = after.conversations().iter().filter(|c| c.messages[0].content == "x").count();
    assert_eq!(marked + whole, 20_000);
    assert!(marked > 120 && marked < 290, "{} marked", marked);
}

#[test]
fn a_rate_has_to_be_a_chance() {
    assert!(FaultRate::new(0, 0).is_none());
    assert!(FaultRate::new(1, 0).is_none());
    assert!(FaultRate::new(2, 1).is_none());
    assert!(FaultRate::new(u32::MAX, u32::MAX - 1).is_none());
    assert!(FaultRate::new(0, 1).is_some());
    assert!(FaultRate::new(1, 1).is_some());
    assert!(FaultRate::new(1, 100).is_some());
    assert!(FaultRate::new(u32::MAX, u32::MAX).is_some());
}

#[test]
fn faulty_conversations_give_faulty_replies() {
    let all = sample().corrupt_from(2, 1);
    let index = preprocess_hashed_responses(&Arc::new(all));
    let request =
        ChatCompletionRequest { messages: vec![say(Role::System, "s"), say(Role::User, "uerror")] };
    let found = index.get_response_for_request(&request).unwrap();
    assert_eq!(found.id, "b");
    assert_eq!(found.response_message, say(Role::Assistant, "aerror"));
    let clean = ChatCompletionRequest { messages: vec![say(Role::System, "s"), say(Role::User, "u")] };
    assert!(index.get_response_for_request(&clean).is_none());
}

#[test]
fn a_found_reply_is_answered_with_its_origin() {
    let response = Response { id: "a".to_string(), response_message: say(Role::Assistant, "hello") };
    let body = answer(Some(&response), 1_700_000_000).ok().unwrap();
    assert_eq!(body.id, "a");
    assert_eq!(body.created, 1_700_000_000);
    assert_eq!(body.message, say(Role::Assistant, "hello"));
    let early = answer(Some(&response), i64::MIN).ok().unwrap();
    assert_eq!(early.created, i64::MIN);
}

#[test]
fn a_miss_is_answered_with_not_found() {
    let miss = answer(None, 0).err();
    assert_eq!(miss, Some(LookupMiss::NoValidResponse));
    assert_eq!(miss.unwrap().message(), "No valid response exists for the given request");
}

use chat_replay::{
    build_conversations_data, decode_corpus, parse_role, read_json, IngestError, Json, Message, Role,
};

fn say(role: Role, text: &str) -> Message {
    Message { role, content: text.to_string() }
}

fn text(s: &str) -> Json {
    Json::Text(s.to_string())
}

fn object(members: Vec<(&str, Json)>) -> Json {
    Json::Object(members.into_iter().map(|(name, json)| (name.to_string(), json)).collect())
}

fn rejected(corpus: &str) -> Option<IngestError> {
    build_conversations_data(corpus).err()
}

#[test]
fn every_alias_of_a_role_is_read() {
    assert_eq!(parse_role("System"), Ok(Role::System));
    assert_eq!(parse_role("system"), Ok(Role::System));
    assert_eq!(parse_role("User"), Ok(Role::User));
    assert_eq!(parse_role("human"), Ok(Role::User));
    assert_eq!(parse_role("user"), Ok(Role::User));
    assert_eq!(parse_role("Assistant"), Ok(Role::Assistant));
    assert_eq!(parse_role("gpt"), Ok(Role::Assistant));
    assert_eq!(parse_role("bing"), Ok(Role::Assistant));
    assert_eq!(parse_role("chatgpt"), Ok(Role::Assistant));
    assert_eq!(parse_role("bard"), Ok(Role::Assistant));
    assert_eq!(parse_role("assistant"), Ok(Role::Assistant));
    assert_eq!(parse_role("Function"), Ok(Role::Function));
}

#[test]
fn names_that_are_no_alias_are_rejected() {
    for name in ["alien", "", "USER", "Human", "GPT", "function", "user ", " user", "gpt4", "ai"] {
        assert_eq!(parse_role(name), Err(IngestError::UnknownRoleAlias), "{:?}", name);
    }
}

#[test]
fn corpus_is_read_and_merged() {
    let corpus = r#"[
        {"id": "a_0", "conversations": [
            {"from": "human", "value": "hi"},
            {"from": "gpt", "value": "hello"}]},
        {"id": "b_0", "conversations": [
            {"role": "system", "content": "be brief"},
            {"role": "user", "content": "hi"},
            {"from": "bing", "content": "hey"},
            {"role": "Function", "value": "{}"}]},
        {"id": "a_1", "conversations": [
            {"from": "chatgpt", "value": "hello"},
            {"from": "human", "value": "bye"}]}
    ]"#;
    let all = build_conversations_data(corpus).ok().unwrap();
    assert_eq!(all.len(), 2);
    assert_eq!(all.conversations()[0].id, "a");
    assert_eq!(all.conversations()[1].id, "b");
    assert_eq!(
        all.get_conversation(&"a".to_string()),
        Some(&vec![say(Role::User, "hi"), say(Role::Assistant, "hello"), say(Role::User, "bye")])
    );
    assert_eq!(
        all.get_conversation(&"b".to_string()),
        Some(&vec![
            say(Role::System, "be brief"),
            say(Role::User, "hi"),
            say(Role::Assistant, "hey"),
            say(Role::Function, "{}"),
        ])
    );
}

#[test]
fn an_empty_corpus_has_no_conversations() {
    let all = build_conversations_data("[]").ok().unwrap();
    assert_eq!(all.len(), 0);
}

#[test]
fn members_that_are_not_asked_for_are_passed_over() {
    let corpus = r#"[{"id": "a_0", "lang": "en", "score": 3.5, "tags": [1, null, true],
        "conversations": [{"from": "human", "value": "hi", "markdown": {"x": 1}}]}]"#;
    let all = build_conversations_data(corpus).ok().unwrap();
    assert_eq!(all.get_conversation(&"a".to_string()), Some(&vec![say(Role::User, "hi")]));
}

#[test]
fn text_is_read_with_its_escapes() {
    let corpus = r#"[{"id": "u_0", "conversations": [{"from": "human", "value": "a\n\"b\" é"}]}]"#;
    let all = build_conversations_data(corpus).ok().unwrap();
    assert_eq!(all.get_conversation(&"u".to_string()), Some(&vec![say(Role::User, "a\n\"b\" é")]));
}

#[test]
fn an_unknown_role_rejects_the_corpus() {
    let corpus = r#"[
        {"id": "a_0", "conversations": [{"from": "human", "value": "hi"}]},
        {"id": "b_0", "conversations": [{"from": "alien", "value": "hi"}]}
    ]"#;
    assert_eq!(rejected(corpus), Some(IngestError::UnknownRoleAlias));
}

#[test]
fn a_text_that_is_no_json_is_malformed() {
    assert_eq!(rejected(""), Some(IngestError::MalformedRecord));
    assert_eq!(rejected("[{]"), Some(IngestError::MalformedRecord));
    assert_eq!(rejected("[] []"), Some(IngestError::MalformedRecord));
    assert_eq!(rejected("not json"), Some(IngestError::MalformedRecord));
}

#[test]
fn a_corpus_that_is_no_array_is_malformed() {
    assert_eq!(rejected("{}"), Some(IngestError::MalformedRecord));
    assert_eq!(rejected("null"), Some(IngestError::MalformedRecord));
    assert_eq!(rejected("\"a\""), Some(IngestError::MalformedRecord));
    assert_eq!(
        rejected(r#"{"id": "a_0", "conversations": []}"#),
        Some(IngestError::MalformedRecord)
    );
}

#[test]
fn a_record_of_the_wrong_shape_is_malformed() {
    let records = [
        r#"[{"conversations": []}]"#,
        r#"[{"id": "a_0"}]"#,
        r#"[{"id": 7, "conversations": []}]"#,
        r#"[{"id": null, "conversations": []}]"#,
        r#"[{"id": "a_0", "conversations": {}}]"#,
        r#"[{"id": "a_0", "conversations": "hi"}]"#,
        r#"[["a_0", []]]"#,
        r#"["a_0"]"#,
        r#"[{"Id": "a_0", "conversations": []}]"#,
    ];
    for corpus in records {
        assert_eq!(rejected(corpus), Some(IngestError::MalformedRecord), "{}", corpus);
    }
}

#[test]
fn a_message_of_the_wrong_shape_is_malformed() {
    let messages = [
        r#""hi""#,
        r#"[]"#,
        r#"{}"#,
        r#"{"from": "human"}"#,
        r#"{"value": "hi"}"#,
        r#"{"from": "human", "value": 1}"#,
        r#"{"from": 1, "value": "hi"}"#,
        r#"{"from": "human", "role": "user", "value": "hi"}"#,
        r#"{"from": "human", "value": "hi", "content": "hi"}"#,
        r#"{"from": "alien"}"#,
        r#"{"speaker": "human", "text": "hi"}"#,
    ];
    for message in messages {
        let corpus = format!(r#"[{{"id": "a_0", "conversations": [{}]}}]"#, message);
        assert_eq!(rejected(&corpus), Some(IngestError::MalformedRecord), "{}", message);
    }
}

#[test]
fn the_first_bad_record_names_the_error() {
    let malformed_first = r#"[
        {"id": "a_0"},
        {"id": "b_0", "conversations": [{"from": "alien", "value": "hi"}]}
    ]"#;
    assert_eq!(rejected(malformed_first), Some(IngestError::MalformedRecord));
    let unknown_first = r#"[
        {"id": "b_0", "conversations": [{"from": "alien", "value": "hi"}]},
        {"id": "a_0"}
    ]"#;
    assert_eq!(rejected(unknown_first), Some(IngestError::UnknownRoleAlias));
    let within_a_record = r#"[{"id": "c_0", "conversations": [
        {"from": "alien", "value": "hi"}, {"from": "human"}]}]"#;
    assert_eq!(rejected(within_a_record), Some(IngestError::UnknownRoleAlias));
}

#[test]
fn read_json_keeps_the_shape_of_a_document() {
    let json = read_json(r#"{"b": [1, "x", null, true, {}], "a": "y"}"#).ok().unwrap();
    match json {
        Json::Object(members) => {
            assert_eq!(members.len(), 2);
            let names: Vec<&str> = members.iter().map(|(name, _)| name.as_str()).collect();
            assert!(names.contains(&"a") && names.contains(&"b"));
            for (name, member) in &members {
                match (name.as_str(), member) {
                    ("a", Json::Text(text)) => assert_eq!(text, "y"),
                    ("b", Json::Array(items)) => {
                        assert_eq!(items.len(), 5);
                        assert!(matches!(items[0], Json::Number));
                        assert!(matches!(&items[1], Json::Text(t) if t == "x"));
                        assert!(matches!(items[2], Json::Null));
                        assert!(matches!(items[3], Json::Bool(true)));
                        assert!(matches!(&items[4], Json::Object(m) if m.is_empty()));
                    }
                    other => panic!("unexpected member {:?}", other),
                }
            }
        }
        other => panic!("unexpected document {:?}", other),
    }
    assert_eq!(read_json("[1,").err(), Some(IngestError::MalformedRecord));
}

#[test]
fn the_first_member_of_a_name_counts() {
    let record = object(vec![
        ("id", text("a_0")),
        ("id", text("b_0")),
        (
            "conversations",
            Json::Array(vec![object(vec![
                ("from", text("human")),
                ("value", text("first")),
                ("value", text("second")),
            ])]),
        ),
    ]);
    let fragments = decode_corpus(&Json::Array(vec![record])).ok().unwrap();
    assert_eq!(fragments.len(), 1);
    assert_eq!(fragments[0].raw_id, "a_0");
    assert_eq!(fragments[0].messages, vec![say(Role::User, "first")]);
}

#[test]
fn decode_corpus_keeps_records_apart_and_in_order() {
    let record = |id: &str, said: &str| {
        object(vec![
            ("conversations", Json::Array(vec![object(vec![("content", text(said)), ("role", text("bard"))])])),
            ("id", text(id)),
        ])
    };
    let fragments =
        decode_corpus(&Json::Array(vec![record("a_1", "x"), record("a_0", "y")])).ok().unwrap();
    assert_eq!(fragments.len(), 2);
    assert_eq!(fragments[0].raw_id, "a_1");
    assert_eq!(fragments[0].messages, vec![say(Role::Assistant, "x")]);
    assert_eq!(fragments[1].raw_id, "a_0");
    assert_eq!(fragments[1].messages, vec![say(Role::Assistant, "y")]);
    assert_eq!(decode_corpus(&Json::Null).err(), Some(IngestError::MalformedRecord));
    assert_eq!(decode_corpus(&Json::Number).err(), Some(IngestError::MalformedRecord));
    assert_eq!(decode_corpus(&Json::Bool(false)).err(), Some(IngestError::MalformedRecord));
}

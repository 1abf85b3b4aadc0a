use responses_to_chat::chat::{ChatMessage, ChatThinking};
use responses_to_chat::codec::parse;
use responses_to_chat::content::{
    arguments_from_parse, content_item_to_chat_part, content_item_to_chat_value, content_to_text,
    message_content_to_chat_value, parse_json_string, serialized_or_null, stringify_tool_output,
    tool_call_arguments_object,
};
use responses_to_chat::error::AppError;
use responses_to_chat::json::Json;
use responses_to_chat::lowering::{
    append_tool_call, normalize_chat_role, normalize_reasoning_effort, tool_search_output_text,
};
use responses_to_chat::messages::hoist_system_messages;
use responses_to_chat::reasoning::{reasoning_item_text, reasoning_of, PendingReasoning};
use responses_to_chat::responses::{
    ContentItem, ReasoningContentItem, ReasoningSummaryItem, WebSearchAction,
};
use responses_to_chat::web_search::web_search_arguments;

fn json(raw: &str) -> Json {
    parse(raw).expect("valid JSON")
}

fn text(value: &str) -> Json {
    Json::Text(value.to_string())
}

fn some(value: &str) -> Option<String> {
    Some(value.to_string())
}

fn message(role: &str, content: Option<Json>) -> ChatMessage {
    ChatMessage::plain(role, content)
}

#[test]
fn empty_content_is_an_empty_text() {
    assert_eq!(message_content_to_chat_value(&[]), Ok(text("")));
}

#[test]
fn single_text_stays_a_text() {
    for item in [
        ContentItem::InputText { text: "hi".to_string() },
        ContentItem::OutputText { text: "hi".to_string() },
    ] {
        assert_eq!(content_item_to_chat_value(&item), Ok(text("hi")));
        assert_eq!(message_content_to_chat_value(&[item]), Ok(text("hi")));
    }
}

#[test]
fn several_items_become_parts_in_order() {
    let content = vec![
        ContentItem::OutputText { text: "one".to_string() },
        ContentItem::Other(json(r#"{"type": "refusal", "n": 3}"#)),
        ContentItem::InputText { text: "".to_string() },
    ];
    assert_eq!(
        message_content_to_chat_value(&content),
        Ok(json(
            r#"[{"type":"text","text":"one"},{"type":"refusal","n":3},{"type":"text","text":""}]"#
        ))
    );
}

#[test]
fn other_item_is_wrapped_alone() {
    let item = ContentItem::Other(json("7"));
    assert_eq!(content_item_to_chat_part(&item), json("7"));
    assert_eq!(content_item_to_chat_value(&item), Ok(json("[7]")));
}

#[test]
fn image_parts_by_url_and_by_file() {
    assert_eq!(
        content_item_to_chat_part(&ContentItem::InputImage {
            image_url: some("u"),
            file_id: some("ignored"),
            detail: None,
        }),
        json(r#"{"type":"image_url","image_url":{"url":"u"}}"#)
    );
    assert_eq!(
        content_item_to_chat_part(&ContentItem::InputImage {
            image_url: some("u"),
            file_id: None,
            detail: some("low"),
        }),
        json(r#"{"type":"image_url","image_url":{"url":"u","detail":"low"}}"#)
    );
    assert_eq!(
        content_item_to_chat_part(&ContentItem::InputImage {
            image_url: None,
            file_id: some("f"),
            detail: some("low"),
        }),
        json(r#"{"type":"input_image","file_id":"f","detail":"low"}"#)
    );
    assert_eq!(
        content_item_to_chat_part(&ContentItem::InputImage {
            image_url: None,
            file_id: None,
            detail: None,
        }),
        json(r#"{"type":"input_image"}"#)
    );
}

#[test]
fn file_part_has_the_fields_that_are_there() {
    assert_eq!(
        content_item_to_chat_part(&ContentItem::InputFile {
            file_id: None,
            file_url: some("u"),
            filename: None,
            file_data: some("d"),
        }),
        json(r#"{"type":"input_file","file_url":"u","file_data":"d"}"#)
    );
}

#[test]
fn content_is_a_text_or_is_displayed() {
    assert_eq!(content_to_text(&text("a\"b")), "a\"b");
    assert_eq!(content_to_text(&json(r#"[ 1, "a" ]"#)), r#"[1,"a"]"#);
    assert_eq!(content_to_text(&Json::Null), "null");
}

#[test]
fn tool_output_is_a_text_or_is_serialised() {
    assert_eq!(stringify_tool_output(&text("a\"b")), "a\"b");
    assert_eq!(stringify_tool_output(&Json::Null), "null");
    assert_eq!(stringify_tool_output(&json(r#"{"b":1,"a":[]}"#)), r#"{"a":[],"b":1}"#);
}

#[test]
fn output_that_was_not_serialised_is_null() {
    assert_eq!(serialized_or_null(Ok("x".to_string())), "x");
    assert_eq!(serialized_or_null(Err("broken".to_string())), "null");
}

#[test]
fn arguments_without_a_value_are_an_empty_object() {
    assert_eq!(tool_call_arguments_object(&None), Json::Object(vec![]));
    assert_eq!(tool_call_arguments_object(&Some(json("[1]"))), json("[1]"));
}

#[test]
fn arguments_are_parsed_or_refused() {
    assert_eq!(parse_json_string(r#"{"a": 1}"#), Ok(json(r#"{"a":1}"#)));
    assert_eq!(
        parse_json_string("").expect_err("invalid JSON").message(),
        "invalid JSON tool arguments: EOF while parsing a value at line 1 column 0"
    );
    assert_eq!(
        arguments_from_parse(Err("words".to_string())),
        Err(AppError::BadRequest("invalid JSON tool arguments: words".to_string()))
    );
    assert_eq!(arguments_from_parse(Ok(Json::Null)), Ok(Json::Null));
}

#[test]
fn tool_search_output_is_kept_or_refused() {
    assert_eq!(tool_search_output_text(Ok("{}".to_string())), Ok("{}".to_string()));
    assert_eq!(
        tool_search_output_text(Err("words".to_string())).expect_err("refused").message(),
        "failed to serialize tool_search_output: words"
    );
}

#[test]
fn developer_is_system_in_a_chat() {
    assert_eq!(normalize_chat_role("developer"), "system");
    assert_eq!(normalize_chat_role("Developer"), "Developer");
    assert_eq!(normalize_chat_role("user"), "user");
}

#[test]
fn blank_effort_is_none() {
    assert_eq!(normalize_reasoning_effort(None), Ok(None));
    assert_eq!(normalize_reasoning_effort(Some("")), Ok(None));
    assert_eq!(normalize_reasoning_effort(Some(" \t\n")), Ok(None));
    assert_eq!(normalize_reasoning_effort(Some("\u{a0}HIGH ")), Ok(some("high")));
}

#[test]
fn normalised_effort_stays_as_it_is() {
    for effort in ["", " Max ", "x\ty", "ÄB"] {
        let once = normalize_reasoning_effort(Some(effort)).expect("level");
        let twice = normalize_reasoning_effort(once.as_deref()).expect("level");
        assert_eq!(twice, once);
    }
}

#[test]
fn reasoning_blocks_join_with_a_blank_line() {
    let mut block = PendingReasoning::from_parts("one".to_string(), None);
    block.append("".to_string(), some("s1"));
    block.append("two".to_string(), some("s2"));
    assert_eq!(block.text, "one\n\ntwo");
    assert_eq!(block.signature, some("s1"));
    let mut empty = PendingReasoning::from_parts("".to_string(), None);
    empty.append("three".to_string(), None);
    assert_eq!(empty.text, "three");
    assert_eq!(empty.into_chat_parts(), (some("three"), None));
}

#[test]
fn blocks_join_the_same_from_either_end() {
    let blocks = [("a", None), ("", some("s1")), ("c", some("s2")), ("", None)];
    for (one, first) in blocks.clone() {
        for (two, second) in blocks.clone() {
            for (three, third) in blocks.clone() {
                let mut left = PendingReasoning::from_parts(one.to_string(), first.clone());
                left.append(two.to_string(), second.clone());
                left.append(three.to_string(), third.clone());
                let mut tail = PendingReasoning::from_parts(two.to_string(), second.clone());
                tail.append(three.to_string(), third.clone());
                let mut right = PendingReasoning::from_parts(one.to_string(), first.clone());
                right.append(tail.text, tail.signature);
                assert_eq!(left.text, right.text);
                assert_eq!(left.signature, right.signature);
            }
        }
    }
}

#[test]
fn signed_block_becomes_thinking() {
    let block = PendingReasoning::from_parts("one".to_string(), some("s1"));
    assert_eq!(
        block.into_chat_parts(),
        (
            some("one"),
            Some(ChatThinking { content: "one".to_string(), signature: some("s1") })
        )
    );
}

#[test]
fn reasoning_of_a_message_is_its_text_and_signature() {
    let mut carrier = message("assistant", None);
    assert_eq!(reasoning_of(&carrier).text, "");
    carrier.reasoning_content = some("text");
    carrier.thinking = Some(ChatThinking { content: "other".to_string(), signature: some("s") });
    assert_eq!(reasoning_of(&carrier).text, "text");
    assert_eq!(reasoning_of(&carrier).signature, some("s"));
}

#[test]
fn reasoning_text_leaves_empty_pieces_out() {
    let summary = vec![
        ReasoningSummaryItem::SummaryText { text: "".to_string() },
        ReasoningSummaryItem::SummaryText { text: "a".to_string() },
    ];
    let content = Some(vec![
        ReasoningContentItem::ReasoningText { text: "b".to_string() },
        ReasoningContentItem::Text { text: "".to_string() },
        ReasoningContentItem::Text { text: "c".to_string() },
    ]);
    assert_eq!(reasoning_item_text(&summary, &content), "a\nb\nc");
    assert_eq!(reasoning_item_text(&[], &None), "");
}

#[test]
fn search_takes_the_query_or_the_first_of_the_queries() {
    let both = Some(WebSearchAction::Search {
        query: some("q"),
        queries: Some(vec!["r".to_string()]),
    });
    assert_eq!(web_search_arguments(&both), json(r#"{"query":"q"}"#));
    let first = Some(WebSearchAction::Search {
        query: None,
        queries: Some(vec!["r".to_string(), "s".to_string()]),
    });
    assert_eq!(web_search_arguments(&first), json(r#"{"query":"r"}"#));
    let none = Some(WebSearchAction::Search { query: None, queries: Some(vec![]) });
    assert_eq!(web_search_arguments(&none), json("{}"));
}

#[test]
fn missing_page_fields_are_null() {
    assert_eq!(
        web_search_arguments(&Some(WebSearchAction::OpenPage { url: None })),
        json(r#"{"url":null}"#)
    );
    assert_eq!(
        web_search_arguments(&Some(WebSearchAction::FindInPage { url: None, pattern: some("p") })),
        json(r#"{"url":null,"pattern":"p"}"#)
    );
}

#[test]
fn system_messages_at_the_front_become_one() {
    let mut messages = vec![
        message("system", Some(text("a"))),
        message("system", None),
        message("system", Some(text(""))),
        message("system", Some(json("[1]"))),
        message("user", Some(text("u"))),
        message("system", Some(text("later"))),
    ];
    hoist_system_messages(&mut messages);
    assert_eq!(
        messages,
        vec![
            message("system", Some(text("a\n\n[1]"))),
            message("user", Some(text("u"))),
            message("system", Some(text("later"))),
        ]
    );
    let once = messages.clone();
    hoist_system_messages(&mut messages);
    assert_eq!(messages, once);
}

#[test]
fn system_messages_without_text_are_gone() {
    let mut messages = vec![message("system", Some(text(""))), message("user", None)];
    hoist_system_messages(&mut messages);
    assert_eq!(messages, vec![message("user", None)]);
    let mut only = vec![message("system", None)];
    hoist_system_messages(&mut only);
    assert_eq!(only, vec![]);
    let mut none = vec![];
    hoist_system_messages(&mut none);
    assert_eq!(none, vec![]);
}

#[test]
fn call_behind_the_floor_starts_a_message() {
    let mut messages = vec![message("assistant", Some(text("a")))];
    append_tool_call(
        &mut messages,
        "c1".to_string(),
        "f".to_string(),
        json("{}"),
        Some(PendingReasoning::from_parts("why".to_string(), some("s"))),
        1,
    );
    assert_eq!(messages.len(), 2);
    assert_eq!(messages[0], message("assistant", Some(text("a"))));
    assert_eq!(messages[1].content, None);
    assert_eq!(messages[1].reasoning_content, some("why"));
    assert_eq!(
        messages[1].thinking,
        Some(ChatThinking { content: "why".to_string(), signature: some("s") })
    );
    append_tool_call(&mut messages, "c2".to_string(), "g".to_string(), json("1"), None, 1);
    assert_eq!(messages.len(), 2);
    let calls = messages[1].tool_calls.as_ref().expect("calls");
    assert_eq!(calls[1].id, some("c2"));
    assert_eq!(calls[1].index, Some(1));
    assert_eq!(calls[1].kind, "function");
    assert_eq!(calls[1].function.arguments, Some(json("1")));
    assert_eq!(messages[1].reasoning_content, some("why"));
}

#[test]
fn call_after_another_role_starts_a_message() {
    let mut messages = vec![message("user", Some(text("u")))];
    append_tool_call(&mut messages, "c".to_string(), "f".to_string(), json("{}"), None, 0);
    assert_eq!(messages.len(), 2);
    assert_eq!(messages[1].role, "assistant");
    assert_eq!(messages[1].reasoning_content, None);
    assert_eq!(messages[1].thinking, None);
}

#[test]
fn joining_reasoning_keeps_the_first_signature() {
    let mut carrier = message("assistant", Some(text("a")));
    carrier.thinking = Some(ChatThinking { content: "t".to_string(), signature: some("s1") });
    let mut messages = vec![carrier];
    append_tool_call(
        &mut messages,
        "c".to_string(),
        "f".to_string(),
        json("{}"),
        Some(PendingReasoning::from_parts("more".to_string(), some("s2"))),
        0,
    );
    assert_eq!(messages[0].reasoning_content, some("more"));
    assert_eq!(
        messages[0].thinking,
        Some(ChatThinking { content: "more".to_string(), signature: some("s1") })
    );
}

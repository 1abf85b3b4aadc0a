use responses_to_chat::chat::{ChatFunctionCall, ChatMessage, ChatThinking, ChatToolCall};
use responses_to_chat::codec::parse;
use responses_to_chat::config::{Action, RoleRule, RolesConfig};
use responses_to_chat::content::{
    content_item_to_chat_value, message_content_to_chat_value, stringify_tool_output,
    tool_call_arguments_object,
};
use responses_to_chat::json::{find_field, Json};
use responses_to_chat::lowering::{
    append_tool_call, lower_request, lower_request_with_image_agent_and_roles,
};
use responses_to_chat::messages::hoist_system_messages;
use responses_to_chat::ordered::TextMap;
use responses_to_chat::reasoning::reasoning_item_text;
use responses_to_chat::responses::{
    ContentItem, ReasoningContentItem, ReasoningRequest, ReasoningSummaryItem, ResponseItem,
    ResponsesRequest, ToolSpec, WebSearchAction,
};
use responses_to_chat::roles::merge_adjacent_role_runs;
use responses_to_chat::validate::validate_request;
use responses_to_chat::web_search::{web_search_arguments, web_search_placeholder_result};

fn json(raw: &str) -> Json {
    parse(raw).expect("valid JSON")
}

fn as_str(value: &Json) -> Option<&str> {
    match value {
        Json::Text(text) => Some(text.as_str()),
        _ => None,
    }
}

fn as_array(value: &Json) -> Option<&Vec<Json>> {
    match value {
        Json::Array(items) => Some(items),
        _ => None,
    }
}

fn field<'a>(value: &'a Json, key: &str) -> &'a Json {
    match value {
        Json::Object(entries) => find_field(entries, key).expect("field"),
        _ => panic!("not an object"),
    }
}

fn plain_rule(action: Action) -> RoleRule {
    RoleRule {
        when: None,
        action,
        target_role: None,
        tag: None,
        tag_attributes: TextMap::new(),
    }
}

fn base_test_request() -> ResponsesRequest {
    ResponsesRequest {
        model: "test".to_string(),
        instructions: String::new(),
        input: vec![],
        tools: vec![],
        tool_choice: Json::Text("auto".to_string()),
        parallel_tool_calls: Some(false),
        reasoning: None,
        store: false,
        stream: true,
        text: None,
        previous_response_id: None,
        frequency_penalty: None,
        presence_penalty: None,
    }
}

fn user_msg(text: &str) -> ResponseItem {
    ResponseItem::Message {
        id: None,
        role: "user".to_string(),
        content: vec![ContentItem::InputText {
            text: text.to_string(),
        }],
        phase: None,
    }
}

#[test]
fn validate_accepts_stream_false() {
    let mut req = base_test_request();
    req.stream = false;
    assert!(validate_request(&req).is_ok());
}

#[test]
fn validate_rejects_previous_response_id() {
    let mut req = base_test_request();
    req.previous_response_id = Some("resp_123".to_string());
    assert!(validate_request(&req).is_err());
}

#[test]
fn validate_accepts_all_tool_choice_values() {
    let req = base_test_request();
    assert!(validate_request(&req).is_ok());

    let mut req2 = base_test_request();
    req2.tool_choice = Json::Text("required".to_string());
    req2.tools = vec![ToolSpec::Function {
        name: "f".to_string(),
        description: "d".to_string(),
        strict: false,
        parameters: json("{}"),
    }];
    assert!(validate_request(&req2).is_ok());

    let mut req3 = base_test_request();
    req3.tool_choice = Json::Text("none".to_string());
    assert!(validate_request(&req3).is_ok());

    let mut req4 = base_test_request();
    req4.tool_choice = json(r#"{"type": "function", "function": {"name": "echo"}}"#);
    req4.tools = vec![ToolSpec::Function {
        name: "echo".to_string(),
        description: "d".to_string(),
        strict: false,
        parameters: json("{}"),
    }];
    assert!(validate_request(&req4).is_ok());
}

#[test]
fn validate_accepts_image_generation_tool() {
    let mut req = base_test_request();
    req.tools = vec![ToolSpec::ImageGeneration {
        output_format: None,
    }];
    assert!(validate_request(&req).is_ok());
}

#[test]
fn trailing_reasoning_flushed_as_message() {
    let mut req = base_test_request();
    req.input = vec![
        user_msg("hello"),
        ResponseItem::Reasoning {
            id: "rsn_1".to_string(),
            summary: vec![ReasoningSummaryItem::SummaryText {
                text: "thinking".to_string(),
            }],
            content: None,
            encrypted_content: None,
        },
    ];
    let result = lower_request(&req, vec![]).unwrap();
    let last = result.messages.last().unwrap();
    assert_eq!(last.role, "assistant");
    assert!(last.reasoning_content.is_some());
    assert!(last.content.is_none());
}

#[test]
fn signed_reasoning_history_preserves_chat_thinking_signature() {
    let mut req = base_test_request();
    req.input = vec![
        user_msg("hello"),
        ResponseItem::Reasoning {
            id: "rsn_1".to_string(),
            summary: Vec::new(),
            content: Some(vec![ReasoningContentItem::ReasoningText {
                text: "private chain".to_string(),
            }]),
            encrypted_content: Some("sig_history".to_string()),
        },
        ResponseItem::Message {
            id: None,
            role: "assistant".to_string(),
            content: vec![ContentItem::OutputText {
                text: "answer".to_string(),
            }],
            phase: None,
        },
    ];

    let result = lower_request(&req, vec![]).unwrap();
    let assistant = result
        .messages
        .iter()
        .find(|message| message.role == "assistant")
        .expect("assistant message");
    assert_eq!(
        assistant.reasoning_content.as_deref(),
        Some("private chain")
    );
    let thinking = assistant.thinking.as_ref().expect("signed thinking");
    assert_eq!(thinking.content, "private chain");
    assert_eq!(thinking.signature.as_deref(), Some("sig_history"));
}

#[test]
fn lowers_reasoning_effort_raw_for_the_leaf() {
    // Lowering passes the canonical level through RAW (no clamp); the leaf
    // clamps or maps it. xhigh/max stay distinct here.
    for raw in ["none", "low", "medium", "high", "xhigh", "max"] {
        let mut req = base_test_request();
        req.reasoning = Some(ReasoningRequest {
            effort: Some(raw.to_string()),
            summary: None,
        });
        let result = lower_request(&req, vec![]).expect("lower_request");
        assert_eq!(
            result.reasoning_effort.as_deref(),
            Some(raw),
            "{raw} must pass through raw"
        );
    }
}

#[test]
fn lowers_reasoning_effort_trimmed_and_lowercased() {
    let mut req = base_test_request();
    req.reasoning = Some(ReasoningRequest {
        effort: Some("  XHigh  ".to_string()),
        summary: None,
    });
    let result = lower_request(&req, vec![]).expect("lower_request");
    assert_eq!(result.reasoning_effort.as_deref(), Some("xhigh"));
}

#[test]
fn role_rules_shape_only_new_tail_then_merge_adjacent() {
    let mut tag_attributes = TextMap::new();
    tag_attributes.insert("priority".to_string(), "high & urgent".to_string());
    let mut rules = TextMap::new();
    rules.insert(
        "developer".to_string(),
        vec![RoleRule {
            when: None,
            action: Action::Rewrite,
            target_role: Some("user".to_string()),
            tag: Some("instruction".to_string()),
            tag_attributes,
        }],
    );
    rules.insert("user".to_string(), vec![plain_rule(Action::Accept)]);
    rules.insert("*".to_string(), vec![plain_rule(Action::Reject)]);
    let roles = RolesConfig {
        rules,
        merge_adjacent: vec!["user".to_string()],
    };
    let baseline = vec![ChatMessage {
        role: "developer".to_string(),
        content: Some(Json::Text("already shaped history".to_string())),
        tool_call_id: None,
        name: None,
        reasoning_content: None,
        thinking: None,
        tool_calls: None,
    }];
    let mut request = base_test_request();
    request.input = vec![
        ResponseItem::Message {
            id: None,
            role: "developer".to_string(),
            content: vec![ContentItem::InputText {
                text: "new policy".to_string(),
            }],
            phase: None,
        },
        user_msg("question"),
    ];

    let lowered =
        lower_request_with_image_agent_and_roles(&request, baseline, false, Some(&roles))
            .expect("lower request");

    assert_eq!(lowered.messages.len(), 2);
    assert_eq!(lowered.messages[0].role, "developer");
    assert_eq!(
        lowered.messages[0].content,
        Some(Json::Text("already shaped history".to_string())),
        "replay baseline must not be rewritten or tagged again"
    );
    assert_eq!(lowered.messages[1].role, "user");
    assert_eq!(
        lowered.messages[1].content.as_ref().and_then(as_str),
        Some(
            "<instruction priority=\"high &amp; urgent\">new policy</instruction>\n\nquestion"
        )
    );
}

#[test]
fn duplicate_tool_name_rejected() {
    // Rejection is the registry's sole responsibility, reached end-to-end
    // via `lower_request`. Exact-case duplicate.
    let mut req = base_test_request();
    req.tools = vec![
        ToolSpec::Function {
            name: "echo".to_string(),
            description: "a".to_string(),
            strict: false,
            parameters: json("{}"),
        },
        ToolSpec::Function {
            name: "echo".to_string(),
            description: "b".to_string(),
            strict: false,
            parameters: json("{}"),
        },
    ];
    let err = lower_request(&req, vec![]).expect_err("duplicate name must be rejected");
    assert!(
        err.message()
            .contains("duplicate tool name is not supported: "),
        "unexpected error: {}",
        err.message()
    );
}

#[test]
fn duplicate_tool_name_rejected_case_insensitive() {
    // The registry folds case: `echo` vs `ECHO` collide.
    let mut req = base_test_request();
    req.tools = vec![
        ToolSpec::Function {
            name: "echo".to_string(),
            description: "a".to_string(),
            strict: false,
            parameters: json("{}"),
        },
        ToolSpec::Function {
            name: "ECHO".to_string(),
            description: "b".to_string(),
            strict: false,
            parameters: json("{}"),
        },
    ];
    let err = lower_request(&req, vec![]).expect_err("case-insensitive duplicate must reject");
    assert!(
        err.message()
            .contains("duplicate tool name is not supported: "),
        "unexpected error: {}",
        err.message()
    );
}

#[test]
fn mixed_text_and_image_content() {
    let content = vec![
        ContentItem::InputText {
            text: "hi".to_string(),
        },
        ContentItem::InputImage {
            image_url: Some("http://img.png".to_string()),
            file_id: None,
            detail: None,
        },
    ];
    let value = message_content_to_chat_value(&content).unwrap();
    let arr = as_array(&value).unwrap();
    assert_eq!(arr.len(), 2);
    assert_eq!(as_str(field(&arr[0], "type")), Some("text"));
    assert_eq!(as_str(field(&arr[1], "type")), Some("image_url"));
    assert_eq!(
        as_str(field(field(&arr[1], "image_url"), "url")),
        Some("http://img.png")
    );
}

#[test]
fn single_input_image_wraps_as_array() {
    let item = ContentItem::InputImage {
        image_url: Some("http://img.png".to_string()),
        file_id: None,
        detail: Some("high".to_string()),
    };
    let value = content_item_to_chat_value(&item).unwrap();
    let value = as_array(&value).unwrap();
    assert_eq!(as_str(field(&value[0], "type")), Some("image_url"));
    assert_eq!(
        as_str(field(field(&value[0], "image_url"), "url")),
        Some("http://img.png")
    );
    assert_eq!(
        as_str(field(field(&value[0], "image_url"), "detail")),
        Some("high")
    );
}

#[test]
fn input_file_passes_through_as_content_part() {
    let item = ContentItem::InputFile {
        file_id: Some("file_123".to_string()),
        file_url: None,
        filename: Some("brief.pdf".to_string()),
        file_data: None,
    };
    let value = content_item_to_chat_value(&item).unwrap();
    let value = as_array(&value).unwrap();
    assert_eq!(as_str(field(&value[0], "type")), Some("input_file"));
    assert_eq!(as_str(field(&value[0], "file_id")), Some("file_123"));
    assert_eq!(as_str(field(&value[0], "filename")), Some("brief.pdf"));
}

#[test]
fn web_search_arguments_all_actions() {
    let search = Some(WebSearchAction::Search {
        query: Some("test".to_string()),
        queries: None,
    });
    assert_eq!(web_search_arguments(&search), json(r#"{"query": "test"}"#));

    let open = Some(WebSearchAction::OpenPage {
        url: Some("http://x.com".to_string()),
    });
    assert_eq!(web_search_arguments(&open), json(r#"{"url": "http://x.com"}"#));

    let find = Some(WebSearchAction::FindInPage {
        url: Some("http://x.com".to_string()),
        pattern: Some("foo".to_string()),
    });
    assert_eq!(
        web_search_arguments(&find),
        json(r#"{"url": "http://x.com", "pattern": "foo"}"#)
    );

    assert_eq!(
        web_search_arguments(&Some(WebSearchAction::Other)),
        json("{}")
    );
    assert_eq!(web_search_arguments(&None), json("{}"));
}

#[test]
fn web_search_placeholder_result_all_actions() {
    let search = Some(WebSearchAction::Search {
        query: Some("test".to_string()),
        queries: None,
    });
    assert!(web_search_placeholder_result(&search).contains("test"));

    let open = Some(WebSearchAction::OpenPage {
        url: Some("http://x.com".to_string()),
    });
    assert!(web_search_placeholder_result(&open).contains("http://x.com"));

    let find = Some(WebSearchAction::FindInPage {
        url: Some("http://x.com".to_string()),
        pattern: Some("foo".to_string()),
    });
    let result = web_search_placeholder_result(&find);
    assert!(result.contains("http://x.com"));
    assert!(result.contains("foo"));

    assert!(
        web_search_placeholder_result(&Some(WebSearchAction::Other))
            .contains("replay state was missing")
    );
    assert!(web_search_placeholder_result(&None).contains("replay state was missing"));
}

#[test]
fn web_search_placeholder_result_byte_exact() {
    // Full-string equality guards against wording/spacing/punctuation drift.
    const BASE: &str = "Previous web_search completed in an earlier turn, but the original tool result is unavailable because replay state was missing.";

    // Search: with `query`, with only `queries`, with neither.
    assert_eq!(
        web_search_placeholder_result(&Some(WebSearchAction::Search {
            query: Some("cats".to_string()),
            queries: Some(vec!["ignored".to_string()]),
        })),
        format!("{BASE} Query: cats")
    );
    assert_eq!(
        web_search_placeholder_result(&Some(WebSearchAction::Search {
            query: None,
            queries: Some(vec!["dogs".to_string(), "second".to_string()]),
        })),
        format!("{BASE} Query: dogs")
    );
    assert_eq!(
        web_search_placeholder_result(&Some(WebSearchAction::Search {
            query: None,
            queries: None,
        })),
        BASE
    );

    // OpenPage: with/without url.
    assert_eq!(
        web_search_placeholder_result(&Some(WebSearchAction::OpenPage {
            url: Some("http://x.com".to_string()),
        })),
        "Previous web_search open_page completed in an earlier turn, but the original tool result is unavailable because replay state was missing. URL: http://x.com"
    );
    assert_eq!(
        web_search_placeholder_result(&Some(WebSearchAction::OpenPage { url: None })),
        "Previous web_search open_page completed in an earlier turn, but the original tool result is unavailable because replay state was missing."
    );

    // FindInPage: url+pattern, url-only, pattern-only, neither.
    assert_eq!(
        web_search_placeholder_result(&Some(WebSearchAction::FindInPage {
            url: Some("http://x.com".to_string()),
            pattern: Some("foo".to_string()),
        })),
        "Previous web_search find_in_page completed in an earlier turn, but the original tool result is unavailable because replay state was missing. URL: http://x.com. Pattern: foo"
    );
    assert_eq!(
        web_search_placeholder_result(&Some(WebSearchAction::FindInPage {
            url: Some("http://x.com".to_string()),
            pattern: None,
        })),
        "Previous web_search find_in_page completed in an earlier turn, but the original tool result is unavailable because replay state was missing. URL: http://x.com"
    );
    assert_eq!(
        web_search_placeholder_result(&Some(WebSearchAction::FindInPage {
            url: None,
            pattern: Some("foo".to_string()),
        })),
        "Previous web_search find_in_page completed in an earlier turn, but the original tool result is unavailable because replay state was missing. Pattern: foo"
    );
    assert_eq!(
        web_search_placeholder_result(&Some(WebSearchAction::FindInPage {
            url: None,
            pattern: None,
        })),
        "Previous web_search find_in_page completed in an earlier turn, but the original tool result is unavailable because replay state was missing."
    );

    // Other and None: bare base.
    assert_eq!(
        web_search_placeholder_result(&Some(WebSearchAction::Other)),
        BASE
    );
    assert_eq!(web_search_placeholder_result(&None), BASE);
}

#[test]
fn tool_search_call_non_client_error() {
    let mut req = base_test_request();
    req.input = vec![
        user_msg("hello"),
        ResponseItem::ToolSearchCall {
            call_id: Some("ts_1".to_string()),
            status: None,
            execution: "server".to_string(),
            arguments: json("{}"),
        },
    ];
    let result = lower_request(&req, vec![]);
    assert!(result.is_err());
    assert!(result.unwrap_err().message().contains("execution=client"));
}

#[test]
fn stringify_tool_output_non_string() {
    assert_eq!(stringify_tool_output(&json("42")), "42");
    assert_eq!(stringify_tool_output(&json("true")), "true");
    assert_eq!(stringify_tool_output(&json(r#"{"a": 1}"#)), r#"{"a":1}"#);
}

#[test]
fn tool_call_arguments_object_edge_cases() {
    assert_eq!(tool_call_arguments_object(&None), json("{}"));
    assert_eq!(tool_call_arguments_object(&Some(Json::Text("x".to_string()))), Json::Text("x".to_string()));
    assert_eq!(
        tool_call_arguments_object(&Some(json(r#"{"a": 1}"#))),
        json(r#"{"a": 1}"#)
    );
}

#[test]
fn hoist_system_messages_non_string_content() {
    let mut messages = vec![
        ChatMessage {
            role: "system".to_string(),
            content: Some(json(r#"{"key": "value"}"#)),
            tool_call_id: None,
            name: None,
            reasoning_content: None,
            thinking: None,
            tool_calls: None,
        },
        ChatMessage {
            role: "user".to_string(),
            content: Some(Json::Text("hello".to_string())),
            tool_call_id: None,
            name: None,
            reasoning_content: None,
            thinking: None,
            tool_calls: None,
        },
    ];
    hoist_system_messages(&mut messages);
    assert_eq!(messages[0].role, "system");
    let content = as_str(messages[0].content.as_ref().unwrap()).unwrap();
    assert!(content.contains("key"));
    assert!(content.contains("value"));
}

#[test]
fn reasoning_item_text_variants() {
    let summary = vec![ReasoningSummaryItem::SummaryText {
        text: "summary".to_string(),
    }];
    let content = Some(vec![
        ReasoningContentItem::ReasoningText {
            text: "reasoning".to_string(),
        },
        ReasoningContentItem::Text {
            text: "text".to_string(),
        },
    ]);
    let result = reasoning_item_text(&summary, &content);
    assert!(result.contains("summary"));
    assert!(result.contains("reasoning"));
    assert!(result.contains("text"));
}


#[test]
fn test_validate_tool_choice_valid_strings() {
    for val in &["auto", "none"] {
        let mut req = base_test_request();
        req.tool_choice = Json::Text(val.to_string());
        assert!(validate_request(&req).is_ok(), "expected {val} to pass");
    }
    let mut req = base_test_request();
    req.tool_choice = Json::Text("required".to_string());
    req.tools = vec![ToolSpec::Function {
        name: "f".to_string(),
        description: "d".to_string(),
        strict: false,
        parameters: json("{}"),
    }];
    assert!(validate_request(&req).is_ok());
}

#[test]
fn test_validate_tool_choice_valid_object() {
    let mut req = base_test_request();
    req.tool_choice = json(r#"{"type": "function", "function": {"name": "foo"}}"#);
    req.tools = vec![ToolSpec::Function {
        name: "foo".to_string(),
        description: "d".to_string(),
        strict: false,
        parameters: json("{}"),
    }];
    assert!(validate_request(&req).is_ok());
}

#[test]
fn test_validate_tool_choice_rejects_arbitrary_json() {
    let mut req = base_test_request();
    req.tool_choice = json("42");
    assert!(validate_request(&req).is_err());

    let mut req2 = base_test_request();
    req2.tool_choice = json("[1, 2, 3]");
    assert!(validate_request(&req2).is_err());

    let mut req3 = base_test_request();
    req3.tool_choice = json(r#"{"type": "unknown"}"#);
    assert!(validate_request(&req3).is_err());

    let mut req4 = base_test_request();
    req4.tool_choice = Json::Text("bogus".to_string());
    assert!(validate_request(&req4).is_err());
}

#[test]
fn test_validate_tool_choice_required_without_tools_rejected() {
    let mut req = base_test_request();
    req.tool_choice = Json::Text("required".to_string());
    req.tools = vec![];
    assert!(validate_request(&req).is_err());
}


#[test]
fn test_append_tool_call_sequential_indices() {
    let mut messages: Vec<ChatMessage> = vec![];
    for i in 0..3 {
        append_tool_call(
            &mut messages,
            format!("call_{i}"),
            format!("fn_{i}"),
            json("{}"),
            None,
            0,
        );
    }
    assert_eq!(messages.len(), 1);
    let calls = messages[0].tool_calls.as_ref().unwrap();
    assert_eq!(calls.len(), 3);
    assert_eq!(calls[0].index, Some(0));
    assert_eq!(calls[1].index, Some(1));
    assert_eq!(calls[2].index, Some(2));
}

#[test]
fn test_append_tool_call_merges_into_content_message() {
    // A content-bearing assistant message must absorb the following tool
    // call into the SAME message (`content` + `tool_calls`), the canonical
    // OpenAI Chat shape — not split into two adjacent assistant messages.
    let mut messages = vec![ChatMessage {
        role: "assistant".to_string(),
        content: Some(Json::Text("some text".to_string())),
        tool_call_id: None,
        name: None,
        reasoning_content: None,
        thinking: None,
        tool_calls: None,
    }];
    append_tool_call(
        &mut messages,
        "call_1".to_string(),
        "fn_1".to_string(),
        json("{}"),
        None,
        0,
    );
    assert_eq!(messages.len(), 1);
    assert_eq!(
        messages[0].content,
        Some(Json::Text("some text".to_string())),
        "text content must be preserved on the merged message"
    );
    let calls = messages[0].tool_calls.as_ref().expect("tool call merged");
    assert_eq!(calls.len(), 1);
    assert_eq!(calls[0].index, Some(0));
    assert_eq!(calls[0].function.name.as_deref(), Some("fn_1"));
}

#[test]
fn lowering_keeps_assistant_text_and_tool_call_in_one_message() {
    // End-to-end: an assistant turn that emitted BOTH text and a tool call
    // (as separate canonical items) must lower to a SINGLE upstream chat
    // assistant message carrying `content` + `tool_calls` — the OpenAI Chat
    // shape a real client emits — not two adjacent assistant messages.
    let mut req = base_test_request();
    req.input = vec![
        user_msg("look at the repo"),
        ResponseItem::Message {
            id: None,
            role: "assistant".to_string(),
            content: vec![ContentItem::OutputText {
                text: "Let me explore the key directories.".to_string(),
            }],
            phase: None,
        },
        ResponseItem::FunctionCall {
            id: None,
            name: "read".to_string(),
            namespace: None,
            arguments: "{\"path\":\"src\"}".to_string(),
            call_id: "call_1".to_string(),
        },
        ResponseItem::FunctionCallOutput {
            call_id: "call_1".to_string(),
            output: Json::Text("file list".to_string()),
        },
        user_msg("continue"),
    ];

    let lowered = lower_request(&req, vec![]).expect("lower_request");
    let roles: Vec<&str> = lowered.messages.iter().map(|m| m.role.as_str()).collect();
    assert_eq!(roles, vec!["user", "assistant", "tool", "user"]);

    let assistant = &lowered.messages[1];
    assert_eq!(
        assistant.content,
        Some(Json::Text(
            "Let me explore the key directories.".to_string()
        )),
        "assistant text must be preserved on the same message as the tool call"
    );
    let calls = assistant
        .tool_calls
        .as_ref()
        .expect("assistant message carries the tool call");
    assert_eq!(calls.len(), 1);
    assert_eq!(calls[0].function.name.as_deref(), Some("read"));
    assert_eq!(lowered.messages[2].tool_call_id.as_deref(), Some("call_1"));
}

#[test]
fn interleaved_reasoning_survives_tool_call_merge() {
    // Interleaved reasoning: Reasoning -> Message -> Reasoning ->
    // FunctionCall. Any ingress can produce this ordering (raw Responses
    // reasoning items, chat `reasoning_content`, Anthropic `thinking`
    // blocks) — a model that thinks, emits text, thinks again, then calls
    // a tool. The text Message consumes the first reasoning block, so the
    // merge target already carries `reasoning_content` when the second
    // block arrives with the tool call. The second block (and its
    // signature) must be folded in with the same `\n\n` join as
    // consecutive Reasoning items — not dropped.
    let mut req = base_test_request();
    req.input = vec![
        user_msg("look at the repo"),
        ResponseItem::Reasoning {
            id: "rs_1".to_string(),
            summary: vec![ReasoningSummaryItem::SummaryText {
                text: "first block".to_string(),
            }],
            content: None,
            encrypted_content: None,
        },
        ResponseItem::Message {
            id: None,
            role: "assistant".to_string(),
            content: vec![ContentItem::OutputText {
                text: "Let me explore.".to_string(),
            }],
            phase: None,
        },
        ResponseItem::Reasoning {
            id: "rs_2".to_string(),
            summary: vec![ReasoningSummaryItem::SummaryText {
                text: "second block".to_string(),
            }],
            content: None,
            encrypted_content: Some("sig_2".to_string()),
        },
        ResponseItem::FunctionCall {
            id: None,
            name: "read".to_string(),
            namespace: None,
            arguments: "{}".to_string(),
            call_id: "call_1".to_string(),
        },
    ];

    let lowered = lower_request(&req, vec![]).expect("lower_request");
    let roles: Vec<&str> = lowered.messages.iter().map(|m| m.role.as_str()).collect();
    assert_eq!(roles, vec!["user", "assistant"]);

    let assistant = &lowered.messages[1];
    assert_eq!(
        assistant.reasoning_content.as_deref(),
        Some("first block\n\nsecond block"),
        "second reasoning block must be appended, not dropped"
    );
    let thinking = assistant
        .thinking
        .as_ref()
        .expect("signature from the second block must survive the merge");
    assert_eq!(thinking.signature.as_deref(), Some("sig_2"));
    assert!(assistant.tool_calls.is_some());
}

#[test]
fn roles_policy_keeps_tool_call_out_of_replay_baseline() {
    // Role rules run only on the tail past the replayed baseline. With an
    // active roles policy a tool call that follows a baseline-terminal
    // assistant message must start a NEW tail message (rule-processed),
    // not merge below the baseline boundary where rules never look.
    let mut rules = TextMap::new();
    rules.insert("user".to_string(), vec![plain_rule(Action::Accept)]);
    rules.insert("assistant".to_string(), vec![plain_rule(Action::Accept)]);
    rules.insert("tool".to_string(), vec![plain_rule(Action::Accept)]);
    rules.insert("*".to_string(), vec![plain_rule(Action::Reject)]);
    let roles = RolesConfig {
        rules,
        merge_adjacent: vec![],
    };
    let baseline = vec![ChatMessage {
        role: "assistant".to_string(),
        content: Some(Json::Text("already served text".to_string())),
        tool_call_id: None,
        name: None,
        reasoning_content: None,
        thinking: None,
        tool_calls: None,
    }];
    let mut request = base_test_request();
    request.input = vec![ResponseItem::FunctionCall {
        id: None,
        name: "read".to_string(),
        namespace: None,
        arguments: "{}".to_string(),
        call_id: "call_1".to_string(),
    }];

    let lowered = lower_request_with_image_agent_and_roles(
        &request,
        baseline.clone(),
        false,
        Some(&roles),
    )
    .expect("lower request");
    assert_eq!(lowered.messages.len(), 2);
    assert!(
        lowered.messages[0].tool_calls.is_none(),
        "replay baseline message must stay untouched"
    );
    assert_eq!(lowered.messages[1].role, "assistant");
    assert!(
        lowered.messages[1].tool_calls.is_some(),
        "tool call must land in the rule-processed tail"
    );

    // Without a roles policy there is no tail scoping: the canonical
    // merged shape crosses the baseline boundary freely.
    let lowered = lower_request_with_image_agent_and_roles(&request, baseline, false, None)
        .expect("lower request");
    assert_eq!(lowered.messages.len(), 1);
    assert!(lowered.messages[0].tool_calls.is_some());
}

#[test]
fn merge_adjacent_role_runs_carries_tool_calls_and_reasoning() {
    // Collapsing an adjacent same-role run must not lose the run's tool
    // calls, reasoning, or thinking signature — the merged message carries
    // them, re-indexed, instead of being rebuilt content-only.
    let mut messages = vec![
        ChatMessage {
            role: "assistant".to_string(),
            content: Some(Json::Text("part one".to_string())),
            tool_call_id: None,
            name: None,
            reasoning_content: None,
            thinking: None,
            tool_calls: None,
        },
        ChatMessage {
            role: "assistant".to_string(),
            content: None,
            tool_call_id: None,
            name: None,
            reasoning_content: Some("thinking".to_string()),
            thinking: Some(ChatThinking {
                content: "thinking".to_string(),
                signature: Some("sig_1".to_string()),
            }),
            tool_calls: Some(vec![ChatToolCall {
                id: Some("call_1".to_string()),
                index: Some(0),
                kind: "function".to_string(),
                function: ChatFunctionCall {
                    name: Some("read".to_string()),
                    arguments: Some(json("{}")),
                },
            }]),
        },
    ];
    merge_adjacent_role_runs(&mut messages, &["assistant".to_string()]);
    assert_eq!(messages.len(), 1);
    let merged = &messages[0];
    assert_eq!(merged.content, Some(Json::Text("part one".to_string())));
    assert_eq!(merged.reasoning_content.as_deref(), Some("thinking"));
    assert_eq!(
        merged
            .thinking
            .as_ref()
            .and_then(|thinking| thinking.signature.as_deref()),
        Some("sig_1")
    );
    let calls = merged.tool_calls.as_ref().expect("tool calls carried");
    assert_eq!(calls.len(), 1);
    assert_eq!(calls[0].function.name.as_deref(), Some("read"));
    assert_eq!(calls[0].index, Some(0));
}


#[test]
fn test_hoist_preserves_mid_conversation_system_messages() {
    let mut messages = vec![
        ChatMessage {
            role: "system".to_string(),
            content: Some(Json::Text("top".to_string())),
            tool_call_id: None,
            name: None,
            reasoning_content: None,
            thinking: None,
            tool_calls: None,
        },
        ChatMessage {
            role: "user".to_string(),
            content: Some(Json::Text("hello".to_string())),
            tool_call_id: None,
            name: None,
            reasoning_content: None,
            thinking: None,
            tool_calls: None,
        },
        ChatMessage {
            role: "system".to_string(),
            content: Some(Json::Text("mid".to_string())),
            tool_call_id: None,
            name: None,
            reasoning_content: None,
            thinking: None,
            tool_calls: None,
        },
        ChatMessage {
            role: "assistant".to_string(),
            content: Some(Json::Text("hi".to_string())),
            tool_call_id: None,
            name: None,
            reasoning_content: None,
            thinking: None,
            tool_calls: None,
        },
    ];
    hoist_system_messages(&mut messages);
    assert_eq!(messages.len(), 4);
    assert_eq!(messages[0].role, "system");
    assert_eq!(
        as_str(messages[0].content.as_ref().unwrap()).unwrap(),
        "top"
    );
    assert_eq!(messages[1].role, "user");
    assert_eq!(messages[2].role, "system");
    assert_eq!(
        as_str(messages[2].content.as_ref().unwrap()).unwrap(),
        "mid"
    );
    assert_eq!(messages[3].role, "assistant");
}

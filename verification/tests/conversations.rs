use responses_to_chat::chat::{ChatFunctionCall, ChatMessage, ChatThinking, ChatToolCall};
use responses_to_chat::codec::parse;
use responses_to_chat::config::{Action, RoleRule, RolesConfig, When};
use responses_to_chat::json::Json;
use responses_to_chat::lowering::{
    lower_request, lower_request_with_image_agent_and_roles, LoweredTurn,
};
use responses_to_chat::ordered::TextMap;
use responses_to_chat::responses::{
    ContentItem, FloatBits, LocalShellAction, ReasoningContentItem, ReasoningRequest,
    ReasoningSummaryItem, ResponseItem, ResponsesRequest, TextControls, TextFormat,
    WebSearchAction,
};
use responses_to_chat::roles::{
    apply_role_rules, merge_adjacent_role_runs, render_role_tag, wrap_role_tag,
};

fn json(raw: &str) -> Json {
    parse(raw).expect("valid JSON")
}

fn text(value: &str) -> Json {
    Json::Text(value.to_string())
}

fn some(value: &str) -> Option<String> {
    Some(value.to_string())
}

fn message(role: &str, content: Option<Json>) -> ChatMessage {
    ChatMessage::plain(role, content)
}

fn request(input: Vec<ResponseItem>) -> ResponsesRequest {
    ResponsesRequest {
        model: "test".to_string(),
        instructions: String::new(),
        input,
        tools: vec![],
        tool_choice: text("auto"),
        parallel_tool_calls: None,
        reasoning: None,
        store: false,
        stream: true,
        text: None,
        previous_response_id: None,
        frequency_penalty: None,
        presence_penalty: None,
    }
}

fn said(role: &str, words: &str) -> ResponseItem {
    ResponseItem::Message {
        id: None,
        role: role.to_string(),
        content: vec![ContentItem::InputText { text: words.to_string() }],
        phase: None,
    }
}

fn thought(words: &str, signature: Option<String>) -> ResponseItem {
    ResponseItem::Reasoning {
        id: "r".to_string(),
        summary: vec![ReasoningSummaryItem::SummaryText { text: words.to_string() }],
        content: Some(vec![ReasoningContentItem::Text { text: String::new() }]),
        encrypted_content: signature,
    }
}

fn called(call_id: &str, name: &str, arguments: &str) -> ResponseItem {
    ResponseItem::FunctionCall {
        id: None,
        name: name.to_string(),
        namespace: None,
        arguments: arguments.to_string(),
        call_id: call_id.to_string(),
    }
}

fn call(call_id: &str, index: usize, name: &str, arguments: &str) -> ChatToolCall {
    ChatToolCall {
        id: some(call_id),
        index: Some(index),
        kind: "function".to_string(),
        function: ChatFunctionCall { name: some(name), arguments: Some(json(arguments)) },
    }
}

fn lowered(input: Vec<ResponseItem>) -> Vec<ChatMessage> {
    lower_request(&request(input), vec![]).expect("turn").messages
}

fn refused(input: Vec<ResponseItem>) -> String {
    lower_request(&request(input), vec![]).expect_err("refused").message().to_string()
}

fn rule(when: Option<When>, action: Action) -> RoleRule {
    RoleRule {
        when,
        action,
        target_role: None,
        tag: None,
        tag_attributes: TextMap::new(),
    }
}

fn policy(rules: Vec<(&str, Vec<RoleRule>)>, merge_adjacent: Vec<&str>) -> RolesConfig {
    let mut by_role = TextMap::new();
    for (role, list) in rules {
        by_role.insert(role.to_string(), list);
    }
    RolesConfig {
        rules: by_role,
        merge_adjacent: merge_adjacent.into_iter().map(|role| role.to_string()).collect(),
    }
}

fn with_policy(
    input: Vec<ResponseItem>,
    baseline: Vec<ChatMessage>,
    roles: &RolesConfig,
) -> LoweredTurn {
    lower_request_with_image_agent_and_roles(&request(input), baseline, false, Some(roles))
        .expect("turn")
}

#[test]
fn instructions_open_a_new_conversation_only() {
    let mut asked = request(vec![said("developer", "policy"), said("user", "hi")]);
    asked.instructions = "be brief".to_string();
    let fresh = lower_request(&asked, vec![]).expect("turn").messages;
    assert_eq!(
        fresh,
        vec![
            message("system", Some(text("be brief\n\npolicy"))),
            message("user", Some(text("hi"))),
        ]
    );
    let replayed = lower_request(&asked, vec![message("user", Some(text("before")))])
        .expect("turn")
        .messages;
    assert_eq!(
        replayed,
        vec![
            message("user", Some(text("before"))),
            message("system", Some(text("policy"))),
            message("user", Some(text("hi"))),
        ]
    );
}

#[test]
fn every_kind_of_call_is_replayed() {
    let messages = lowered(vec![
        called("c1", "read", r#"{"path":"src"}"#),
        ResponseItem::CustomToolCall {
            id: None,
            call_id: "c2".to_string(),
            name: "patch".to_string(),
            input: "raw".to_string(),
        },
        ResponseItem::ToolSearchCall {
            call_id: None,
            status: None,
            execution: "client".to_string(),
            arguments: json("[1]"),
        },
        ResponseItem::LocalShellCall {
            id: some("c4"),
            call_id: None,
            action: LocalShellAction::Exec(Ok(json(r#"{"command":["ls"]}"#))),
        },
        ResponseItem::ImageGenerationCall { id: None },
    ]);
    assert_eq!(messages.len(), 1);
    assert_eq!(messages[0].role, "assistant");
    assert_eq!(messages[0].content, None);
    assert_eq!(
        messages[0].tool_calls,
        Some(vec![
            call("c1", 0, "read", r#"{"path":"src"}"#),
            call("c2", 1, "patch", r#"{"input":"raw"}"#),
            call("tool_search_missing_call_id", 2, "tool_search", "[1]"),
            call("c4", 3, "local_shell", r#"{"command":["ls"]}"#),
        ])
    );
}

#[test]
fn shell_call_prefers_its_call_id() {
    let messages = lowered(vec![ResponseItem::LocalShellCall {
        id: some("item"),
        call_id: some("call"),
        action: LocalShellAction::Exec(Ok(json("{}"))),
    }]);
    assert_eq!(messages[0].tool_calls, Some(vec![call("call", 0, "local_shell", "{}")]));
}

#[test]
fn results_of_tools_become_tool_messages() {
    let messages = lowered(vec![
        ResponseItem::FunctionCallOutput { call_id: "c1".to_string(), output: json("{\"a\":1}") },
        ResponseItem::CustomToolCallOutput {
            call_id: "c2".to_string(),
            name: some("patch"),
            output: text("done"),
        },
        ResponseItem::ToolSearchOutput {
            call_id: None,
            status: "completed".to_string(),
            execution: "client".to_string(),
            tools: vec![json(r#"{"name":"x"}"#)],
        },
    ]);
    let contents: Vec<Option<Json>> = messages.iter().map(|m| m.content.clone()).collect();
    assert_eq!(
        contents,
        vec![
            Some(text(r#"{"a":1}"#)),
            Some(text("done")),
            Some(text(r#"{"execution":"client","status":"completed","tools":[{"name":"x"}]}"#)),
        ]
    );
    assert_eq!(messages[0].tool_call_id, some("c1"));
    assert_eq!(messages[1].tool_call_id, some("c2"));
    assert_eq!(messages[1].name, None);
    assert_eq!(messages[2].tool_call_id, None);
    assert!(messages.iter().all(|m| m.role == "tool"));
}

#[test]
fn web_search_without_an_id_is_numbered_by_the_messages() {
    let messages = lowered(vec![
        said("user", "a"),
        said("user", "b"),
        ResponseItem::WebSearchCall {
            id: None,
            action: Some(WebSearchAction::Search { query: some("cats"), queries: None }),
        },
        ResponseItem::WebSearchCall { id: some("w2"), action: None },
    ]);
    assert_eq!(messages.len(), 6);
    assert_eq!(
        messages[2].tool_calls,
        Some(vec![call("web_search_missing_replay_2", 0, "web_search", r#"{"query":"cats"}"#)])
    );
    assert_eq!(messages[3].role, "tool");
    assert_eq!(messages[3].tool_call_id, some("web_search_missing_replay_2"));
    assert_eq!(
        messages[3].content,
        Some(text("Previous web_search completed in an earlier turn, but the original tool result is unavailable because replay state was missing. Query: cats"))
    );
    assert_eq!(messages[4].tool_calls, Some(vec![call("w2", 0, "web_search", "{}")]));
    assert_eq!(messages[5].tool_call_id, some("w2"));
}

#[test]
fn refusals_of_items_have_their_words() {
    assert_eq!(
        refused(vec![called("c", "f", "{")]),
        "invalid JSON tool arguments: EOF while parsing an object at line 1 column 1"
    );
    assert_eq!(
        refused(vec![ResponseItem::ToolSearchCall {
            call_id: None,
            status: None,
            execution: "server".to_string(),
            arguments: json("{}"),
        }]),
        "only tool_search calls with execution=client are supported"
    );
    assert_eq!(
        refused(vec![ResponseItem::LocalShellCall {
            id: None,
            call_id: None,
            action: LocalShellAction::Exec(Err("words".to_string())),
        }]),
        "local_shell_call missing call_id"
    );
    assert_eq!(
        refused(vec![ResponseItem::LocalShellCall {
            id: None,
            call_id: some("c"),
            action: LocalShellAction::Exec(Err("words".to_string())),
        }]),
        "failed to serialize local_shell_call action: words"
    );
}

#[test]
fn the_first_item_at_fault_decides() {
    assert_eq!(
        refused(vec![
            said("user", "hi"),
            called("c", "f", ""),
            ResponseItem::LocalShellCall {
                id: None,
                call_id: None,
                action: LocalShellAction::Exec(Ok(json("{}"))),
            },
        ]),
        "invalid JSON tool arguments: EOF while parsing a value at line 1 column 0"
    );
}

#[test]
fn waiting_reasoning_passes_over_other_roles() {
    let messages = lowered(vec![
        thought("one", some("")),
        said("user", "hi"),
        thought("two", some("sig")),
        said("assistant", "answer"),
        said("assistant", "more"),
    ]);
    assert_eq!(messages[0], message("user", Some(text("hi"))));
    assert_eq!(messages[1].reasoning_content, some("one\n\ntwo"));
    assert_eq!(
        messages[1].thinking,
        Some(ChatThinking { content: "one\n\ntwo".to_string(), signature: some("sig") })
    );
    assert_eq!(messages[2], message("assistant", Some(text("more"))));
}

#[test]
fn no_reasoning_is_lost_over_a_conversation() {
    let mut replayed = message("assistant", Some(text("old")));
    replayed.reasoning_content = some("zero");
    let asked = request(vec![
        said("user", "hi"),
        thought("one", None),
        called("c1", "f", "{}"),
        thought("two", None),
        called("c2", "g", "{}"),
        thought("three", None),
    ]);
    let turn = lower_request(&asked, vec![replayed]).expect("turn");
    let kept: Vec<String> =
        turn.messages.iter().filter_map(|m| m.reasoning_content.clone()).collect();
    assert_eq!(kept.join("\n\n"), "zero\n\none\n\ntwo\n\nthree");
    assert_eq!(turn.messages.len(), 4);
    assert_eq!(turn.messages[3].reasoning_content, some("three"));
}

#[test]
fn reasoning_on_a_leading_system_message_goes_with_it() {
    let mut replayed = message("system", Some(text("policy")));
    replayed.reasoning_content = some("kept nowhere");
    let turn = lower_request(&request(vec![]), vec![replayed]).expect("turn");
    assert_eq!(turn.messages, vec![message("system", Some(text("policy")))]);
}

#[test]
fn calls_are_numbered_and_kept_over_a_conversation() {
    let mut replayed = message("assistant", None);
    replayed.tool_calls = Some(vec![call("c0", 0, "old", "{}")]);
    let asked = request(vec![
        called("c1", "f", "{}"),
        said("user", "go on"),
        called("c2", "g", "{}"),
        called("c3", "h", "{}"),
    ]);
    let turn = lower_request(&asked, vec![replayed]).expect("turn");
    assert_eq!(
        turn.messages[0].tool_calls,
        Some(vec![call("c0", 0, "old", "{}"), call("c1", 1, "f", "{}")])
    );
    assert_eq!(
        turn.messages[2].tool_calls,
        Some(vec![call("c2", 0, "g", "{}"), call("c3", 1, "h", "{}")])
    );
}

#[test]
fn settings_are_handed_on() {
    let mut asked = request(vec![]);
    asked.frequency_penalty = Some(FloatBits(0.5f64.to_bits()));
    asked.presence_penalty = Some(FloatBits((-1.25f64).to_bits()));
    asked.reasoning = Some(ReasoningRequest { effort: None, summary: some("auto") });
    asked.text = Some(TextControls {
        format: Some(TextFormat {
            kind: "json_schema".to_string(),
            name: "answer".to_string(),
            schema: json(r#"{"type":"object"}"#),
            strict: true,
        }),
    });
    let turn = lower_request(&asked, vec![]).expect("turn");
    assert_eq!(turn.frequency_penalty.map(|bits| f64::from_bits(bits.0)), Some(0.5));
    assert_eq!(turn.presence_penalty.map(|bits| f64::from_bits(bits.0)), Some(-1.25));
    assert_eq!(turn.reasoning_effort, None);
    assert_eq!(
        turn.response_format,
        Some(json(
            r#"{
                "type": "json_schema",
                "json_schema": {"name":"answer","schema":{"type":"object"},"strict":true}
            }"#
        ))
    );
    asked.text = Some(TextControls { format: None });
    let plain = lower_request(&asked, vec![]).expect("turn");
    assert_eq!(plain.response_format, None);
    assert_eq!(plain.messages, vec![]);
}

#[test]
fn tags_are_written_with_escaped_attributes() {
    let mut attributes = TextMap::new();
    attributes.insert("b".to_string(), "<x> & \"y\"".to_string());
    attributes.insert("a".to_string(), "1".to_string());
    assert_eq!(
        render_role_tag("note", &attributes, "a < b & c"),
        "<note a=\"1\" b=\"&lt;x> &amp; &quot;y&quot;\">a < b & c</note>"
    );
    assert_eq!(render_role_tag("t", &TextMap::new(), ""), "<t></t>");
}

#[test]
fn tags_wrap_content_that_is_there() {
    let mut plain = message("user", Some(json(r#"{"k":[1]}"#)));
    wrap_role_tag(&mut plain, &some("t"), &TextMap::new());
    assert_eq!(plain.content, Some(text(r#"<t>{"k":[1]}</t>"#)));
    let mut bare = message("user", None);
    wrap_role_tag(&mut bare, &some("t"), &TextMap::new());
    assert_eq!(bare.content, None);
    let mut untagged = message("user", Some(text("x")));
    wrap_role_tag(&mut untagged, &None, &TextMap::new());
    assert_eq!(untagged.content, Some(text("x")));
}

#[test]
fn without_a_policy_messages_stay() {
    let mut messages = vec![message("anyone", None)];
    assert_eq!(apply_role_rules(&mut messages, None), Ok(()));
    assert_eq!(messages, vec![message("anyone", None)]);
}

#[test]
fn rules_apply_by_position() {
    let mut rename = rule(Some(When::Inline), Action::Rewrite);
    rename.target_role = some("user");
    let roles = policy(
        vec![
            ("system", vec![rule(Some(When::Leading), Action::Accept), rename]),
            ("note", vec![rule(Some(When::Always), Action::Drop)]),
        ],
        vec![],
    );
    let mut messages = vec![
        message("system", Some(text("a"))),
        message("note", Some(text("b"))),
        message("system", Some(text("c"))),
    ];
    assert_eq!(apply_role_rules(&mut messages, Some(&roles)), Ok(()));
    assert_eq!(
        messages,
        vec![message("system", Some(text("a"))), message("user", Some(text("c")))]
    );
}

#[test]
fn rewrite_without_a_target_keeps_the_role() {
    let roles = policy(vec![("*", vec![rule(None, Action::Rewrite)])], vec![]);
    let mut messages = vec![message("user", Some(text("a")))];
    assert_eq!(apply_role_rules(&mut messages, Some(&roles)), Ok(()));
    assert_eq!(messages, vec![message("user", Some(text("a")))]);
}

#[test]
fn refusals_of_roles_have_their_words() {
    let roles = policy(
        vec![
            ("user", vec![rule(None, Action::Accept)]),
            ("system", vec![rule(Some(When::Leading), Action::Accept)]),
            ("tool", vec![rule(None, Action::Reject)]),
        ],
        vec![],
    );
    for (role, words) in [
        ("other", "role \"other\" is not permitted by the model profile roles config"),
        ("system", "role \"system\" at index 1 matches no rule in the model profile roles config"),
        ("tool", "role \"tool\" is rejected by the model profile roles config"),
    ] {
        let mut messages = vec![message("user", None), message(role, None)];
        let error = apply_role_rules(&mut messages, Some(&roles)).expect_err("refused");
        assert_eq!(error.message(), words);
        assert_eq!(messages, vec![]);
    }
}

#[test]
fn an_empty_list_of_rules_is_not_that_of_the_star() {
    let roles = policy(vec![("user", vec![]), ("*", vec![rule(None, Action::Accept)])], vec![]);
    let mut messages = vec![message("user", None)];
    assert_eq!(
        apply_role_rules(&mut messages, Some(&roles)).expect_err("refused").message(),
        "role \"user\" at index 0 matches no rule in the model profile roles config"
    );
}

#[test]
fn runs_merge_texts_calls_and_reasoning() {
    let mut first = message("assistant", Some(text("a")));
    first.reasoning_content = some("r1");
    first.tool_calls = Some(vec![call("c1", 0, "f", "{}"), call("c2", 1, "g", "{}")]);
    first.name = some("gone");
    let mut second = message("assistant", Some(text("")));
    second.thinking = Some(ChatThinking { content: "t".to_string(), signature: some("s") });
    let mut third = message("assistant", Some(json("[2]")));
    third.reasoning_content = some("r3");
    third.tool_calls = Some(vec![call("c3", 0, "h", "{}")]);
    let mut messages = vec![
        message("user", Some(text("u"))),
        message("user", Some(text("v"))),
        first,
        second,
        third,
    ];
    merge_adjacent_role_runs(&mut messages, &["assistant".to_string()]);
    let mut merged = message("assistant", Some(text("a\n\n[2]")));
    merged.reasoning_content = some("r1\n\nr3");
    merged.thinking =
        Some(ChatThinking { content: "r1\n\nr3".to_string(), signature: some("s") });
    merged.tool_calls = Some(vec![
        call("c1", 0, "f", "{}"),
        call("c2", 1, "g", "{}"),
        call("c3", 2, "h", "{}"),
    ]);
    assert_eq!(
        messages,
        vec![message("user", Some(text("u"))), message("user", Some(text("v"))), merged]
    );
}

#[test]
fn runs_that_carry_nothing_are_gone() {
    let mut messages = vec![
        message("user", Some(text("a"))),
        message("assistant", Some(text(""))),
        message("user", Some(text("b"))),
    ];
    merge_adjacent_role_runs(&mut messages, &["assistant".to_string(), "user".to_string()]);
    assert_eq!(
        messages,
        vec![message("user", Some(text("a"))), message("user", Some(text("b")))]
    );
}

#[test]
fn without_roles_to_merge_nothing_is_merged() {
    let mut messages = vec![message("user", None), message("user", Some(text("a")))];
    let before = messages.clone();
    merge_adjacent_role_runs(&mut messages, &[]);
    assert_eq!(messages, before);
}

#[test]
fn merged_neighbours_differ_in_role() {
    let mut messages = vec![
        message("user", Some(text("a"))),
        message("user", Some(text("b"))),
        message("assistant", Some(text("c"))),
        message("user", Some(text("d"))),
    ];
    merge_adjacent_role_runs(&mut messages, &["user".to_string(), "assistant".to_string()]);
    let roles: Vec<&str> = messages.iter().map(|m| m.role.as_str()).collect();
    assert_eq!(roles, vec!["user", "assistant", "user"]);
}

#[test]
fn merging_twice_changes_nothing() {
    let mut thinking = message("assistant", None);
    thinking.thinking = Some(ChatThinking { content: "t".to_string(), signature: None });
    let mut calling = message("assistant", Some(text("")));
    calling.tool_calls = Some(vec![call("c1", 4, "f", "{}")]);
    let mut messages = vec![
        message("user", Some(json("[]"))),
        message("user", Some(Json::Null)),
        thinking,
        calling,
        message("tool", None),
        message("tool", Some(text(""))),
        message("user", Some(text("d"))),
    ];
    let roles = ["user".to_string(), "assistant".to_string()];
    merge_adjacent_role_runs(&mut messages, &roles);
    let names: Vec<&str> = messages.iter().map(|m| m.role.as_str()).collect();
    assert_eq!(names, vec!["user", "assistant", "tool", "tool", "user"]);
    assert_eq!(messages[0].content, Some(text("[]\n\nnull")));
    assert_eq!(messages[1].reasoning_content, some(""));
    let once = messages.clone();
    merge_adjacent_role_runs(&mut messages, &roles);
    assert_eq!(messages, once);
}

#[test]
fn a_second_merge_joins_what_an_empty_run_kept_apart() {
    let mut messages = vec![
        message("user", Some(text("a"))),
        message("assistant", None),
        message("user", Some(text("b"))),
    ];
    let roles = ["user".to_string(), "assistant".to_string()];
    merge_adjacent_role_runs(&mut messages, &roles);
    assert_eq!(messages.len(), 2);
    merge_adjacent_role_runs(&mut messages, &roles);
    assert_eq!(messages, vec![message("user", Some(text("a\n\nb")))]);
}

#[test]
fn a_system_message_behind_the_front_keeps_calls_and_reasoning() {
    let mut system = message("system", Some(text("mid")));
    system.tool_calls = Some(vec![call("c0", 0, "f", "{}")]);
    system.reasoning_content = some("r");
    let baseline = vec![
        message("system", Some(text("top"))),
        message("user", Some(text("u"))),
        system.clone(),
    ];
    let turn = lower_request(&request(vec![called("c1", "g", "{}")]), baseline).expect("turn");
    assert_eq!(turn.messages.len(), 4);
    assert_eq!(turn.messages[2], system);
    assert_eq!(turn.messages[3].tool_calls, Some(vec![call("c1", 0, "g", "{}")]));
}

#[test]
fn calls_on_a_leading_system_message_go_with_it() {
    let mut system = message("system", Some(text("policy")));
    system.tool_calls = Some(vec![call("c0", 0, "f", "{}")]);
    let turn = lower_request(&request(vec![]), vec![system]).expect("turn");
    assert_eq!(turn.messages, vec![message("system", Some(text("policy")))]);
}

#[test]
fn a_policy_leaves_replayed_messages_as_they_are() {
    let roles = policy(vec![("*", vec![rule(None, Action::Drop)])], vec!["user"]);
    let baseline = vec![
        message("user", Some(text("a"))),
        message("user", Some(text("b"))),
        message("assistant", None),
    ];
    let turn = with_policy(
        vec![said("user", "c"), called("c1", "f", "{}")],
        baseline.clone(),
        &roles,
    );
    assert_eq!(turn.messages, baseline);
}

#[test]
fn a_policy_sees_roles_as_they_came() {
    let roles = policy(
        vec![
            ("developer", vec![rule(None, Action::Accept)]),
            ("system", vec![rule(None, Action::Accept)]),
        ],
        vec![],
    );
    let mut asked = request(vec![said("developer", "a"), said("developer", "b")]);
    asked.instructions = "first".to_string();
    let turn = lower_request_with_image_agent_and_roles(&asked, vec![], false, Some(&roles))
        .expect("turn");
    assert_eq!(
        turn.messages,
        vec![
            message("system", Some(text("first"))),
            message("developer", Some(text("a"))),
            message("developer", Some(text("b"))),
        ]
    );
}

#[test]
fn a_policy_that_drops_nothing_keeps_calls_and_reasoning() {
    let roles = policy(vec![("*", vec![rule(None, Action::Accept)])], vec!["assistant"]);
    let mut replayed = message("assistant", None);
    replayed.reasoning_content = some("zero");
    let turn = with_policy(
        vec![
            thought("one", None),
            called("c1", "f", "{}"),
            thought("two", None),
            said("assistant", "a"),
            called("c2", "g", "{}"),
            thought("three", None),
        ],
        vec![replayed.clone()],
        &roles,
    );
    assert_eq!(turn.messages.len(), 2);
    assert_eq!(turn.messages[0], replayed);
    assert_eq!(turn.messages[1].content, Some(text("a")));
    assert_eq!(turn.messages[1].reasoning_content, some("one\n\ntwo\n\nthree"));
    assert_eq!(
        turn.messages[1].tool_calls,
        Some(vec![call("c1", 0, "f", "{}"), call("c2", 1, "g", "{}")])
    );
}

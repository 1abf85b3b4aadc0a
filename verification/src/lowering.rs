//! Lowering of a request to the messages and tools of a turn.
use crate::chat::{
    call_views, message_views, plain_message, tool_views, ChatFunctionCall, ChatMessage,
    ChatTool, ChatToolCall, MessageView, ToolCallView, ToolView,
};
use crate::codec::{parsed_tree, serialize, serialized_text};
use crate::config::RolesConfig;
use crate::content::{
    message_content, message_content_to_chat_value, parse_json_string, parsed_arguments,
    stringify_tool_output, tool_output_text,
};
use crate::error::{AppError, AppResult};
use crate::json::{copy_items, object1, object2, object3, optional_tree, trees, Json, JsonTree};
use crate::messages::{hoist_system_messages, hoisted};
use crate::reasoning::{
    carried_reasoning, chat_parts, optional_chat_parts, optional_into_chat_parts, pending_view,
    reasoning_after, reasoning_block_text, reasoning_item_text, reasoning_joined, reasoning_of,
    PendingReasoning, ReasoningView,
};
use crate::responses::{
    FloatBits, LocalShellAction, ReasoningRequest, ResponseItem, ResponsesRequest, TextControls,
    TextFormat,
};
use crate::roles::{apply_role_rules, message_calls, role_shaped};
use crate::text::{
    ascii_lowercase, decimal, decimal_text, lowercased, optional_text, same_text, trim, trimmed,
};
use crate::tools::{
    build_tool_registry, chat_tools, lower_tools, registered, sorted_tools, tool_kinds,
    ToolKind, ToolRegistry,
};
use crate::validate::{request_error, validate_request};
use crate::web_search::{
    placeholder_text, search_arguments, web_search_arguments, web_search_placeholder_result,
};
use vstd::prelude::*;

verus! {

broadcast use crate::chat::message_views_push;

/// A call of a function as a message carries it.
pub open spec fn function_call(
    call_id: Seq<char>,
    name: Seq<char>,
    arguments: JsonTree,
    index: nat,
) -> ToolCallView {
    ToolCallView {
        id: Some(call_id),
        index: Some(index as usize),
        kind: "function"@,
        name: Some(name),
        arguments: Some(arguments),
    }
}

/// Whether a tool call joins the last message: it is the assistant's, and not
/// among the first `merge_floor`.
pub open spec fn joins_last(messages: Seq<MessageView>, merge_floor: nat) -> bool {
    messages.len() > merge_floor && messages.last().role == "assistant"@
}

/// The assistant's message with one more tool call, and with more reasoning
/// where there is some.
pub open spec fn with_call(
    message: MessageView,
    call_id: Seq<char>,
    name: Seq<char>,
    arguments: JsonTree,
    pending: Option<ReasoningView>,
) -> MessageView {
    let calls = message_calls(message);
    let parts = match pending {
        Some(reasoning) => chat_parts(reasoning_joined(carried_reasoning(message), reasoning)),
        None => (message.reasoning_content, message.thinking),
    };
    MessageView {
        tool_calls: Some(calls.push(function_call(call_id, name, arguments, calls.len()))),
        reasoning_content: parts.0,
        thinking: parts.1,
        ..message
    }
}

/// A new message of the assistant that carries reasoning and nothing else.
pub open spec fn reasoning_message(pending: Option<ReasoningView>) -> MessageView {
    MessageView {
        reasoning_content: optional_chat_parts(pending).0,
        thinking: optional_chat_parts(pending).1,
        ..plain_message("assistant"@, None)
    }
}

/// Messages with one more tool call, in the last message where it joins it and
/// in a new one of the assistant where it does not.
pub open spec fn with_tool_call(
    messages: Seq<MessageView>,
    call_id: Seq<char>,
    name: Seq<char>,
    arguments: JsonTree,
    pending: Option<ReasoningView>,
    merge_floor: nat,
) -> Seq<MessageView> {
    if joins_last(messages, merge_floor) {
        messages.drop_last().push(
            with_call(messages.last(), call_id, name, arguments, pending),
        )
    } else {
        messages.push(
            MessageView {
                tool_calls: Some(seq![function_call(call_id, name, arguments, 0)]),
                ..reasoning_message(pending)
            },
        )
    }
}

/// Adds a tool call to the turn of the assistant that made it.
pub fn append_tool_call(
    messages: &mut Vec<ChatMessage>,
    call_id: String,
    name: String,
    arguments: Json,
    pending_reasoning: Option<PendingReasoning>,
    merge_floor: usize,
)
    ensures
        message_views(final(messages)@) == with_tool_call(
            message_views(old(messages)@),
            call_id@,
            name@,
            arguments@,
            pending_view(pending_reasoning),
            merge_floor as nat,
        ),
{
    let ghost views = message_views(messages@);
    let count: usize = messages.len();
    let mergeable = count > merge_floor && same_text(
        messages[count - 1].role.as_str(),
        "assistant",
    );
    if mergeable {
        if let Some(message) = messages.pop() {
            let mut last = message;
            let ghost before = last@;
            let mut calls: Vec<ChatToolCall> = match last.tool_calls.take() {
                Some(calls) => calls,
                None => Vec::new(),
            };
            assert(call_views(calls@) =~= message_calls(before));
            let position: usize = calls.len();
            let call = ChatToolCall {
                id: Some(call_id),
                index: Some(position),
                kind: "function".to_string(),
                function: ChatFunctionCall { name: Some(name), arguments: Some(arguments) },
            };
            let ghost earlier = calls@;
            calls.push(call);
            assert(call_views(calls@) =~= call_views(earlier).push(call@));
            last.tool_calls = Some(calls);
            if let Some(reasoning) = pending_reasoning {
                let mut merged = reasoning_of(&last);
                merged.append(reasoning.text, reasoning.signature);
                let (reasoning_content, thinking) = merged.into_chat_parts();
                last.reasoning_content = reasoning_content;
                last.thinking = thinking;
            }
            assert(message_views(messages@) =~= views.drop_last());
            messages.push(last);
        }
        return;
    }
    let (reasoning_content, thinking) = optional_into_chat_parts(pending_reasoning);
    let call = ChatToolCall {
        id: Some(call_id),
        index: Some(0),
        kind: "function".to_string(),
        function: ChatFunctionCall { name: Some(name), arguments: Some(arguments) },
    };
    let calls = vec![call];
    assert(call_views(calls@) =~= seq![call@]);
    messages.push(
        ChatMessage {
            role: "assistant".to_string(),
            content: None,
            tool_call_id: None,
            name: None,
            reasoning_content,
            thinking,
            tool_calls: Some(calls),
        },
    );
}

/// The role of a message in a chat without a role policy.
pub open spec fn chat_role(role: Seq<char>) -> Seq<char> {
    if role == "developer"@ {
        "system"@
    } else {
        role
    }
}

/// The role of a message in a chat without a role policy.
pub fn normalize_chat_role(role: &str) -> (normalized: String)
    ensures
        normalized@ == chat_role(role@),
{
    if same_text(role, "developer") {
        "system".to_string()
    } else {
        role.to_string()
    }
}

/// The level of reasoning in lower case and without white space around it;
/// none where nothing is left.
pub open spec fn reasoning_level(effort: Option<Seq<char>>) -> Option<Seq<char>> {
    match effort {
        Some(effort) => if trimmed(effort).len() == 0 {
            None
        } else {
            Some(lowercased(trimmed(effort)))
        },
        None => None,
    }
}

/// The level of reasoning in lower case and without white space around it;
/// none where nothing is left.
pub fn normalize_reasoning_effort(effort: Option<&str>) -> (level: AppResult<Option<String>>)
    ensures
        level is Ok,
        optional_text(level->Ok_0) == reasoning_level(
            match effort {
                Some(effort) => Some(effort@),
                None => None,
            },
        ),
{
    match effort {
        Some(effort) => {
            let core = trim(effort);
            if core.as_str().is_empty() {
                Ok(None)
            } else {
                Ok(Some(ascii_lowercase(core.as_str())))
            }
        },
        None => Ok(None),
    }
}

/// Messages so far, and the reasoning that waits for the next message of the
/// assistant.
#[verifier::ext_equal]
pub struct LoweringView {
    pub messages: Seq<MessageView>,
    pub pending: Option<ReasoningView>,
}

/// The result of a tool as a message.
pub open spec fn tool_message(call_id: Option<Seq<char>>, output: Seq<char>) -> MessageView {
    MessageView { tool_call_id: call_id, ..plain_message("tool"@, Some(JsonTree::Text(output))) }
}

/// The signature of a reasoning block, where it is not empty.
pub open spec fn block_signature(encrypted: Option<String>) -> Option<Seq<char>> {
    match encrypted {
        Some(signature) => if signature@.len() == 0 {
            None
        } else {
            Some(signature@)
        },
        None => None,
    }
}

/// The result of a search for tools as a value.
pub open spec fn tool_search_result(
    status: Seq<char>,
    execution: Seq<char>,
    tools: Seq<Json>,
) -> JsonTree {
    JsonTree::Object(
        map![
            "status"@ => JsonTree::Text(status),
            "execution"@ => JsonTree::Text(execution),
            "tools"@ => JsonTree::Array(trees(tools)),
        ],
    )
}

/// The state after a tool call, which takes the reasoning that waits.
pub open spec fn after_call(
    state: LoweringView,
    call_id: Seq<char>,
    name: Seq<char>,
    arguments: JsonTree,
    merge_floor: nat,
) -> LoweringView {
    LoweringView {
        messages: with_tool_call(
            state.messages,
            call_id,
            name,
            arguments,
            state.pending,
            merge_floor,
        ),
        pending: None,
    }
}

/// The state with one more message.
pub open spec fn after_message(state: LoweringView, message: MessageView) -> LoweringView {
    LoweringView { messages: state.messages.push(message), ..state }
}

/// The state after a message of a role: one of the assistant takes the
/// reasoning that waits.
pub open spec fn after_role_message(
    state: LoweringView,
    role: Seq<char>,
    content: JsonTree,
) -> LoweringView {
    let message = plain_message(role, Some(content));
    if role == "assistant"@ {
        LoweringView {
            messages: state.messages.push(
                MessageView {
                    reasoning_content: optional_chat_parts(state.pending).0,
                    thinking: optional_chat_parts(state.pending).1,
                    ..message
                },
            ),
            pending: None,
        }
    } else {
        after_message(state, message)
    }
}

/// The id under which a web search is replayed.
pub open spec fn search_call_id(id: Option<String>, messages: Seq<MessageView>) -> Seq<char> {
    match id {
        Some(id) => id@,
        None => "web_search_missing_replay_"@ + decimal(messages.len()),
    }
}

/// The state after an item of the conversation, or why the request is refused.
pub open spec fn after_item(
    state: LoweringView,
    item: ResponseItem,
    roles_active: bool,
    merge_floor: nat,
) -> Result<LoweringView, Seq<char>> {
    match item {
        ResponseItem::Message { id, role, content, phase } => Ok(
            after_role_message(
                state,
                if roles_active {
                    role@
                } else {
                    chat_role(role@)
                },
                message_content(content@),
            ),
        ),
        ResponseItem::Reasoning { id, summary, content, encrypted_content } => Ok(
            LoweringView {
                pending: Some(
                    reasoning_after(
                        state.pending,
                        ReasoningView {
                            text: reasoning_block_text(summary@, content),
                            signature: block_signature(encrypted_content),
                        },
                    ),
                ),
                ..state
            },
        ),
        ResponseItem::FunctionCall { id, name, namespace, arguments, call_id } =>
            match parsed_arguments(parsed_tree(arguments@)) {
                Ok(arguments) => Ok(after_call(state, call_id@, name@, arguments, merge_floor)),
                Err(message) => Err(message),
            },
        ResponseItem::CustomToolCall { id, call_id, name, input } => Ok(
            after_call(
                state,
                call_id@,
                name@,
                JsonTree::Object(map!["input"@ => JsonTree::Text(input@)]),
                merge_floor,
            ),
        ),
        ResponseItem::ToolSearchCall { call_id, status, execution, arguments } => if execution@
            != "client"@ {
            Err("only tool_search calls with execution=client are supported"@)
        } else {
            Ok(
                after_call(
                    state,
                    match call_id {
                        Some(call_id) => call_id@,
                        None => "tool_search_missing_call_id"@,
                    },
                    "tool_search"@,
                    arguments@,
                    merge_floor,
                ),
            )
        },
        ResponseItem::LocalShellCall { id, call_id, action } => if call_id is None && id is None {
            Err("local_shell_call missing call_id"@)
        } else {
            let call = match call_id {
                Some(call_id) => call_id@,
                None => id->Some_0@,
            };
            match action {
                LocalShellAction::Exec(Ok(arguments)) => Ok(
                    after_call(state, call, "local_shell"@, arguments@, merge_floor),
                ),
                LocalShellAction::Exec(Err(words)) => Err(
                    "failed to serialize local_shell_call action: "@ + words@,
                ),
            }
        },
        ResponseItem::FunctionCallOutput { call_id, output } => Ok(
            after_message(state, tool_message(Some(call_id@), tool_output_text(output@))),
        ),
        ResponseItem::CustomToolCallOutput { call_id, name, output } => Ok(
            after_message(state, tool_message(Some(call_id@), tool_output_text(output@))),
        ),
        ResponseItem::ToolSearchOutput { call_id, status, execution, tools } => Ok(
            after_message(
                state,
                tool_message(
                    optional_text(call_id),
                    serialized_text(tool_search_result(status@, execution@, tools@)),
                ),
            ),
        ),
        ResponseItem::WebSearchCall { id, action } => {
            let call_id = search_call_id(id, state.messages);
            Ok(
                after_message(
                    after_call(
                        state,
                        call_id,
                        "web_search"@,
                        search_arguments(action),
                        merge_floor,
                    ),
                    tool_message(Some(call_id), placeholder_text(action)),
                ),
            )
        },
        ResponseItem::ImageGenerationCall { id } => Ok(state),
    }
}

/// What messages and waiting reasoning hold.
pub open spec fn state_view(
    messages: Seq<ChatMessage>,
    pending: Option<PendingReasoning>,
) -> LoweringView {
    LoweringView { messages: message_views(messages), pending: pending_view(pending) }
}

/// The result of a tool as a message.
fn tool_chat_message(call_id: Option<String>, output: String) -> (message: ChatMessage)
    ensures
        message@ == tool_message(optional_text(call_id), output@),
{
    let mut message = ChatMessage::plain("tool", Some(Json::Text(output)));
    message.tool_call_id = call_id;
    message
}

/// The text that serialising the result of a search for tools gave, or the
/// refusal of the request.
pub fn tool_search_output_text(written: Result<String, String>) -> (words: AppResult<String>)
    ensures
        match (written, words) {
            (Ok(written), Ok(words)) => words@ == written@,
            (Err(written), Err(error)) => error@ == "failed to serialize tool_search_output: "@
                + written@,
            _ => false,
        },
{
    match written {
        Ok(words) => Ok(words),
        Err(words) => {
            let mut message = "failed to serialize tool_search_output: ".to_string();
            message.append(words.as_str());
            Err(AppError::bad_request(message))
        },
    }
}

/// Lowers one item of the conversation.
fn lower_item(
    messages: &mut Vec<ChatMessage>,
    pending: &mut Option<PendingReasoning>,
    item: &ResponseItem,
    roles_active: bool,
    merge_floor: usize,
) -> (outcome: AppResult<()>)
    ensures
        match outcome {
            Ok(_) => after_item(
                state_view(old(messages)@, *old(pending)),
                *item,
                roles_active,
                merge_floor as nat,
            ) == Ok::<LoweringView, Seq<char>>(state_view(final(messages)@, *final(pending))),
            Err(error) => after_item(
                state_view(old(messages)@, *old(pending)),
                *item,
                roles_active,
                merge_floor as nat,
            ) == Err::<LoweringView, Seq<char>>(error@),
        },
{
    match item {
        ResponseItem::Message { id: _, role, content, phase: _ } => {
            let value = match message_content_to_chat_value(content.as_slice()) {
                Ok(value) => value,
                Err(error) => {
                    return Err(error);
                },
            };
            let role = if roles_active {
                role.clone()
            } else {
                normalize_chat_role(role.as_str())
            };
            let (reasoning_content, thinking) = if same_text(role.as_str(), "assistant") {
                optional_into_chat_parts(pending.take())
            } else {
                (None, None)
            };
            messages.push(
                ChatMessage {
                    role,
                    content: Some(value),
                    tool_call_id: None,
                    name: None,
                    reasoning_content,
                    thinking,
                    tool_calls: None,
                },
            );
            Ok(())
        },
        ResponseItem::Reasoning { id: _, summary, content, encrypted_content } => {
            let text = reasoning_item_text(summary.as_slice(), content);
            let signature: Option<String> = match encrypted_content {
                Some(signature) => if signature.as_str().is_empty() {
                    None
                } else {
                    Some(signature.clone())
                },
                None => None,
            };
            let waiting = match pending.take() {
                Some(existing) => {
                    let mut existing = existing;
                    existing.append(text, signature);
                    existing
                },
                None => PendingReasoning::from_parts(text, signature),
            };
            *pending = Some(waiting);
            Ok(())
        },
        ResponseItem::FunctionCall { id: _, name, namespace: _, arguments, call_id } => {
            match parse_json_string(arguments.as_str()) {
                Ok(arguments) => {
                    append_tool_call(
                        messages,
                        call_id.clone(),
                        name.clone(),
                        arguments,
                        pending.take(),
                        merge_floor,
                    );
                    Ok(())
                },
                Err(error) => Err(error),
            }
        },
        ResponseItem::CustomToolCall { id: _, call_id, name, input } => {
            append_tool_call(
                messages,
                call_id.clone(),
                name.clone(),
                object1("input", Json::Text(input.clone())),
                pending.take(),
                merge_floor,
            );
            Ok(())
        },
        ResponseItem::ToolSearchCall { call_id, status: _, execution, arguments } => {
            if !same_text(execution.as_str(), "client") {
                return Err(
                    AppError::bad_request(
                        "only tool_search calls with execution=client are supported".to_string(),
                    ),
                );
            }
            let call = match call_id {
                Some(call_id) => call_id.clone(),
                None => "tool_search_missing_call_id".to_string(),
            };
            append_tool_call(
                messages,
                call,
                "tool_search".to_string(),
                arguments.clone(),
                pending.take(),
                merge_floor,
            );
            Ok(())
        },
        ResponseItem::LocalShellCall { id, call_id, action } => {
            let call = match (call_id, id) {
                (Some(call_id), _) => call_id.clone(),
                (None, Some(id)) => id.clone(),
                (None, None) => {
                    return Err(
                        AppError::bad_request("local_shell_call missing call_id".to_string()),
                    );
                },
            };
            match action {
                LocalShellAction::Exec(Ok(arguments)) => {
                    append_tool_call(
                        messages,
                        call,
                        "local_shell".to_string(),
                        arguments.clone(),
                        pending.take(),
                        merge_floor,
                    );
                    Ok(())
                },
                LocalShellAction::Exec(Err(words)) => {
                    let mut message = "failed to serialize local_shell_call action: ".to_string();
                    message.append(words.as_str());
                    Err(AppError::bad_request(message))
                },
            }
        },
        ResponseItem::FunctionCallOutput { call_id, output }
        | ResponseItem::CustomToolCallOutput { call_id, name: _, output } => {
            messages.push(tool_chat_message(Some(call_id.clone()), stringify_tool_output(output)));
            Ok(())
        },
        ResponseItem::ToolSearchOutput { call_id, status, execution, tools } => {
            let result = object3(
                "status",
                Json::Text(status.clone()),
                "execution",
                Json::Text(execution.clone()),
                "tools",
                Json::Array(copy_items(tools)),
            );
            match tool_search_output_text(serialize(&result)) {
                Ok(words) => {
                    messages.push(tool_chat_message(call_id.clone(), words));
                    Ok(())
                },
                Err(error) => Err(error),
            }
        },
        ResponseItem::WebSearchCall { id, action } => {
            let call_id = match id {
                Some(id) => id.clone(),
                None => {
                    let mut call_id = "web_search_missing_replay_".to_string();
                    call_id.append(decimal_text(messages.len()).as_str());
                    call_id
                },
            };
            append_tool_call(
                messages,
                call_id.clone(),
                "web_search".to_string(),
                web_search_arguments(action),
                pending.take(),
                merge_floor,
            );
            messages.push(tool_chat_message(Some(call_id), web_search_placeholder_result(action)));
            Ok(())
        },
        ResponseItem::ImageGenerationCall { id: _ } => Ok(()),
    }
}

/// The state after items of the conversation, or why the request is refused:
/// the first item that is at fault decides.
pub open spec fn after_items(
    start: LoweringView,
    items: Seq<ResponseItem>,
    roles_active: bool,
    merge_floor: nat,
) -> Result<LoweringView, Seq<char>>
    decreases items.len(),
{
    if items.len() == 0 {
        Ok(start)
    } else {
        match after_items(start, items.drop_last(), roles_active, merge_floor) {
            Ok(state) => after_item(state, items.last(), roles_active, merge_floor),
            Err(message) => Err(message),
        }
    }
}

proof fn after_items_error_stays(
    start: LoweringView,
    items: Seq<ResponseItem>,
    roles_active: bool,
    merge_floor: nat,
    upto: int,
)
    requires
        0 <= upto <= items.len(),
        after_items(start, items.take(upto), roles_active, merge_floor) is Err,
    ensures
        after_items(start, items, roles_active, merge_floor) == after_items(
            start,
            items.take(upto),
            roles_active,
            merge_floor,
        ),
    decreases items.len() - upto,
{
    if upto < items.len() {
        assert(items.take(upto + 1).drop_last() =~= items.take(upto));
        after_items_error_stays(start, items, roles_active, merge_floor, upto + 1);
    } else {
        assert(items.take(upto) =~= items);
    }
}

/// The messages with which a turn starts: the replayed ones, or, where there
/// are none, the instructions.
pub open spec fn first_messages(baseline: Seq<MessageView>, instructions: Seq<char>) -> Seq<
    MessageView,
> {
    if baseline.len() == 0 && instructions.len() > 0 {
        seq![plain_message("system"@, Some(JsonTree::Text(instructions)))]
    } else {
        baseline
    }
}

/// The messages of a state, with reasoning that still waits in a message of its
/// own.
pub open spec fn flushed(state: LoweringView) -> Seq<MessageView> {
    match state.pending {
        Some(_) => state.messages.push(reasoning_message(state.pending)),
        None => state.messages,
    }
}

/// How many messages no tool call may join: with a role policy, the replayed
/// ones.
pub open spec fn floor_of(baseline: Seq<MessageView>, roles: Option<&RolesConfig>) -> nat {
    if roles is Some {
        baseline.len()
    } else {
        0
    }
}

/// The messages of a turn, or why the request is refused. A role policy shapes
/// the messages behind the replayed ones; without one the system messages at
/// the front become one.
pub open spec fn lowered_messages(
    request: ResponsesRequest,
    baseline: Seq<MessageView>,
    roles: Option<&RolesConfig>,
) -> Result<Seq<MessageView>, Seq<char>> {
    let start = LoweringView {
        messages: first_messages(baseline, request.instructions@),
        pending: None,
    };
    match after_items(start, request.input@, roles is Some, floor_of(baseline, roles)) {
        Err(message) => Err(message),
        Ok(state) => {
            let all = flushed(state);
            match roles {
                None => Ok(hoisted(all)),
                Some(config) => match role_shaped(all.skip(baseline.len() as int), *config) {
                    Ok(tail) => Ok(all.take(baseline.len() as int) + tail),
                    Err(message) => Err(message),
                },
            }
        },
    }
}

/// A turn as the chat model gets it.
#[derive(Debug, Clone)]
pub struct LoweredTurn {
    pub messages: Vec<ChatMessage>,
    pub tools: Vec<ChatTool>,
    pub tool_registry: ToolRegistry,
    pub response_format: Option<Json>,
    pub reasoning_effort: Option<String>,
    pub frequency_penalty: Option<FloatBits>,
    pub presence_penalty: Option<FloatBits>,
}

/// What `LoweredTurn` holds.
#[verifier::ext_equal]
pub struct TurnView {
    pub messages: Seq<MessageView>,
    pub tools: Seq<ToolView>,
    pub tool_registry: Map<Seq<char>, ToolKind>,
    pub response_format: Option<JsonTree>,
    pub reasoning_effort: Option<Seq<char>>,
    pub frequency_penalty: Option<FloatBits>,
    pub presence_penalty: Option<FloatBits>,
}

impl View for LoweredTurn {
    type V = TurnView;

    open spec fn view(&self) -> TurnView {
        TurnView {
            messages: message_views(self.messages@),
            tools: tool_views(self.tools@),
            tool_registry: self.tool_registry@,
            response_format: optional_tree(self.response_format),
            reasoning_effort: optional_text(self.reasoning_effort),
            frequency_penalty: self.frequency_penalty,
            presence_penalty: self.presence_penalty,
        }
    }
}

/// The format of the answer as the chat model gets it.
pub open spec fn response_format_of(controls: Option<TextControls>) -> Option<JsonTree> {
    match controls {
        Some(controls) => match controls.format {
            Some(format) => Some(format_tree(format)),
            None => None,
        },
        None => None,
    }
}

/// A format as a value.
pub open spec fn format_tree(format: TextFormat) -> JsonTree {
    JsonTree::Object(
        map![
            "type"@ => JsonTree::Text(format.kind@),
            "json_schema"@ => JsonTree::Object(
                map![
                    "name"@ => JsonTree::Text(format.name@),
                    "schema"@ => format.schema@,
                    "strict"@ => JsonTree::Bool(format.strict),
                ],
            ),
        ],
    )
}

/// The level of reasoning that a request asks for.
pub open spec fn requested_level(reasoning: Option<ReasoningRequest>) -> Option<Seq<char>> {
    match reasoning {
        Some(reasoning) => reasoning_level(optional_text(reasoning.effort)),
        None => None,
    }
}

/// The turn of a request, or why the request is refused: over the request as a
/// whole, over its tools, or over its conversation, in this order.
pub open spec fn lowered_turn(
    request: ResponsesRequest,
    baseline: Seq<MessageView>,
    image_agent_active: bool,
    roles: Option<&RolesConfig>,
) -> Result<TurnView, Seq<char>> {
    match request_error(request) {
        Some(message) => Err(message),
        None => match registered(tool_kinds(request.tools@, image_agent_active)) {
            Err(message) => Err(message),
            Ok(tool_registry) => match lowered_messages(request, baseline, roles) {
                Err(message) => Err(message),
                Ok(messages) => Ok(
                    TurnView {
                        messages,
                        tools: sorted_tools(chat_tools(request.tools@)),
                        tool_registry,
                        response_format: response_format_of(request.text),
                        reasoning_effort: requested_level(request.reasoning),
                        frequency_penalty: request.frequency_penalty,
                        presence_penalty: request.presence_penalty,
                    },
                ),
            },
        },
    }
}

/// What an outcome with a turn says.
pub open spec fn turn_outcome(outcome: AppResult<LoweredTurn>) -> Result<TurnView, Seq<char>> {
    match outcome {
        Ok(turn) => Ok(turn@),
        Err(error) => Err(error@),
    }
}

/// What an outcome with messages says.
pub open spec fn messages_outcome(outcome: AppResult<Vec<ChatMessage>>) -> Result<
    Seq<MessageView>,
    Seq<char>,
> {
    match outcome {
        Ok(messages) => Ok(message_views(messages@)),
        Err(error) => Err(error@),
    }
}

proof fn after_item_keeps(
    state: LoweringView,
    item: ResponseItem,
    roles_active: bool,
    merge_floor: nat,
    kept: nat,
)
    requires
        kept <= merge_floor,
        kept <= state.messages.len(),
        after_item(state, item, roles_active, merge_floor) is Ok,
    ensures
        ({
            let after = after_item(state, item, roles_active, merge_floor)->Ok_0.messages;
            after.len() >= state.messages.len() && after.take(kept as int) == state.messages.take(
                kept as int,
            )
        }),
{
    let after = after_item(state, item, roles_active, merge_floor)->Ok_0.messages;
    assert(after.take(kept as int) =~= state.messages.take(kept as int));
}

/// Messages that are out of reach of tool calls stay as they are over a
/// conversation, and there are no fewer messages than before.
pub proof fn after_items_keeps(
    start: LoweringView,
    items: Seq<ResponseItem>,
    roles_active: bool,
    merge_floor: nat,
    kept: nat,
)
    requires
        kept <= merge_floor,
        kept <= start.messages.len(),
        after_items(start, items, roles_active, merge_floor) is Ok,
    ensures
        ({
            let after = after_items(start, items, roles_active, merge_floor)->Ok_0.messages;
            after.len() >= start.messages.len() && after.take(kept as int) == start.messages.take(
                kept as int,
            )
        }),
    decreases items.len(),
{
    if items.len() > 0 {
        after_items_keeps(start, items.drop_last(), roles_active, merge_floor, kept);
        let before = after_items(start, items.drop_last(), roles_active, merge_floor)->Ok_0;
        after_item_keeps(before, items.last(), roles_active, merge_floor, kept);
    }
}

/// Lowers the conversation of a request.
fn lower_messages(
    request: &ResponsesRequest,
    baseline_messages: Vec<ChatMessage>,
    roles: Option<&RolesConfig>,
) -> (outcome: AppResult<Vec<ChatMessage>>)
    ensures
        messages_outcome(outcome) == lowered_messages(
            *request,
            message_views(baseline_messages@),
            roles,
        ),
{
    let ghost baseline = message_views(baseline_messages@);
    let mut messages = baseline_messages;
    let baseline_len: usize = messages.len();
    if messages.is_empty() && !request.instructions.as_str().is_empty() {
        messages.push(
            ChatMessage::plain("system", Some(Json::Text(request.instructions.clone()))),
        );
        assert(message_views(messages@) =~= first_messages(baseline, request.instructions@));
    }
    let merge_floor: usize = if roles.is_some() {
        baseline_len
    } else {
        0
    };
    let roles_active = roles.is_some();
    let mut pending: Option<PendingReasoning> = None;
    let ghost start = state_view(messages@, pending);
    let input = &request.input;
    let mut i: usize = 0;
    assert(input@.take(0) =~= Seq::<ResponseItem>::empty());
    while i < input.len()
        invariant
            i <= input.len(),
            *input == request.input,
            baseline == message_views(baseline_messages@),
            baseline_len == baseline.len(),
            roles_active == (roles is Some),
            merge_floor == floor_of(baseline, roles),
            start == (LoweringView {
                messages: first_messages(baseline, request.instructions@),
                pending: None,
            }),
            after_items(start, input@.take(i as int), roles_active, merge_floor as nat) == Ok::<
                LoweringView,
                Seq<char>,
            >(state_view(messages@, pending)),
        decreases input.len() - i,
    {
        proof {
            assert(input@.take(i + 1).drop_last() =~= input@.take(i as int));
            assert(input@.take(i + 1).last() == input@[i as int]);
        }
        match lower_item(&mut messages, &mut pending, &input[i], roles_active, merge_floor) {
            Ok(_) => {},
            Err(error) => {
                proof {
                    after_items_error_stays(
                        start,
                        input@,
                        roles_active,
                        merge_floor as nat,
                        i + 1,
                    );
                }
                return Err(error);
            },
        }
        i += 1;
    }
    proof {
        assert(input@.take(input@.len() as int) =~= input@);
        if roles_active {
            after_items_keeps(start, input@, roles_active, merge_floor as nat, baseline.len());
        }
    }
    let ghost state = state_view(messages@, pending);
    if let Some(reasoning) = pending {
        let (reasoning_content, thinking) = reasoning.into_chat_parts();
        messages.push(
            ChatMessage {
                role: "assistant".to_string(),
                content: None,
                tool_call_id: None,
                name: None,
                reasoning_content,
                thinking,
                tool_calls: None,
            },
        );
    }
    let ghost all = message_views(messages@);
    assert(all == flushed(state));
    if roles.is_some() {
        let mut new_messages = messages.split_off(baseline_len);
        proof {
            assert(message_views(messages@) =~= all.take(baseline_len as int));
            assert(message_views(new_messages@) =~= all.skip(baseline_len as int));
        }
        match apply_role_rules(&mut new_messages, roles) {
            Ok(_) => {},
            Err(error) => {
                return Err(error);
            },
        }
        let ghost front = messages@;
        let ghost tail = new_messages@;
        messages.append(&mut new_messages);
        assert(message_views(messages@) =~= message_views(front) + message_views(tail));
    } else {
        hoist_system_messages(&mut messages);
    }
    Ok(messages)
}

/// The format of the answer as the chat model gets it.
fn response_format_json(controls: &Option<TextControls>) -> (format: Option<Json>)
    ensures
        optional_tree(format) == response_format_of(*controls),
{
    match controls {
        Some(controls) => match &controls.format {
            Some(format) => Some(
                object2(
                    "type",
                    Json::Text(format.kind.clone()),
                    "json_schema",
                    object3(
                        "name",
                        Json::Text(format.name.clone()),
                        "schema",
                        format.schema.clone(),
                        "strict",
                        Json::Bool(format.strict),
                    ),
                ),
            ),
            None => None,
        },
        None => None,
    }
}

/// Lowers a turn without the image agent and without a role policy.
pub fn lower_request(request: &ResponsesRequest, baseline_messages: Vec<ChatMessage>) -> (
outcome: AppResult<LoweredTurn>)
    ensures
        turn_outcome(outcome) == lowered_turn(
            *request,
            message_views(baseline_messages@),
            false,
            None,
        ),
{
    lower_request_with_image_agent_and_roles(request, baseline_messages, false, None)
}

/// Lowers a turn without a role policy. Where the image agent is active, a tool
/// with the name of the image analysis is run by the server.
pub fn lower_request_with_image_agent(
    request: &ResponsesRequest,
    baseline_messages: Vec<ChatMessage>,
    image_agent_active: bool,
) -> (outcome: AppResult<LoweredTurn>)
    ensures
        turn_outcome(outcome) == lowered_turn(
            *request,
            message_views(baseline_messages@),
            image_agent_active,
            None,
        ),
{
    lower_request_with_image_agent_and_roles(request, baseline_messages, image_agent_active, None)
}

/// Lowers a turn. A role policy, where there is one, shapes the new messages
/// and never the replayed ones.
pub fn lower_request_with_image_agent_and_roles(
    request: &ResponsesRequest,
    baseline_messages: Vec<ChatMessage>,
    image_agent_active: bool,
    roles: Option<&RolesConfig>,
) -> (outcome: AppResult<LoweredTurn>)
    ensures
        turn_outcome(outcome) == lowered_turn(
            *request,
            message_views(baseline_messages@),
            image_agent_active,
            roles,
        ),
{
    match validate_request(request) {
        Ok(_) => {},
        Err(error) => {
            return Err(error);
        },
    }
    let tools = match lower_tools(request.tools.as_slice()) {
        Ok(tools) => tools,
        Err(error) => {
            return Err(error);
        },
    };
    let tool_registry = match build_tool_registry(request.tools.as_slice(), image_agent_active) {
        Ok(registry) => registry,
        Err(error) => {
            return Err(error);
        },
    };
    let messages = match lower_messages(request, baseline_messages, roles) {
        Ok(messages) => messages,
        Err(error) => {
            return Err(error);
        },
    };
    let effort = match &request.reasoning {
        Some(reasoning) => match &reasoning.effort {
            Some(effort) => Some(effort.as_str()),
            None => None,
        },
        None => None,
    };
    let reasoning_effort = match normalize_reasoning_effort(effort) {
        Ok(level) => level,
        Err(error) => {
            return Err(error);
        },
    };
    Ok(
        LoweredTurn {
            messages,
            tools,
            tool_registry,
            response_format: response_format_json(&request.text),
            reasoning_effort,
            frequency_penalty: request.frequency_penalty,
            presence_penalty: request.presence_penalty,
        },
    )
}

} // verus!

//! Messages and tools in the shape of the Chat interface.
use crate::json::{optional_tree, Json, JsonTree};
use crate::text::optional_text;
use vstd::prelude::*;

verus! {

/// Reasoning that a model signed.
#[derive(Debug, PartialEq)]
pub struct ChatThinking {
    pub content: String,
    pub signature: Option<String>,
}

/// The function that a tool call names, and its arguments.
#[derive(Debug, PartialEq)]
pub struct ChatFunctionCall {
    pub name: Option<String>,
    pub arguments: Option<Json>,
}

/// A call of a tool by the assistant.
#[derive(Debug, PartialEq)]
pub struct ChatToolCall {
    pub id: Option<String>,
    pub index: Option<usize>,
    pub kind: String,
    pub function: ChatFunctionCall,
}

/// A message of the conversation.
#[derive(Debug, PartialEq)]
pub struct ChatMessage {
    pub role: String,
    pub content: Option<Json>,
    pub tool_call_id: Option<String>,
    pub name: Option<String>,
    pub reasoning_content: Option<String>,
    pub thinking: Option<ChatThinking>,
    pub tool_calls: Option<Vec<ChatToolCall>>,
}

/// A function that a model may call.
#[derive(Debug, PartialEq)]
pub struct ChatToolDefinition {
    pub name: String,
    pub description: String,
    pub parameters: Option<Json>,
    pub strict: bool,
}

/// A tool that a model may call.
#[derive(Debug, PartialEq)]
pub struct ChatTool {
    pub kind: String,
    pub function: ChatToolDefinition,
}

/// What `ChatThinking` holds.
#[verifier::ext_equal]
pub struct ThinkingView {
    pub content: Seq<char>,
    pub signature: Option<Seq<char>>,
}

/// What `ChatToolCall` holds.
#[verifier::ext_equal]
pub struct ToolCallView {
    pub id: Option<Seq<char>>,
    pub index: Option<usize>,
    pub kind: Seq<char>,
    pub name: Option<Seq<char>>,
    pub arguments: Option<JsonTree>,
}

/// What `ChatMessage` holds.
#[verifier::ext_equal]
pub struct MessageView {
    pub role: Seq<char>,
    pub content: Option<JsonTree>,
    pub tool_call_id: Option<Seq<char>>,
    pub name: Option<Seq<char>>,
    pub reasoning_content: Option<Seq<char>>,
    pub thinking: Option<ThinkingView>,
    pub tool_calls: Option<Seq<ToolCallView>>,
}

/// What `ChatTool` holds.
#[verifier::ext_equal]
pub struct ToolView {
    pub kind: Seq<char>,
    pub name: Seq<char>,
    pub description: Seq<char>,
    pub parameters: Option<JsonTree>,
    pub strict: bool,
}

impl View for ChatThinking {
    type V = ThinkingView;

    open spec fn view(&self) -> ThinkingView {
        ThinkingView { content: self.content@, signature: optional_text(self.signature) }
    }
}

impl View for ChatToolCall {
    type V = ToolCallView;

    open spec fn view(&self) -> ToolCallView {
        ToolCallView {
            id: optional_text(self.id),
            index: self.index,
            kind: self.kind@,
            name: optional_text(self.function.name),
            arguments: optional_tree(self.function.arguments),
        }
    }
}

/// What optional reasoning holds.
pub open spec fn thinking_view(thinking: Option<ChatThinking>) -> Option<ThinkingView> {
    match thinking {
        Some(thinking) => Some(thinking@),
        None => None,
    }
}

/// What each call of a sequence holds.
pub open spec fn call_views(calls: Seq<ChatToolCall>) -> Seq<ToolCallView> {
    calls.map_values(|call: ChatToolCall| call@)
}

/// What optional tool calls hold.
pub open spec fn optional_calls(calls: Option<Vec<ChatToolCall>>) -> Option<Seq<ToolCallView>> {
    match calls {
        Some(calls) => Some(call_views(calls@)),
        None => None,
    }
}

impl View for ChatMessage {
    type V = MessageView;

    open spec fn view(&self) -> MessageView {
        MessageView {
            role: self.role@,
            content: optional_tree(self.content),
            tool_call_id: optional_text(self.tool_call_id),
            name: optional_text(self.name),
            reasoning_content: optional_text(self.reasoning_content),
            thinking: thinking_view(self.thinking),
            tool_calls: optional_calls(self.tool_calls),
        }
    }
}

/// What each message of a sequence holds.
pub open spec fn message_views(messages: Seq<ChatMessage>) -> Seq<MessageView> {
    messages.map_values(|message: ChatMessage| message@)
}

impl View for ChatTool {
    type V = ToolView;

    open spec fn view(&self) -> ToolView {
        ToolView {
            kind: self.kind@,
            name: self.function.name@,
            description: self.function.description@,
            parameters: optional_tree(self.function.parameters),
            strict: self.function.strict,
        }
    }
}

/// What each tool of a sequence holds.
pub open spec fn tool_views(tools: Seq<ChatTool>) -> Seq<ToolView> {
    tools.map_values(|tool: ChatTool| tool@)
}

/// A message with a role and content and nothing else.
pub open spec fn plain_message(role: Seq<char>, content: Option<JsonTree>) -> MessageView {
    MessageView {
        role,
        content,
        tool_call_id: None,
        name: None,
        reasoning_content: None,
        thinking: None,
        tool_calls: None,
    }
}

impl Clone for ChatThinking {
    fn clone(&self) -> (copy: Self)
        ensures
            copy@ == self@,
    {
        ChatThinking { content: self.content.clone(), signature: self.signature.clone() }
    }
}

impl Clone for ChatFunctionCall {
    fn clone(&self) -> (copy: Self)
        ensures
            optional_text(copy.name) == optional_text(self.name),
            optional_tree(copy.arguments) == optional_tree(self.arguments),
    {
        ChatFunctionCall {
            name: self.name.clone(),
            arguments: match &self.arguments {
                Some(arguments) => Some(arguments.clone()),
                None => None,
            },
        }
    }
}

impl Clone for ChatToolCall {
    fn clone(&self) -> (copy: Self)
        ensures
            copy@ == self@,
    {
        ChatToolCall {
            id: self.id.clone(),
            index: self.index,
            kind: self.kind.clone(),
            function: self.function.clone(),
        }
    }
}

/// Appends copies of calls to others.
pub fn extend_calls(calls: &mut Vec<ChatToolCall>, more: &Vec<ChatToolCall>)
    ensures
        call_views(final(calls)@) == call_views(old(calls)@) + call_views(more@),
{
    let mut i: usize = 0;
    assert(call_views(calls@) =~= call_views(old(calls)@) + call_views(more@.take(0)));
    while i < more.len()
        invariant
            i <= more.len(),
            call_views(calls@) == call_views(old(calls)@) + call_views(more@.take(i as int)),
        decreases more.len() - i,
    {
        let ghost before = calls@;
        calls.push(more[i].clone());
        i += 1;
        assert(call_views(calls@) =~= call_views(before).push(more@[i - 1]@));
        assert(call_views(more@.take(i as int)) =~= call_views(more@.take(i - 1)).push(
            more@[i - 1]@,
        ));
        assert(call_views(calls@) =~= call_views(old(calls)@) + call_views(more@.take(i as int)));
    }
    assert(more@.take(more@.len() as int) =~= more@);
}

impl Clone for ChatMessage {
    /// The same message once more.
    fn clone(&self) -> (copy: Self)
        ensures
            copy@ == self@,
    {
        ChatMessage {
            role: self.role.clone(),
            content: match &self.content {
                Some(content) => Some(content.clone()),
                None => None,
            },
            tool_call_id: self.tool_call_id.clone(),
            name: self.name.clone(),
            reasoning_content: self.reasoning_content.clone(),
            thinking: match &self.thinking {
                Some(thinking) => Some(thinking.clone()),
                None => None,
            },
            tool_calls: match &self.tool_calls {
                Some(calls) => {
                    let mut copies: Vec<ChatToolCall> = Vec::new();
                    extend_calls(&mut copies, calls);
                    assert(call_views(copies@) =~= call_views(calls@));
                    Some(copies)
                },
                None => None,
            },
        }
    }
}

impl Clone for ChatTool {
    /// The same tool once more.
    fn clone(&self) -> (copy: Self)
        ensures
            copy@ == self@,
    {
        ChatTool {
            kind: self.kind.clone(),
            function: ChatToolDefinition {
                name: self.function.name.clone(),
                description: self.function.description.clone(),
                parameters: match &self.function.parameters {
                    Some(parameters) => Some(parameters.clone()),
                    None => None,
                },
                strict: self.function.strict,
            },
        }
    }
}

impl ChatMessage {
    /// A message with a role and content and nothing else.
    pub fn plain(role: &str, content: Option<Json>) -> (message: ChatMessage)
        ensures
            message@ == plain_message(role@, optional_tree(content)),
    {
        ChatMessage {
            role: role.to_string(),
            content,
            tool_call_id: None,
            name: None,
            reasoning_content: None,
            thinking: None,
            tool_calls: None,
        }
    }
}

/// One message more is one view more.
pub broadcast proof fn message_views_push(messages: Seq<ChatMessage>, message: ChatMessage)
    ensures
        #[trigger] message_views(messages.push(message)) == message_views(messages).push(message@),
{
    assert(message_views(messages.push(message)) =~= message_views(messages).push(message@));
}

} // verus!

//! Requests in the shape of the Responses interface.
use crate::json::Json;
use vstd::prelude::*;

verus! {

/// A floating-point setting that is handed on unread, as the bits of its
/// IEEE 754 double.
#[derive(Debug, Clone, Copy, PartialEq, Eq, Structural)]
pub struct FloatBits(pub u64);

/// A piece of the content of a message.
#[derive(Debug, PartialEq)]
pub enum ContentItem {
    InputText { text: String },
    OutputText { text: String },
    InputImage { image_url: Option<String>, file_id: Option<String>, detail: Option<String> },
    InputFile {
        file_id: Option<String>,
        file_url: Option<String>,
        filename: Option<String>,
        file_data: Option<String>,
    },
    /// A piece of any other type, as it came.
    Other(Json),
}

/// A piece of the summary of a reasoning block.
#[derive(Debug, PartialEq)]
pub enum ReasoningSummaryItem {
    SummaryText { text: String },
}

/// A piece of the content of a reasoning block.
#[derive(Debug, PartialEq)]
pub enum ReasoningContentItem {
    ReasoningText { text: String },
    Text { text: String },
}

/// What a local shell call does. The outcome of serialising the command comes
/// with it: its JSON value, or the words of the error.
#[derive(Debug, PartialEq)]
pub enum LocalShellAction {
    Exec(Result<Json, String>),
}

/// What a web search call did.
#[derive(Debug, PartialEq)]
pub enum WebSearchAction {
    Search { query: Option<String>, queries: Option<Vec<String>> },
    OpenPage { url: Option<String> },
    FindInPage { url: Option<String>, pattern: Option<String> },
    Other,
}

/// An item of the conversation.
#[derive(Debug, PartialEq)]
pub enum ResponseItem {
    Message { id: Option<String>, role: String, content: Vec<ContentItem>, phase: Option<String> },
    Reasoning {
        id: String,
        summary: Vec<ReasoningSummaryItem>,
        content: Option<Vec<ReasoningContentItem>>,
        encrypted_content: Option<String>,
    },
    FunctionCall {
        id: Option<String>,
        name: String,
        namespace: Option<String>,
        arguments: String,
        call_id: String,
    },
    CustomToolCall { id: Option<String>, call_id: String, name: String, input: String },
    ToolSearchCall {
        call_id: Option<String>,
        status: Option<String>,
        execution: String,
        arguments: Json,
    },
    LocalShellCall { id: Option<String>, call_id: Option<String>, action: LocalShellAction },
    FunctionCallOutput { call_id: String, output: Json },
    CustomToolCallOutput { call_id: String, name: Option<String>, output: Json },
    ToolSearchOutput {
        call_id: Option<String>,
        status: String,
        execution: String,
        tools: Vec<Json>,
    },
    WebSearchCall { id: Option<String>, action: Option<WebSearchAction> },
    ImageGenerationCall { id: Option<String> },
}

/// A function inside a namespace of tools.
#[derive(Debug, PartialEq)]
pub enum NamespaceToolSpec {
    Function { name: String, description: String, strict: bool, parameters: Json },
}

/// The grammar of the input of a custom tool.
#[derive(Debug, PartialEq)]
pub struct CustomToolFormat {
    pub kind: String,
    pub syntax: String,
    pub definition: String,
}

/// A tool that the client offers.
#[derive(Debug, PartialEq)]
pub enum ToolSpec {
    Function { name: String, description: String, strict: bool, parameters: Json },
    Namespace { name: String, description: String, tools: Vec<NamespaceToolSpec> },
    ToolSearch { execution: String, description: String, parameters: Json },
    LocalShell {  },
    WebSearch { external_web_access: Option<bool> },
    Custom { name: String, description: String, format: CustomToolFormat },
    ImageGeneration { output_format: Option<String> },
}

/// How much a model should reason.
#[derive(Debug, PartialEq)]
pub struct ReasoningRequest {
    pub effort: Option<String>,
    pub summary: Option<String>,
}

/// The format that the answer must have.
#[derive(Debug, PartialEq)]
pub struct TextFormat {
    pub kind: String,
    pub name: String,
    pub schema: Json,
    pub strict: bool,
}

/// Settings of the text of the answer.
#[derive(Debug, PartialEq)]
pub struct TextControls {
    pub format: Option<TextFormat>,
}

/// A request for one turn.
#[derive(Debug, PartialEq)]
pub struct ResponsesRequest {
    pub model: String,
    pub instructions: String,
    pub input: Vec<ResponseItem>,
    pub tools: Vec<ToolSpec>,
    pub tool_choice: Json,
    pub parallel_tool_calls: Option<bool>,
    pub reasoning: Option<ReasoningRequest>,
    pub store: bool,
    pub stream: bool,
    pub text: Option<TextControls>,
    pub previous_response_id: Option<String>,
    pub frequency_penalty: Option<FloatBits>,
    pub presence_penalty: Option<FloatBits>,
}

} // verus!

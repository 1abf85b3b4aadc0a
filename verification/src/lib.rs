//! Lowers a request in the shape of the Responses interface to one turn of a
//! chat: messages, tools, a registry of who runs which tool, and settings.
//!
//! `lowering::lowered_turn` says what the turn is, or why the request is
//! refused; `laws` says what holds of every turn.
pub mod chat;
pub mod codec;
pub mod config;
pub mod content;
pub mod error;
pub mod json;
pub mod laws;
pub mod lowering;
pub mod messages;
pub mod ordered;
pub mod reasoning;
pub mod responses;
pub mod roles;
pub mod text;
pub mod tools;
pub mod validate;
pub mod web_search;

pub use content::{stringify_tool_output, tool_call_arguments_object};
pub use lowering::{
    lower_request, lower_request_with_image_agent, lower_request_with_image_agent_and_roles,
    LoweredTurn,
};
pub use tools::{ToolKind, ToolRegistry};

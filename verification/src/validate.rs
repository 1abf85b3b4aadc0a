//! Requests that are refused at once.
use crate::error::{AppError, AppResult};
use crate::json::{fields, find_field, Json, JsonTree};
use crate::responses::ResponsesRequest;
use crate::text::same_text;
use vstd::prelude::*;

verus! {

/// Whether an object names a function: its type is `function`, and its field
/// `function` is an object with a name that is not empty.
pub open spec fn names_function(choice: Map<Seq<char>, JsonTree>) -> bool {
    &&& choice.contains_key("type"@)
    &&& choice["type"@] == JsonTree::Text("function"@)
    &&& choice.contains_key("function"@)
    &&& choice["function"@] matches JsonTree::Object(function)
    &&& function.contains_key("name"@)
    &&& function["name"@] matches JsonTree::Text(name)
    &&& name.len() > 0
}

/// Why a choice of tools is refused, where it is.
pub open spec fn tool_choice_error(choice: JsonTree, has_tools: bool) -> Option<Seq<char>> {
    match choice {
        JsonTree::Text(text) => if text == "auto"@ || text == "none"@ {
            None
        } else if text == "required"@ {
            if has_tools {
                None
            } else {
                Some("tool_choice is \"required\" but no tools are provided"@)
            }
        } else {
            Some(
                "invalid tool_choice string: \""@ + text
                    + "\"; expected \"auto\", \"none\", or \"required\""@,
            )
        },
        JsonTree::Object(choice) => if !names_function(choice) {
            Some(
                "invalid tool_choice object: expected {\"type\":\"function\",\"function\":{\"name\":\"<non-empty>\"}}"@,
            )
        } else if !has_tools {
            Some("tool_choice specifies a function but no tools are provided"@)
        } else {
            None
        },
        _ => Some(
            "invalid tool_choice: expected a string (\"auto\", \"none\", \"required\") or a function object"@,
        ),
    }
}

/// Why a request is refused at once, where it is.
pub open spec fn request_error(request: ResponsesRequest) -> Option<Seq<char>> {
    if request.previous_response_id is Some {
        Some("previous_response_id is not supported in v1"@)
    } else {
        tool_choice_error(request.tool_choice@, request.tools@.len() > 0)
    }
}

/// Whether an object names a function.
fn is_function_choice(choice: &Vec<(String, Json)>) -> (named: bool)
    ensures
        named == names_function(fields(choice@)),
{
    let typed = match find_field(choice, "type") {
        Some(Json::Text(kind)) => same_text(kind.as_str(), "function"),
        _ => false,
    };
    let named = match find_field(choice, "function") {
        Some(Json::Object(function)) => match find_field(function, "name") {
            Some(Json::Text(name)) => !name.as_str().is_empty(),
            _ => false,
        },
        _ => false,
    };
    typed && named
}

/// Refuses a request with the given words.
fn refuse(message: &str) -> (refusal: AppResult<()>)
    ensures
        refusal is Err,
        refusal->Err_0@ == message@,
{
    Err(AppError::bad_request(message.to_string()))
}

/// Refuses a request that continues an earlier response, and one whose choice
/// of tools is invalid or needs tools that are not there.
pub fn validate_request(request: &ResponsesRequest) -> (checked: AppResult<()>)
    ensures
        match checked {
            Ok(_) => request_error(*request) is None,
            Err(error) => request_error(*request) == Some(error@),
        },
{
    if request.previous_response_id.is_some() {
        return refuse("previous_response_id is not supported in v1");
    }
    match &request.tool_choice {
        Json::Text(choice) => {
            if same_text(choice.as_str(), "auto") || same_text(choice.as_str(), "none") {
                Ok(())
            } else if same_text(choice.as_str(), "required") {
                if request.tools.is_empty() {
                    refuse("tool_choice is \"required\" but no tools are provided")
                } else {
                    Ok(())
                }
            } else {
                let mut message = "invalid tool_choice string: \"".to_string();
                message.append(choice.as_str());
                message.append("\"; expected \"auto\", \"none\", or \"required\"");
                Err(AppError::bad_request(message))
            }
        },
        Json::Object(choice) => {
            if !is_function_choice(choice) {
                refuse(
                    "invalid tool_choice object: expected {\"type\":\"function\",\"function\":{\"name\":\"<non-empty>\"}}",
                )
            } else if request.tools.is_empty() {
                refuse("tool_choice specifies a function but no tools are provided")
            } else {
                Ok(())
            }
        },
        _ => refuse(
            "invalid tool_choice: expected a string (\"auto\", \"none\", \"required\") or a function object",
        ),
    }
}

} // verus!

//! Content of messages, outputs of tools and arguments of calls.
use crate::codec::{
    display, display_text, parse, parse_outcome, parsed_tree, serialize, serialized_text,
};
use crate::error::{AppError, AppResult};
use crate::json::{
    array1, fields, insert_field, object2, optional_tree, text_json, trees, Json, JsonTree,
};
use crate::ordered::ascending;
use crate::responses::ContentItem;
use vstd::prelude::*;

verus! {

broadcast use crate::json::trees_push;

/// Fields with one more where there is a text for it.
pub open spec fn with_optional_text(
    fields: Map<Seq<char>, JsonTree>,
    key: Seq<char>,
    value: Option<String>,
) -> Map<Seq<char>, JsonTree> {
    match value {
        Some(value) => fields.insert(key, JsonTree::Text(value@)),
        None => fields,
    }
}

/// The content part that stands for a piece of content.
pub open spec fn chat_part(item: ContentItem) -> JsonTree {
    match item {
        ContentItem::InputText { text } => text_part(text@),
        ContentItem::OutputText { text } => text_part(text@),
        ContentItem::InputImage { image_url: Some(image_url), file_id, detail } => JsonTree::Object(
            map![
                "type"@ => JsonTree::Text("image_url"@),
                "image_url"@ => JsonTree::Object(
                    with_optional_text(
                        map!["url"@ => JsonTree::Text(image_url@)],
                        "detail"@,
                        detail,
                    ),
                ),
            ],
        ),
        ContentItem::InputImage { image_url: None, file_id, detail } => JsonTree::Object(
            with_optional_text(
                with_optional_text(
                    map!["type"@ => JsonTree::Text("input_image"@)],
                    "file_id"@,
                    file_id,
                ),
                "detail"@,
                detail,
            ),
        ),
        ContentItem::InputFile { file_id, file_url, filename, file_data } => JsonTree::Object(
            with_optional_text(
                with_optional_text(
                    with_optional_text(
                        with_optional_text(
                            map!["type"@ => JsonTree::Text("input_file"@)],
                            "file_id"@,
                            file_id,
                        ),
                        "file_url"@,
                        file_url,
                    ),
                    "filename"@,
                    filename,
                ),
                "file_data"@,
                file_data,
            ),
        ),
        ContentItem::Other(value) => value@,
    }
}

/// The content part of a text.
pub open spec fn text_part(text: Seq<char>) -> JsonTree {
    JsonTree::Object(map!["type"@ => JsonTree::Text("text"@), "text"@ => JsonTree::Text(text)])
}

/// The content part of each piece.
pub open spec fn chat_parts_of(content: Seq<ContentItem>) -> Seq<JsonTree> {
    content.map_values(|item: ContentItem| chat_part(item))
}

/// The content of a message with one piece: the text itself, or an array with
/// the one part.
pub open spec fn single_content(item: ContentItem) -> JsonTree {
    match item {
        ContentItem::InputText { text } => JsonTree::Text(text@),
        ContentItem::OutputText { text } => JsonTree::Text(text@),
        _ => JsonTree::Array(seq![chat_part(item)]),
    }
}

/// The content of a message: the empty text where there is no piece, and an
/// array of parts where there are several.
pub open spec fn message_content(content: Seq<ContentItem>) -> JsonTree {
    if content.len() == 0 {
        JsonTree::Text(Seq::empty())
    } else if content.len() == 1 {
        single_content(content[0])
    } else {
        JsonTree::Array(chat_parts_of(content))
    }
}

/// Sets a field where there is a text for it.
pub fn insert_optional_string(
    entries: &mut Vec<(String, Json)>,
    key: &str,
    value: &Option<String>,
)
    requires
        ascending(old(entries)@),
    ensures
        ascending(final(entries)@),
        fields(final(entries)@) == with_optional_text(fields(old(entries)@), key@, *value),
{
    if let Some(value) = value {
        insert_field(entries, key, Json::Text(value.clone()));
    }
}

/// An object under construction that has its type.
fn typed_fields(kind: &str) -> (entries: Vec<(String, Json)>)
    ensures
        ascending(entries@),
        fields(entries@) == map!["type"@ => JsonTree::Text(kind@)],
{
    let mut entries: Vec<(String, Json)> = Vec::new();
    insert_field(&mut entries, "type", text_json(kind));
    entries
}

/// The content part that stands for a piece of content.
pub fn content_item_to_chat_part(item: &ContentItem) -> (part: Json)
    ensures
        part@ == chat_part(*item),
{
    match item {
        ContentItem::InputText { text: value } | ContentItem::OutputText { text: value } => object2(
            "type",
            text_json("text"),
            "text",
            Json::Text(value.clone()),
        ),
        ContentItem::InputImage { image_url: Some(image_url), file_id: _, detail } => {
            let mut entries: Vec<(String, Json)> = Vec::new();
            insert_field(&mut entries, "url", Json::Text(image_url.clone()));
            insert_optional_string(&mut entries, "detail", detail);
            object2("type", text_json("image_url"), "image_url", Json::Object(entries))
        },
        ContentItem::InputImage { image_url: None, file_id, detail } => {
            let mut entries = typed_fields("input_image");
            insert_optional_string(&mut entries, "file_id", file_id);
            insert_optional_string(&mut entries, "detail", detail);
            Json::Object(entries)
        },
        ContentItem::InputFile { file_id, file_url, filename, file_data } => {
            let mut entries = typed_fields("input_file");
            insert_optional_string(&mut entries, "file_id", file_id);
            insert_optional_string(&mut entries, "file_url", file_url);
            insert_optional_string(&mut entries, "filename", filename);
            insert_optional_string(&mut entries, "file_data", file_data);
            Json::Object(entries)
        },
        ContentItem::Other(value) => value.clone(),
    }
}

/// The content of a message with one piece.
pub fn content_item_to_chat_value(item: &ContentItem) -> (value: AppResult<Json>)
    ensures
        value is Ok,
        value->Ok_0@ == single_content(*item),
{
    match item {
        ContentItem::InputText { text } | ContentItem::OutputText { text } => Ok(
            Json::Text(text.clone()),
        ),
        ContentItem::InputImage { .. } | ContentItem::InputFile { .. } | ContentItem::Other(_) => {
            Ok(array1(content_item_to_chat_part(item)))
        },
    }
}

/// The content of a message.
pub fn message_content_to_chat_value(content: &[ContentItem]) -> (value: AppResult<Json>)
    ensures
        value is Ok,
        value->Ok_0@ == message_content(content@),
{
    if content.len() == 0 {
        return Ok(Json::Text(String::new()));
    }
    if content.len() == 1 {
        return content_item_to_chat_value(&content[0]);
    }
    let mut parts: Vec<Json> = Vec::new();
    let mut i: usize = 0;
    assert(trees(parts@) =~= chat_parts_of(content@.take(0)));
    while i < content.len()
        invariant
            i <= content.len(),
            trees(parts@) == chat_parts_of(content@.take(i as int)),
        decreases content.len() - i,
    {
        parts.push(content_item_to_chat_part(&content[i]));
        i += 1;
        assert(chat_parts_of(content@.take(i as int)) =~= chat_parts_of(content@.take(i - 1)).push(
            chat_part(content@[i - 1]),
        ));
    }
    assert(content@.take(content@.len() as int) =~= content@);
    Ok(Json::Array(parts))
}

/// The text of content: a text itself, and any other value as it displays.
pub open spec fn content_as_text(content: JsonTree) -> Seq<char> {
    match content {
        JsonTree::Text(text) => text,
        _ => display_text(content),
    }
}

/// The text of content: a text itself, and any other value as it displays.
pub fn content_to_text(content: &Json) -> (words: String)
    ensures
        words@ == content_as_text(content@),
        !(content@ is Text) ==> words@.len() > 0,
{
    match content {
        Json::Text(text) => text.clone(),
        _ => display(content),
    }
}

/// The text of the output of a tool: a text itself, and any other value
/// serialised.
pub open spec fn tool_output_text(output: JsonTree) -> Seq<char> {
    match output {
        JsonTree::Text(text) => text,
        _ => serialized_text(output),
    }
}

/// The text that serialising gave, or `null` where it gave none.
pub fn serialized_or_null(written: Result<String, String>) -> (words: String)
    ensures
        words@ == match written {
            Ok(words) => words@,
            Err(_) => "null"@,
        },
{
    match written {
        Ok(words) => words,
        Err(_) => "null".to_string(),
    }
}

/// The text of the output of a tool: a text itself, and any other value
/// serialised.
pub fn stringify_tool_output(value: &Json) -> (words: String)
    ensures
        words@ == tool_output_text(value@),
{
    match value {
        Json::Text(text) => text.clone(),
        _ => serialized_or_null(serialize(value)),
    }
}

/// The arguments of a call: an empty object where there are none.
pub open spec fn arguments_or_empty(arguments: Option<JsonTree>) -> JsonTree {
    match arguments {
        Some(arguments) => arguments,
        None => JsonTree::Object(Map::empty()),
    }
}

/// The arguments of a call: an empty object where there are none.
pub fn tool_call_arguments_object(arguments: &Option<Json>) -> (object: Json)
    ensures
        object@ == arguments_or_empty(optional_tree(*arguments)),
{
    match arguments {
        Some(arguments) => arguments.clone(),
        None => Json::Object(Vec::new()),
    }
}

/// The arguments that parsing gave, or why the request is refused.
pub open spec fn parsed_arguments(parsed: Result<JsonTree, Seq<char>>) -> Result<
    JsonTree,
    Seq<char>,
> {
    match parsed {
        Ok(arguments) => Ok(arguments),
        Err(words) => Err("invalid JSON tool arguments: "@ + words),
    }
}

/// What an outcome with a value says.
pub open spec fn json_outcome(outcome: AppResult<Json>) -> Result<JsonTree, Seq<char>> {
    match outcome {
        Ok(json) => Ok(json@),
        Err(error) => Err(error@),
    }
}

/// The arguments that parsing gave, or the refusal of the request.
pub fn arguments_from_parse(parsed: Result<Json, String>) -> (arguments: AppResult<Json>)
    ensures
        json_outcome(arguments) == parsed_arguments(parse_outcome(parsed)),
{
    match parsed {
        Ok(json) => Ok(json),
        Err(words) => {
            let mut message = "invalid JSON tool arguments: ".to_string();
            message.append(words.as_str());
            Err(AppError::bad_request(message))
        },
    }
}

/// Reads the arguments of a call.
pub fn parse_json_string(raw: &str) -> (arguments: AppResult<Json>)
    ensures
        json_outcome(arguments) == parsed_arguments(parsed_tree(raw@)),
{
    arguments_from_parse(parse(raw))
}

} // verus!

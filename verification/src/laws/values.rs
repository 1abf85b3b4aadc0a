//! What the values of a turn show of the request: content, outputs, arguments
//! and formats, field by field.
use crate::codec::serialized_text;
use crate::content::{
    arguments_or_empty, chat_part, content_as_text, message_content, parsed_arguments,
    single_content, tool_output_text,
};
use crate::json::{Json, JsonTree};
use crate::laws::texts::stands_at;
use crate::lowering::{response_format_of, tool_search_result};
use crate::responses::{ContentItem, ResponsesRequest, TextControls, WebSearchAction};
use crate::text::decimal;
use crate::validate::request_error;
use crate::web_search::{placeholder_text, search_arguments};
use vstd::prelude::*;

verus! {

/// Whether a value is an object with a field that has the value.
pub open spec fn has_field(object: JsonTree, key: Seq<char>, value: JsonTree) -> bool {
    object matches JsonTree::Object(fields) && fields.contains_key(key) && fields[key] == value
}

/// Whether an object has a text in a field, or lacks the field where there is
/// no text.
pub open spec fn has_optional_text(object: JsonTree, key: Seq<char>, value: Option<String>) -> bool {
    match value {
        Some(text) => has_field(object, key, JsonTree::Text(text@)),
        None => object matches JsonTree::Object(fields) && !fields.contains_key(key),
    }
}

/// Whether an object has a text in a field, or null where there is no text.
pub open spec fn has_text_or_null(object: JsonTree, key: Seq<char>, value: Option<String>) -> bool {
    match value {
        Some(text) => has_field(object, key, JsonTree::Text(text@)),
        None => has_field(object, key, JsonTree::Null),
    }
}

/// Whether a value is an object with no fields but these.
pub open spec fn has_no_fields_but(object: JsonTree, keys: Set<Seq<char>>) -> bool {
    object matches JsonTree::Object(fields) && forall|key: Seq<char>| #[trigger]
        fields.contains_key(key) ==> keys.contains(key)
}

/// Whether a content part shows a piece of content: a text with its characters,
/// an image with its address or its file, a file with each field that it has,
/// and any other piece as it came.
pub open spec fn part_shows(item: ContentItem, part: JsonTree) -> bool {
    match item {
        ContentItem::InputText { text } | ContentItem::OutputText { text } => {
            &&& has_field(part, "type"@, JsonTree::Text("text"@))
            &&& has_field(part, "text"@, JsonTree::Text(text@))
            &&& has_no_fields_but(part, set!["type"@, "text"@])
        },
        ContentItem::InputImage { image_url, file_id, detail } => match image_url {
            Some(url) => {
                &&& has_field(part, "type"@, JsonTree::Text("image_url"@))
                &&& has_no_fields_but(part, set!["type"@, "image_url"@])
                &&& exists|image: JsonTree|
                    {
                        &&& #[trigger] has_field(part, "image_url"@, image)
                        &&& has_field(image, "url"@, JsonTree::Text(url@))
                        &&& has_optional_text(image, "detail"@, detail)
                        &&& has_no_fields_but(image, set!["url"@, "detail"@])
                    }
            },
            None => {
                &&& has_field(part, "type"@, JsonTree::Text("input_image"@))
                &&& has_optional_text(part, "file_id"@, file_id)
                &&& has_optional_text(part, "detail"@, detail)
                &&& has_no_fields_but(part, set!["type"@, "file_id"@, "detail"@])
            },
        },
        ContentItem::InputFile { file_id, file_url, filename, file_data } => {
            &&& has_field(part, "type"@, JsonTree::Text("input_file"@))
            &&& has_optional_text(part, "file_id"@, file_id)
            &&& has_optional_text(part, "file_url"@, file_url)
            &&& has_optional_text(part, "filename"@, filename)
            &&& has_optional_text(part, "file_data"@, file_data)
            &&& has_no_fields_but(
                part,
                set!["type"@, "file_id"@, "file_url"@, "filename"@, "file_data"@],
            )
        },
        ContentItem::Other(value) => part == value@,
    }
}

/// The text of a piece of content that is a text.
pub open spec fn piece_text(item: ContentItem) -> Option<Seq<char>> {
    match item {
        ContentItem::InputText { text } | ContentItem::OutputText { text } => Some(text@),
        _ => None,
    }
}

/// Whether content shows every piece of a message: a single text is the text
/// itself, no piece at all is the empty text, and otherwise there is one part
/// for each piece, in the order of the pieces.
pub open spec fn content_shows(pieces: Seq<ContentItem>, content: JsonTree) -> bool {
    if pieces.len() == 0 {
        content matches JsonTree::Text(text) && text.len() == 0
    } else if pieces.len() == 1 && piece_text(pieces[0]) is Some {
        content == JsonTree::Text(piece_text(pieces[0])->Some_0)
    } else {
        content matches JsonTree::Array(parts) && parts.len() == pieces.len() && forall|i: int|
            0 <= i < pieces.len() ==> part_shows(#[trigger] pieces[i], parts[i])
    }
}

proof fn keys_differ()
    ensures
        "type"@ != "text"@,
        "type"@ != "image_url"@,
        "url"@ != "detail"@,
        "type"@ != "file_id"@,
        "type"@ != "detail"@,
        "file_id"@ != "detail"@,
        "type"@ != "file_url"@,
        "type"@ != "filename"@,
        "type"@ != "file_data"@,
        "file_id"@ != "file_url"@,
        "file_id"@ != "filename"@,
        "file_id"@ != "file_data"@,
        "file_url"@ != "filename"@,
        "file_url"@ != "file_data"@,
        "filename"@ != "file_data"@,
        "url"@ != "pattern"@,
        "type"@ != "json_schema"@,
        "name"@ != "schema"@,
        "name"@ != "strict"@,
        "schema"@ != "strict"@,
        "status"@ != "execution"@,
        "status"@ != "tools"@,
        "execution"@ != "tools"@,
        "auto"@ != "required"@,
        "none"@ != "required"@,
{
    reveal_strlit("type");
    reveal_strlit("text");
    reveal_strlit("image_url");
    reveal_strlit("url");
    reveal_strlit("detail");
    reveal_strlit("file_id");
    reveal_strlit("file_url");
    reveal_strlit("filename");
    reveal_strlit("file_data");
    reveal_strlit("pattern");
    reveal_strlit("json_schema");
    reveal_strlit("name");
    reveal_strlit("schema");
    reveal_strlit("strict");
    reveal_strlit("status");
    reveal_strlit("execution");
    reveal_strlit("tools");
    reveal_strlit("auto");
    reveal_strlit("none");
    reveal_strlit("required");
    assert("type"@.len() == 4);
    assert("text"@.len() == 4);
    assert("image_url"@.len() == 9);
    assert("url"@.len() == 3);
    assert("detail"@.len() == 6);
    assert("file_id"@.len() == 7);
    assert("file_url"@.len() == 8);
    assert("filename"@.len() == 8);
    assert("file_data"@.len() == 9);
    assert("pattern"@.len() == 7);
    assert("json_schema"@.len() == 11);
    assert("name"@.len() == 4);
    assert("schema"@.len() == 6);
    assert("strict"@.len() == 6);
    assert("status"@.len() == 6);
    assert("execution"@.len() == 9);
    assert("tools"@.len() == 5);
    assert("auto"@.len() == 4);
    assert("none"@.len() == 4);
    assert("required"@.len() == 8);
    assert("type"@[1] != "text"@[1]);
    assert("file_url"@[5] != "filename"@[5]);
    assert("schema"@[1] != "strict"@[1]);
}

/// The part of a piece of content shows the piece.
pub proof fn chat_part_shows_piece(item: ContentItem)
    ensures
        part_shows(item, chat_part(item)),
{
    keys_differ();
    if let ContentItem::InputImage { image_url: Some(url), file_id, detail } = item {
        let part = chat_part(item);
        let image = part->Object_0["image_url"@];
        assert(has_field(part, "image_url"@, image));
    }
}

/// The content of a message shows every piece of it.
pub proof fn message_content_shows_pieces(pieces: Seq<ContentItem>)
    ensures
        content_shows(pieces, message_content(pieces)),
{
    assert forall|i: int| 0 <= i < pieces.len() implies part_shows(
        #[trigger] pieces[i],
        chat_part(pieces[i]),
    ) by {
        chat_part_shows_piece(pieces[i]);
    }
}

/// A single piece shows as a message with that piece alone.
pub proof fn single_content_shows_piece(item: ContentItem)
    ensures
        content_shows(seq![item], single_content(item)),
{
    chat_part_shows_piece(item);
}

/// Content that is a text says that text, and any other content what it
/// displays as.
pub proof fn content_says_its_text(content: JsonTree)
    ensures
        match content {
            JsonTree::Text(text) => content_as_text(content) == text,
            _ => content_as_text(content) == crate::codec::display_text(content),
        },
{
}

/// The output of a tool that is a text is handed on character for character,
/// and any other output as serialised.
pub proof fn tool_output_is_handed_on(output: JsonTree)
    ensures
        match output {
            JsonTree::Text(text) => tool_output_text(output) == text,
            _ => tool_output_text(output) == serialized_text(output),
        },
{
}

/// Arguments that were read are handed on as they are; where they were not, the
/// refusal says so and ends with the words of the error.
pub proof fn parsed_arguments_are_handed_on(parsed: Result<JsonTree, Seq<char>>)
    ensures
        match (parsed, parsed_arguments(parsed)) {
            (Ok(read), Ok(arguments)) => arguments == read,
            (Err(words), Err(refusal)) => {
                &&& stands_at(refusal, "invalid JSON tool arguments: "@, 0)
                &&& stands_at(refusal, words, "invalid JSON tool arguments: "@.len() as int)
                &&& refusal.len() == "invalid JSON tool arguments: "@.len() + words.len()
            },
            _ => false,
        },
{
}

/// Arguments that are there stay, and those that are not are an object without
/// fields.
pub proof fn arguments_stay(arguments: Option<JsonTree>)
    ensures
        match arguments {
            Some(value) => arguments_or_empty(arguments) == value,
            None => has_no_fields_but(arguments_or_empty(arguments), set![]),
        },
{
}

/// Whether the arguments of a web search show what was done: the query, the
/// first of several queries where there is no query, or the page and the
/// pattern, with null for what is not known.
pub open spec fn search_shows(action: Option<WebSearchAction>, arguments: JsonTree) -> bool {
    match action {
        Some(WebSearchAction::Search { query, queries }) => match query {
            Some(text) => {
                &&& has_field(arguments, "query"@, JsonTree::Text(text@))
                &&& has_no_fields_but(arguments, set!["query"@])
            },
            None => match queries {
                Some(list) => if list@.len() > 0 {
                    &&& has_field(arguments, "query"@, JsonTree::Text(list@[0]@))
                    &&& has_no_fields_but(arguments, set!["query"@])
                } else {
                    has_no_fields_but(arguments, set![])
                },
                None => has_no_fields_but(arguments, set![]),
            },
        },
        Some(WebSearchAction::OpenPage { url }) => {
            &&& has_text_or_null(arguments, "url"@, url)
            &&& has_no_fields_but(arguments, set!["url"@])
        },
        Some(WebSearchAction::FindInPage { url, pattern }) => {
            &&& has_text_or_null(arguments, "url"@, url)
            &&& has_text_or_null(arguments, "pattern"@, pattern)
            &&& has_no_fields_but(arguments, set!["url"@, "pattern"@])
        },
        Some(WebSearchAction::Other) | None => has_no_fields_but(arguments, set![]),
    }
}

/// The arguments of a web search show what was done.
pub proof fn search_arguments_show_action(action: Option<WebSearchAction>)
    ensures
        search_shows(action, search_arguments(action)),
{
    keys_differ();
}

/// The text that takes the place of a search result says that the result is
/// gone, and ends with the query, the page or the pattern where it is known.
pub proof fn placeholder_says_what_is_known(action: Option<WebSearchAction>)
    ensures
        ({
            let text = placeholder_text(action);
            let gone =
                " completed in an earlier turn, but the original tool result is unavailable because replay state was missing."@;
            match action {
                Some(WebSearchAction::Search { query: Some(query), queries }) => text
                    == "Previous web_search"@ + gone + " Query: "@ + query@,
                Some(WebSearchAction::Search { query: None, queries: Some(queries) }) => if queries@.len()
                    > 0 {
                    text == "Previous web_search"@ + gone + " Query: "@ + queries@[0]@
                } else {
                    text == "Previous web_search"@ + gone
                },
                Some(WebSearchAction::OpenPage { url }) => match url {
                    Some(url) => text == "Previous web_search open_page"@ + gone + " URL: "@ + url@,
                    None => text == "Previous web_search open_page"@ + gone,
                },
                Some(WebSearchAction::FindInPage { url, pattern }) => match (url, pattern) {
                    (Some(url), Some(pattern)) => text == "Previous web_search find_in_page"@ + gone
                        + " URL: "@ + url@ + ". Pattern: "@ + pattern@,
                    (Some(url), None) => text == "Previous web_search find_in_page"@ + gone
                        + " URL: "@ + url@,
                    (None, Some(pattern)) => text == "Previous web_search find_in_page"@ + gone
                        + " Pattern: "@ + pattern@,
                    (None, None) => text == "Previous web_search find_in_page"@ + gone,
                },
                _ => text == "Previous web_search"@ + gone,
            }
        }),
{
    let gone =
        " completed in an earlier turn, but the original tool result is unavailable because replay state was missing."@;
    let text = placeholder_text(action);
    reveal_strlit("");
    reveal_strlit(" ");
    reveal_strlit(" Query: ");
    reveal_strlit("Query: ");
    reveal_strlit(" URL: ");
    reveal_strlit("URL: ");
    reveal_strlit(" Pattern: ");
    reveal_strlit("Pattern: ");
    reveal_strlit(". Pattern: ");
    reveal_strlit(". ");
    reveal_strlit("Previous web_search");
    reveal_strlit("Previous web_search open_page");
    reveal_strlit("Previous web_search find_in_page");
    reveal_strlit(" open_page");
    reveal_strlit(" find_in_page");
    reveal_with_fuel(crate::text::joined, 3);
    assert("Previous web_search"@ + ""@ =~= "Previous web_search"@);
    assert("Previous web_search"@ + " open_page"@ =~= "Previous web_search open_page"@);
    assert("Previous web_search"@ + " find_in_page"@ =~= "Previous web_search find_in_page"@);
    assert(" "@ + "Query: "@ =~= " Query: "@);
    assert(" "@ + "URL: "@ =~= " URL: "@);
    assert(" "@ + "Pattern: "@ =~= " Pattern: "@);
    assert(". "@ + "Pattern: "@ =~= ". Pattern: "@);
    assert("Previous web_search"@ + gone + Seq::<char>::empty() =~= "Previous web_search"@ + gone);
    assert("Previous web_search open_page"@ + gone + Seq::<char>::empty()
        =~= "Previous web_search open_page"@ + gone);
    assert("Previous web_search find_in_page"@ + gone + Seq::<char>::empty()
        =~= "Previous web_search find_in_page"@ + gone);
    match action {
        Some(WebSearchAction::Search { query: Some(query), queries }) => {
            assert(text =~= "Previous web_search"@ + gone + " Query: "@ + query@);
        },
        Some(WebSearchAction::Search { query: None, queries: Some(queries) }) => {
            if queries@.len() > 0 {
                assert(text =~= "Previous web_search"@ + gone + " Query: "@ + queries@[0]@);
            }
        },
        Some(WebSearchAction::OpenPage { url: Some(url) }) => {
            assert(text =~= "Previous web_search open_page"@ + gone + " URL: "@ + url@);
        },
        Some(WebSearchAction::FindInPage { url: Some(url), pattern: Some(pattern) }) => {
            let both = crate::web_search::fragments(action);
            assert(both =~= seq!["URL: "@ + url@, "Pattern: "@ + pattern@]);
            assert(both.drop_last() =~= seq!["URL: "@ + url@]);
            assert(text =~= "Previous web_search find_in_page"@ + gone + " URL: "@ + url@
                + ". Pattern: "@ + pattern@);
        },
        Some(WebSearchAction::FindInPage { url: Some(url), pattern: None }) => {
            let one = crate::web_search::fragments(action);
            assert(one =~= seq!["URL: "@ + url@]);
            assert(text =~= "Previous web_search find_in_page"@ + gone + " URL: "@ + url@);
        },
        Some(WebSearchAction::FindInPage { url: None, pattern: Some(pattern) }) => {
            let one = crate::web_search::fragments(action);
            assert(one =~= seq!["Pattern: "@ + pattern@]);
            assert(text =~= "Previous web_search find_in_page"@ + gone + " Pattern: "@ + pattern@);
        },
        Some(WebSearchAction::FindInPage { url: None, pattern: None }) => {
            assert(crate::web_search::fragments(action) =~= Seq::<Seq<char>>::empty());
        },
        _ => {},
    }
}

/// The result of a search for tools shows its status, who ran it and each tool
/// that was found, in their order.
pub open spec fn search_result_shows(
    status: Seq<char>,
    execution: Seq<char>,
    tools: Seq<Json>,
    result: JsonTree,
) -> bool {
    &&& has_field(result, "status"@, JsonTree::Text(status))
    &&& has_field(result, "execution"@, JsonTree::Text(execution))
    &&& has_no_fields_but(result, set!["status"@, "execution"@, "tools"@])
    &&& exists|found: Seq<JsonTree>|
        {
            &&& #[trigger] has_field(result, "tools"@, JsonTree::Array(found))
            &&& found.len() == tools.len()
            &&& forall|i: int| 0 <= i < tools.len() ==> found[i] == (#[trigger] tools[i])@
        }
}

/// The result of a search for tools shows what was found.
pub proof fn tool_search_result_shows_tools(
    status: Seq<char>,
    execution: Seq<char>,
    tools: Seq<Json>,
)
    ensures
        search_result_shows(
            status,
            execution,
            tools,
            tool_search_result(status, execution, tools),
        ),
{
    broadcast use {crate::json::trees_at, crate::json::trees_len};

    keys_differ();
    let result = tool_search_result(status, execution, tools);
    assert(has_field(result, "tools"@, JsonTree::Array(crate::json::trees(tools))));
}

/// The format of the answer is there exactly where the request has one, and has
/// its kind, its name, its schema and whether it is strict.
pub proof fn response_format_shows_format(controls: Option<TextControls>)
    ensures
        match response_format_of(controls) {
            Some(shown) => controls is Some && controls->Some_0.format is Some && ({
                let format = controls->Some_0.format->Some_0;
                &&& has_field(shown, "type"@, JsonTree::Text(format.kind@))
                &&& has_no_fields_but(shown, set!["type"@, "json_schema"@])
                &&& exists|inner: JsonTree|
                    {
                        &&& #[trigger] has_field(shown, "json_schema"@, inner)
                        &&& has_field(inner, "name"@, JsonTree::Text(format.name@))
                        &&& has_field(inner, "schema"@, format.schema@)
                        &&& has_field(inner, "strict"@, JsonTree::Bool(format.strict))
                        &&& has_no_fields_but(inner, set!["name"@, "schema"@, "strict"@])
                    }
            }),
            None => controls is None || controls->Some_0.format is None,
        },
{
    keys_differ();
    if let Some(shown) = response_format_of(controls) {
        let inner = shown->Object_0["json_schema"@];
        assert(has_field(shown, "json_schema"@, inner));
    }
}

/// Whether a choice of tools is a word that leaves the choice to the model, asks
/// for some tool, or names a function.
pub open spec fn choice_is_valid(choice: JsonTree, tools: nat) -> bool {
    match choice {
        JsonTree::Text(word) => word == "auto"@ || word == "none"@ || (word == "required"@ && tools
            > 0),
        JsonTree::Object(_) => {
            &&& has_field(choice, "type"@, JsonTree::Text("function"@))
            &&& exists|function: JsonTree, name: Seq<char>|
                {
                    &&& #[trigger] has_field(choice, "function"@, function)
                    &&& #[trigger] has_field(function, "name"@, JsonTree::Text(name))
                    &&& name.len() > 0
                }
            &&& tools > 0
        },
        _ => false,
    }
}

/// A request is let through exactly where it continues no earlier response and
/// its choice of tools is valid; a refusal says which of the two is at fault.
pub proof fn request_is_refused_for_cause(request: ResponsesRequest)
    ensures
        request_error(request) is None <==> request.previous_response_id is None
            && choice_is_valid(request.tool_choice@, request.tools@.len()),
        request.previous_response_id is Some ==> request_error(request) == Some(
            "previous_response_id is not supported in v1"@,
        ),
        request.previous_response_id is None && !choice_is_valid(
            request.tool_choice@,
            request.tools@.len(),
        ) ==> refusal_names_fault(
            request.tool_choice@,
            request.tools@.len(),
            request_error(request)->Some_0,
        ),
{
    keys_differ();
    let choice = request.tool_choice@;
    let tools = request.tools@.len();
    if let JsonTree::Object(fields) = choice {
        if crate::validate::names_function(fields) {
            let function = fields["function"@];
            let name = function->Object_0["name"@]->Text_0;
            assert(has_field(choice, "function"@, function));
            assert(has_field(function, "name"@, JsonTree::Text(name)));
        }
    }
}

/// Whether a choice that is an object names a function.
pub open spec fn choice_names_function(choice: JsonTree) -> bool {
    choice_is_valid(choice, 1)
}

/// Whether the words of a refusal name what is wrong with a choice of tools.
pub open spec fn refusal_names_fault(choice: JsonTree, tools: nat, words: Seq<char>) -> bool {
    match choice {
        JsonTree::Text(word) => if word == "required"@ {
            words == "tool_choice is \"required\" but no tools are provided"@
        } else {
            words == "invalid tool_choice string: \""@ + word
                + "\"; expected \"auto\", \"none\", or \"required\""@
        },
        JsonTree::Object(_) => if choice_names_function(choice) {
            words == "tool_choice specifies a function but no tools are provided"@
        } else {
            words
                == "invalid tool_choice object: expected {\"type\":\"function\",\"function\":{\"name\":\"<non-empty>\"}}"@
        },
        _ => words
            == "invalid tool_choice: expected a string (\"auto\", \"none\", \"required\") or a function object"@,
    }
}

/// A number in decimal notation is written in digits, without leading zeros,
/// and has the value that its digits say.
pub proof fn decimal_says_value(value: nat)
    ensures
        decimal_value(decimal(value)) == value,
        decimal(value).len() > 0,
        forall|k: int| 0 <= k < decimal(value).len() ==> '0' <= #[trigger] decimal(value)[k] <= '9',
        decimal(value).len() > 1 ==> decimal(value)[0] != '0',
    decreases value,
{
    let text = decimal(value);
    if value < 10 {
        assert(text.drop_last() =~= Seq::<char>::empty());
        reveal_with_fuel(decimal_value, 2);
    } else {
        decimal_says_value(value / 10);
        let front = decimal(value / 10);
        assert(text.drop_last() =~= front);
        assert(value / 10 > 0);
        if front.len() == 1 && front[0] == '0' {
            reveal_with_fuel(decimal_value, 2);
            assert(front.drop_last() =~= Seq::<char>::empty());
        }
    }
}

/// The value that digits say.
pub open spec fn decimal_value(digits: Seq<char>) -> int
    decreases digits.len(),
{
    if digits.len() == 0 {
        0
    } else {
        10 * decimal_value(digits.drop_last()) + (digits.last() as int - '0' as int)
    }
}

} // verus!

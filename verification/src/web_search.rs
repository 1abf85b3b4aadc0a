//! Web searches of earlier turns, as calls and results.
use crate::json::{object1, object2, optional_json, text_or_null, Json, JsonTree};
use crate::responses::WebSearchAction;
use crate::text::{join, joined, optional_text, texts};
use vstd::prelude::*;

verus! {

/// The query of a search: its own, or else the first of its queries.
pub open spec fn search_query(
    query: Option<String>,
    queries: Option<Vec<String>>,
) -> Option<Seq<char>> {
    match query {
        Some(query) => Some(query@),
        None => match queries {
            Some(queries) => if queries@.len() > 0 {
                Some(queries@[0]@)
            } else {
                None
            },
            None => None,
        },
    }
}

/// The arguments of the call that a web search stands for.
pub open spec fn search_arguments(action: Option<WebSearchAction>) -> JsonTree {
    JsonTree::Object(
        match action {
            Some(WebSearchAction::Search { query, queries }) => match search_query(query, queries) {
                Some(query) => map!["query"@ => JsonTree::Text(query)],
                None => Map::empty(),
            },
            Some(WebSearchAction::OpenPage { url }) => map!["url"@ => text_or_null(url)],
            Some(WebSearchAction::FindInPage { url, pattern }) =>
                map!["url"@ => text_or_null(url), "pattern"@ => text_or_null(pattern)],
            Some(WebSearchAction::Other) => Map::empty(),
            None => Map::empty(),
        },
    )
}

/// What the replaced result says was done, behind the name of the tool.
pub open spec fn action_label(action: Option<WebSearchAction>) -> Seq<char> {
    match action {
        Some(WebSearchAction::OpenPage { .. }) => " open_page"@,
        Some(WebSearchAction::FindInPage { .. }) => " find_in_page"@,
        _ => ""@,
    }
}

/// A labelled text where there is one.
pub open spec fn fragment(label: Seq<char>, value: Option<Seq<char>>) -> Seq<Seq<char>> {
    match value {
        Some(value) => seq![label + value],
        None => Seq::empty(),
    }
}

/// What the replaced result says of the search, in the order of the fields.
pub open spec fn fragments(action: Option<WebSearchAction>) -> Seq<Seq<char>> {
    match action {
        Some(WebSearchAction::Search { query, queries }) => fragment(
            "Query: "@,
            search_query(query, queries),
        ),
        Some(WebSearchAction::OpenPage { url }) => fragment(
            "URL: "@,
            optional_text(url),
        ),
        Some(WebSearchAction::FindInPage { url, pattern }) => fragment(
            "URL: "@,
            optional_text(url),
        ) + fragment("Pattern: "@, optional_text(pattern)),
        _ => Seq::empty(),
    }
}

/// The text that takes the place of a search result that is gone.
pub open spec fn placeholder_text(action: Option<WebSearchAction>) -> Seq<char> {
    "Previous web_search"@ + action_label(action)
        + " completed in an earlier turn, but the original tool result is unavailable because replay state was missing."@
        + if fragments(action).len() == 0 {
        Seq::empty()
    } else {
        " "@ + joined(fragments(action), ". "@)
    }
}

/// The query of a search: its own, or else the first of its queries.
fn query_of(query: &Option<String>, queries: &Option<Vec<String>>) -> (found: Option<String>)
    ensures
        optional_text(found) == search_query(*query, *queries),
{
    match query {
        Some(query) => Some(query.clone()),
        None => match queries {
            Some(queries) => if queries.len() > 0 {
                Some(queries[0].clone())
            } else {
                None
            },
            None => None,
        },
    }
}

/// The arguments of the call that a web search stands for.
pub fn web_search_arguments(action: &Option<WebSearchAction>) -> (arguments: Json)
    ensures
        arguments@ == search_arguments(*action),
{
    match action {
        Some(WebSearchAction::Search { query, queries }) => match query_of(query, queries) {
            Some(query) => object1("query", Json::Text(query)),
            None => Json::Object(Vec::new()),
        },
        Some(WebSearchAction::OpenPage { url }) => object1("url", optional_json(url)),
        Some(WebSearchAction::FindInPage { url, pattern }) => object2(
            "url",
            optional_json(url),
            "pattern",
            optional_json(pattern),
        ),
        Some(WebSearchAction::Other) | None => Json::Object(Vec::new()),
    }
}

/// Adds a labelled text where there is one.
fn push_fragment(pieces: &mut Vec<String>, label: &str, value: &Option<String>)
    ensures
        texts(final(pieces)@) == texts(old(pieces)@) + fragment(
            label@,
            optional_text(*value),
        ),
{
    if let Some(value) = value {
        let mut piece = label.to_string();
        piece.append(value.as_str());
        pieces.push(piece);
    }
    assert(texts(pieces@) =~= texts(old(pieces)@) + fragment(
        label@,
        optional_text(*value),
    ));
}

/// The text that takes the place of a search result that is gone.
pub fn web_search_placeholder_result(action: &Option<WebSearchAction>) -> (result: String)
    ensures
        result@ == placeholder_text(*action),
{
    let mut pieces: Vec<String> = Vec::new();
    let label: &str = match action {
        Some(WebSearchAction::Search { query, queries }) => {
            push_fragment(&mut pieces, "Query: ", &query_of(query, queries));
            ""
        },
        Some(WebSearchAction::OpenPage { url }) => {
            push_fragment(&mut pieces, "URL: ", url);
            " open_page"
        },
        Some(WebSearchAction::FindInPage { url, pattern }) => {
            push_fragment(&mut pieces, "URL: ", url);
            push_fragment(&mut pieces, "Pattern: ", pattern);
            " find_in_page"
        },
        Some(WebSearchAction::Other) | None => "",
    };
    assert(texts(pieces@) =~= fragments(*action));
    let mut result = "Previous web_search".to_string();
    result.append(label);
    result.append(
        " completed in an earlier turn, but the original tool result is unavailable because replay state was missing.",
    );
    if !pieces.is_empty() {
        let all = join(&pieces, ". ");
        result.append(" ");
        result.append(all.as_str());
    }
    assert(result@ =~= placeholder_text(*action));
    result
}

} // verus!

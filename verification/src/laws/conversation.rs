//! How each item of a conversation shows in the messages of a turn.
use crate::chat::{MessageView, ToolCallView};
use crate::codec::{parsed_tree, serialized_text};
use crate::config::RolesConfig;
use crate::json::JsonTree;
use crate::laws::policy::{front_is_one, hoisted_front_is_one};
use crate::laws::texts::{
    lines_of, reasoning_block_holds_pieces, reasoning_joined_holds_both, reasoning_pieces,
    stands_at,
};
use crate::laws::values::{
    content_shows, has_field, has_no_fields_but, message_content_shows_pieces,
    search_arguments_show_action, search_result_shows, search_shows,
    tool_search_result_shows_tools,
};
use crate::lowering::{
    after_item, after_items, after_items_keeps, first_messages, flushed, joins_last,
    lowered_turn, with_tool_call, LoweringView,
};
use crate::messages::hoisted;
use crate::reasoning::{
    carried_reasoning, no_reasoning, no_reasoning_neutral, reasoning_block_text,
    reasoning_joined, reasoning_joined_associative, reasoning_or_none, ReasoningView,
};
use crate::responses::{
    LocalShellAction, ResponseItem, ResponsesRequest, WebSearchAction,
};
use crate::roles::role_shaped;
use crate::text::decimal;
use crate::web_search::placeholder_text;
use vstd::prelude::*;

verus! {

/// Whether an item makes a tool call.
pub open spec fn calls(item: ResponseItem) -> bool {
    ||| item is FunctionCall
    ||| item is CustomToolCall
    ||| item is ToolSearchCall
    ||| item is LocalShellCall
    ||| item is WebSearchCall
}

/// Whether an item opens a message of its own.
pub open spec fn opens(item: ResponseItem) -> bool {
    ||| item is Message
    ||| item is FunctionCallOutput
    ||| item is CustomToolCallOutput
    ||| item is ToolSearchOutput
}

/// The role under which a message of the conversation shows: its own with a role
/// policy, and without one that of the system for a developer.
pub open spec fn shown_role(role: Seq<char>, roles_active: bool) -> Seq<char> {
    if !roles_active && role == "developer"@ {
        "system"@
    } else {
        role
    }
}

/// Whether an item takes the reasoning that waits: it is a message of the
/// assistant or makes a tool call.
pub open spec fn takes(item: ResponseItem, roles_active: bool) -> bool {
    match item {
        ResponseItem::Message { id, role, content, phase } => shown_role(role@, roles_active)
            == "assistant"@,
        _ => calls(item),
    }
}

/// Whether a message of the assistant makes a call of a function, with its id,
/// its name and its arguments, under the number of its place.
pub open spec fn makes_call(
    message: MessageView,
    id: Seq<char>,
    name: Seq<char>,
    arguments: JsonTree,
) -> bool {
    &&& message.role == "assistant"@
    &&& message.tool_calls is Some
    &&& exists|c: int|
        0 <= c < message.tool_calls->Some_0.len() && is_call(
            #[trigger] message.tool_calls->Some_0[c],
            c,
            id,
            name,
            arguments,
        )
}

/// Whether a call is one of a function, with its number, its id, its name and
/// its arguments.
pub open spec fn is_call(
    call: ToolCallView,
    number: int,
    id: Seq<char>,
    name: Seq<char>,
    arguments: JsonTree,
) -> bool {
    &&& call.id == Some(id)
    &&& call.index == Some(number as usize)
    &&& call.kind == "function"@
    &&& call.name == Some(name)
    &&& call.arguments == Some(arguments)
}

/// Whether a message is the result of a tool, with the id of its call and a
/// text, and nothing else.
pub open spec fn is_result(message: MessageView, id: Option<Seq<char>>, text: Seq<char>) -> bool {
    &&& message.role == "tool"@
    &&& message.content == Some(JsonTree::Text(text))
    &&& message.tool_call_id == id
    &&& message.name is None
    &&& message.reasoning_content is None
    &&& message.thinking is None
    &&& message.tool_calls is None
}

/// Whether a message shows the output of a tool: a text character for character,
/// and any other value as serialised.
pub open spec fn shows_output(message: MessageView, call_id: Seq<char>, output: JsonTree) -> bool {
    match output {
        JsonTree::Text(text) => is_result(message, Some(call_id), text),
        _ => is_result(message, Some(call_id), serialized_text(output)),
    }
}

/// Whether a message shows a message of the conversation: its role, every piece
/// of its content, and nothing else but, on one of the assistant, reasoning and
/// tool calls.
pub open spec fn shows_message(
    message: MessageView,
    role: Seq<char>,
    content: Seq<crate::responses::ContentItem>,
) -> bool {
    &&& message.role == role
    &&& message.content is Some
    &&& content_shows(content, message.content->Some_0)
    &&& message.tool_call_id is None
    &&& message.name is None
    &&& message.role != "assistant"@ ==> {
        &&& message.reasoning_content is None
        &&& message.thinking is None
        &&& message.tool_calls is None
    }
}

/// Whether messages show an item at a place.
pub open spec fn shows_item(
    item: ResponseItem,
    messages: Seq<MessageView>,
    at: int,
    roles_active: bool,
) -> bool {
    &&& 0 <= at < messages.len()
    &&& match item {
        ResponseItem::Message { id, role, content, phase } => shows_message(
            messages[at],
            shown_role(role@, roles_active),
            content@,
        ),
        ResponseItem::FunctionCall { id, name, namespace, arguments, call_id } => {
            &&& parsed_tree(arguments@) is Ok
            &&& makes_call(messages[at], call_id@, name@, parsed_tree(arguments@)->Ok_0)
        },
        ResponseItem::CustomToolCall { id, call_id, name, input } => exists|arguments: JsonTree|
            {
                &&& #[trigger] makes_call(messages[at], call_id@, name@, arguments)
                &&& has_field(arguments, "input"@, JsonTree::Text(input@))
                &&& has_no_fields_but(arguments, set!["input"@])
            },
        ResponseItem::ToolSearchCall { call_id, status, execution, arguments } => {
            &&& execution@ == "client"@
            &&& match call_id {
                Some(call_id) => makes_call(
                    messages[at],
                    call_id@,
                    "tool_search"@,
                    arguments@,
                ),
                None => makes_call(
                    messages[at],
                    "tool_search_missing_call_id"@,
                    "tool_search"@,
                    arguments@,
                ),
            }
        },
        ResponseItem::LocalShellCall { id, call_id, action } => match action {
            LocalShellAction::Exec(Ok(arguments)) => match call_id {
                Some(call_id) => makes_call(
                    messages[at],
                    call_id@,
                    "local_shell"@,
                    arguments@,
                ),
                None => id is Some && makes_call(
                    messages[at],
                    id->Some_0@,
                    "local_shell"@,
                    arguments@,
                ),
            },
            LocalShellAction::Exec(Err(_)) => false,
        },
        ResponseItem::FunctionCallOutput { call_id, output } => shows_output(
            messages[at],
            call_id@,
            output@,
        ),
        ResponseItem::CustomToolCallOutput { call_id, name, output } => shows_output(
            messages[at],
            call_id@,
            output@,
        ),
        ResponseItem::ToolSearchOutput { call_id, status, execution, tools } => exists|
            found: JsonTree,
        |
            {
                &&& #[trigger] search_result_shows(status@, execution@, tools@, found)
                &&& match call_id {
                    Some(call_id) => is_result(
                        messages[at],
                        Some(call_id@),
                        serialized_text(found),
                    ),
                    None => is_result(messages[at], None, serialized_text(found)),
                }
            },
        ResponseItem::WebSearchCall { id, action } => {
            &&& at + 1 < messages.len()
            &&& exists|call_id: Seq<char>, arguments: JsonTree|
                {
                    &&& #[trigger] makes_call(
                        messages[at],
                        call_id,
                        "web_search"@,
                        arguments,
                    )
                    &&& search_shows(action, arguments)
                    &&& is_result(messages[at + 1], Some(call_id), placeholder_text(action))
                    &&& match id {
                        Some(id) => call_id == id@,
                        None => call_id == "web_search_missing_replay_"@ + decimal(at as nat)
                            || call_id == "web_search_missing_replay_"@ + decimal((at + 1) as nat),
                    }
                }
        },
        ResponseItem::Reasoning { .. } | ResponseItem::ImageGenerationCall { .. } => true,
    }
}

/// Whether a message is another that may have gained tool calls and reasoning,
/// which only one of the assistant can.
pub open spec fn grown(before: MessageView, after: MessageView) -> bool {
    &&& after.role == before.role
    &&& after.content == before.content
    &&& after.tool_call_id == before.tool_call_id
    &&& after.name == before.name
    &&& before.role != "assistant"@ ==> after == before
    &&& before.tool_calls is Some ==> {
        &&& after.tool_calls is Some
        &&& after.tool_calls->Some_0.len() >= before.tool_calls->Some_0.len()
        &&& forall|c: int|
            0 <= c < before.tool_calls->Some_0.len() ==> #[trigger] after.tool_calls->Some_0[c]
                == before.tool_calls->Some_0[c]
    }
    &&& before.reasoning_content is Some ==> after.reasoning_content is Some && stands_at(
        after.reasoning_content->Some_0,
        before.reasoning_content->Some_0,
        0,
    )
}

/// Whether messages go on from others, each of which is still in its place.
pub open spec fn grow(before: Seq<MessageView>, after: Seq<MessageView>) -> bool {
    &&& before.len() <= after.len()
    &&& forall|k: int|
        0 <= k < before.len() ==> grown(#[trigger] before[k], #[trigger] after[k])
}

proof fn grow_on(a: Seq<MessageView>, b: Seq<MessageView>, c: Seq<MessageView>)
    requires
        grow(a, b),
        grow(b, c),
    ensures
        grow(a, c),
{
    assert forall|k: int| 0 <= k < a.len() implies grown(#[trigger] a[k], #[trigger] c[k]) by {
        assert(grown(a[k], b[k]));
        assert(grown(b[k], c[k]));
        if a[k].tool_calls is Some {
            assert forall|n: int| 0 <= n < a[k].tool_calls->Some_0.len() implies #[trigger] c[k].tool_calls->Some_0[n]
                == a[k].tool_calls->Some_0[n] by {
                assert(b[k].tool_calls->Some_0[n] == a[k].tool_calls->Some_0[n]);
            }
        }
        if a[k].reasoning_content is Some {
            let first = a[k].reasoning_content->Some_0;
            let second = b[k].reasoning_content->Some_0;
            assert forall|n: int| 0 <= n < first.len() implies c[k].reasoning_content->Some_0[0 + n]
                == #[trigger] first[n] by {
                assert(second[0 + n] == first[n]);
                assert(second[n] == second[0 + n]);
            }
        }
    }
}

proof fn call_stays(
    before: MessageView,
    after: MessageView,
    id: Seq<char>,
    name: Seq<char>,
    arguments: JsonTree,
)
    requires
        grown(before, after),
        makes_call(before, id, name, arguments),
    ensures
        makes_call(after, id, name, arguments),
{
    let c = choose|c: int|
        0 <= c < before.tool_calls->Some_0.len() && is_call(
            #[trigger] before.tool_calls->Some_0[c],
            c,
            id,
            name,
            arguments,
        );
    assert(after.tool_calls->Some_0[c] == before.tool_calls->Some_0[c]);
}

proof fn item_stays_shown(
    item: ResponseItem,
    before: Seq<MessageView>,
    after: Seq<MessageView>,
    at: int,
    roles_active: bool,
)
    requires
        grow(before, after),
        shows_item(item, before, at, roles_active),
    ensures
        shows_item(item, after, at, roles_active),
{
    reveal_strlit("assistant");
    reveal_strlit("tool");
    assert("assistant"@.len() == 9);
    assert("tool"@.len() == 4);
    assert(grown(before[at], after[at]));
    match item {
        ResponseItem::FunctionCall { id, name, namespace, arguments, call_id } => {
            call_stays(
                before[at],
                after[at],
                call_id@,
                name@,
                parsed_tree(arguments@)->Ok_0,
            );
        },
        ResponseItem::CustomToolCall { id, call_id, name, input } => {
            let arguments = choose|arguments: JsonTree|
                {
                    &&& #[trigger] makes_call(before[at], call_id@, name@, arguments)
                    &&& has_field(arguments, "input"@, JsonTree::Text(input@))
                    &&& has_no_fields_but(arguments, set!["input"@])
                };
            call_stays(before[at], after[at], call_id@, name@, arguments);
        },
        ResponseItem::ToolSearchCall { call_id, status, execution, arguments } => {
            let id = match call_id {
                Some(call_id) => call_id@,
                None => "tool_search_missing_call_id"@,
            };
            call_stays(before[at], after[at], id, "tool_search"@, arguments@);
        },
        ResponseItem::LocalShellCall { id, call_id, action } => {
            if let LocalShellAction::Exec(Ok(arguments)) = action {
                let call = match call_id {
                    Some(call_id) => call_id@,
                    None => id->Some_0@,
                };
                call_stays(before[at], after[at], call, "local_shell"@, arguments@);
            }
        },
        ResponseItem::WebSearchCall { id, action } => {
            let (call_id, arguments) = choose|call_id: Seq<char>, arguments: JsonTree|
                {
                    &&& #[trigger] makes_call(before[at], call_id, "web_search"@, arguments)
                    &&& search_shows(action, arguments)
                    &&& is_result(before[at + 1], Some(call_id), placeholder_text(action))
                    &&& match id {
                        Some(id) => call_id == id@,
                        None => call_id == "web_search_missing_replay_"@ + decimal(at as nat)
                            || call_id == "web_search_missing_replay_"@ + decimal((at + 1) as nat),
                    }
                };
            call_stays(before[at], after[at], call_id, "web_search"@, arguments);
            assert(grown(before[at + 1], after[at + 1]));
        },
        _ => {},
    }
}

/// The place of a tool call among messages: the last message where the call
/// joins it, and a new one otherwise.
spec fn call_place(messages: Seq<MessageView>, merge_floor: nat) -> int {
    if joins_last(messages, merge_floor) {
        messages.len() - 1
    } else {
        messages.len() as int
    }
}

proof fn with_tool_call_shows(
    messages: Seq<MessageView>,
    id: Seq<char>,
    name: Seq<char>,
    arguments: JsonTree,
    pending: Option<ReasoningView>,
    merge_floor: nat,
)
    ensures
        ({
            let after = with_tool_call(messages, id, name, arguments, pending, merge_floor);
            let place = call_place(messages, merge_floor);
            &&& grow(messages, after)
            &&& after.len() == place + 1
            &&& makes_call(after[place], id, name, arguments)
            &&& place == messages.len() ==> after[place].content is None
            &&& forall|k: int| 0 <= k < messages.len() && k != place ==> #[trigger] after[k] == messages[k]
        }),
{
    let after = with_tool_call(messages, id, name, arguments, pending, merge_floor);
    let place = call_place(messages, merge_floor);
    let made = after[place].tool_calls->Some_0;
    assert(is_call(
        after[place].tool_calls->Some_0[made.len() - 1],
        made.len() - 1,
        id,
        name,
        arguments,
    ));
    assert forall|k: int| 0 <= k < messages.len() implies grown(
        #[trigger] messages[k],
        #[trigger] after[k],
    ) by {
        if k == place {
            if let Some(reasoning) = pending {
                crate::laws::texts::reasoning_joined_holds_both(
                    crate::reasoning::carried_reasoning(messages[k]),
                    reasoning,
                );
            }
        }
    }
}

/// What an item does to messages: the place at which it shows, with every
/// earlier message in its place.
#[verifier::rlimit(40)]
proof fn item_shows(
    state: LoweringView,
    item: ResponseItem,
    roles_active: bool,
    merge_floor: nat,
) -> (place: int)
    requires
        after_item(state, item, roles_active, merge_floor) is Ok,
    ensures
        ({
            let before = state.messages;
            let after = after_item(state, item, roles_active, merge_floor)->Ok_0.messages;
            &&& grow(before, after)
            &&& opens(item) || calls(item) ==> shows_item(item, after, place, roles_active)
            &&& opens(item) ==> place == before.len() && after.len() == before.len() + 1
                && after[place].content is Some
            &&& calls(item) ==> {
                &&& place == call_place(before, merge_floor)
                &&& after.len() == if item is WebSearchCall {
                    place + 2
                } else {
                    place + 1
                }
                &&& place == before.len() ==> after[place].content is None
                &&& item is WebSearchCall ==> after[place + 1].role == "tool"@
            }
            &&& !opens(item) && !calls(item) ==> after == before
        }),
{
    let before = state.messages;
    let after = after_item(state, item, roles_active, merge_floor)->Ok_0.messages;
    let place = if calls(item) {
        call_place(before, merge_floor)
    } else {
        before.len() as int
    };
    match item {
        ResponseItem::Message { id, role, content, phase } => {
            message_content_shows_pieces(content@);
        },
        ResponseItem::FunctionCall { id, name, namespace, arguments, call_id } => {
            with_tool_call_shows(
                before,
                call_id@,
                name@,
                parsed_tree(arguments@)->Ok_0,
                state.pending,
                merge_floor,
            );
        },
        ResponseItem::CustomToolCall { id, call_id, name, input } => {
            let arguments = JsonTree::Object(map!["input"@ => JsonTree::Text(input@)]);
            with_tool_call_shows(
                before,
                call_id@,
                name@,
                arguments,
                state.pending,
                merge_floor,
            );
            assert(makes_call(after[place], call_id@, name@, arguments));
        },
        ResponseItem::ToolSearchCall { call_id, status, execution, arguments } => {
            let id = match call_id {
                Some(call_id) => call_id@,
                None => "tool_search_missing_call_id"@,
            };
            with_tool_call_shows(
                before,
                id,
                "tool_search"@,
                arguments@,
                state.pending,
                merge_floor,
            );
        },
        ResponseItem::LocalShellCall { id, call_id, action } => {
            let call = match call_id {
                Some(call_id) => call_id@,
                None => id->Some_0@,
            };
            if let LocalShellAction::Exec(Ok(arguments)) = action {
                with_tool_call_shows(
                    before,
                    call,
                    "local_shell"@,
                    arguments@,
                    state.pending,
                    merge_floor,
                );
            }
        },
        ResponseItem::ToolSearchOutput { call_id, status, execution, tools } => {
            tool_search_result_shows_tools(status@, execution@, tools@);
        },
        ResponseItem::WebSearchCall { id, action } => {
            let call_id = crate::lowering::search_call_id(id, before);
            let arguments = crate::web_search::search_arguments(action);
            with_tool_call_shows(
                before,
                call_id,
                "web_search"@,
                arguments,
                state.pending,
                merge_floor,
            );
            search_arguments_show_action(action);
            let called = with_tool_call(
                before,
                call_id,
                "web_search"@,
                arguments,
                state.pending,
                merge_floor,
            );
            assert(after[place] == called[place]);
            assert(makes_call(after[place], call_id, "web_search"@, arguments));
            assert forall|k: int| 0 <= k < before.len() implies grown(
                #[trigger] before[k],
                #[trigger] after[k],
            ) by {
                assert(after[k] == called[k]);
            }
        },
        _ => {},
    }
    place
}

/// Whether messages show the items of a conversation at places: every item that
/// opens a message or makes a call, in the order of the items; every message is
/// there for an item; and a call joins the message of the assistant before it,
/// where that is not out of its reach.
pub open spec fn items_told(
    first: Seq<MessageView>,
    items: Seq<ResponseItem>,
    messages: Seq<MessageView>,
    at: Seq<int>,
    roles_active: bool,
    merge_floor: nat,
) -> bool {
    &&& at.len() == items.len()
    &&& grow(first, messages)
    &&& forall|i: int|
        0 <= i < items.len() && (opens(items[i]) || calls(items[i])) ==> shows_item(
            #[trigger] items[i],
            messages,
            at[i],
            roles_active,
        )
    &&& forall|i: int, j: int|
        #![trigger items[i], items[j]]
        0 <= i < j < items.len() && (opens(items[i]) || calls(items[i])) ==> {
            &&& opens(items[j]) ==> end_of(items[i], at[i]) < at[j]
            &&& calls(items[j]) ==> at[i] <= at[j]
            &&& calls(items[j]) && !calls(items[i]) && !(items[i] is Message) ==> at[i] < at[j]
            &&& calls(items[j]) && items[i] is WebSearchCall ==> at[i] + 1 < at[j]
        }
    &&& forall|k: int|
        first.len() <= k < messages.len() ==> is_for_an_item(items, at, #[trigger] messages[k], k)
    &&& forall|i: int|
        0 <= i < items.len() ==> within_reach(
            #[trigger] items[i],
            at[i],
            first.len() as int,
            merge_floor as int,
        )
    &&& forall|k: int|
        #![trigger messages[k]]
        first.len() <= k < messages.len() && k > merge_floor && k > 0 && messages[k].role
            == "assistant"@ && messages[k].content is None ==> messages[k - 1].role
            != "assistant"@
}

/// Whether a call is not among messages that are out of its reach, nor before
/// the last of those that were there first.
pub open spec fn within_reach(item: ResponseItem, at: int, first: int, merge_floor: int) -> bool {
    calls(item) ==> merge_floor <= at && first - 1 <= at
}

/// The place of the last message that an item brings.
pub open spec fn end_of(item: ResponseItem, at: int) -> int {
    if item is WebSearchCall {
        at + 1
    } else {
        at
    }
}

/// Whether a message is at the place of an item, or is the result of a web
/// search at that place.
pub open spec fn is_for_an_item(
    items: Seq<ResponseItem>,
    at: Seq<int>,
    message: MessageView,
    k: int,
) -> bool {
    exists|i: int|
        {
            &&& 0 <= i < items.len()
            &&& opens(#[trigger] items[i]) || calls(items[i])
            &&& at[i] <= k <= end_of(items[i], at[i])
        }
}

spec fn next_places(
    items: Seq<ResponseItem>,
    at: Seq<int>,
    item: ResponseItem,
    place: int,
    roles_active: bool,
) -> Seq<int> {
    Seq::new(
        at.len() + 1,
        |i: int|
            if i < at.len() {
                if items[i] is Reasoning && at[i] < 0 && takes(item, roles_active) {
                    place
                } else {
                    at[i]
                }
            } else if opens(item) || calls(item) {
                place
            } else {
                -1
            },
    )
}

#[verifier::rlimit(40)]
proof fn next_item_told(
    first: Seq<MessageView>,
    items: Seq<ResponseItem>,
    item: ResponseItem,
    state: LoweringView,
    at: Seq<int>,
    place: int,
    roles_active: bool,
    merge_floor: nat,
)
    requires
        items_told(first, items, state.messages, at, roles_active, merge_floor),
        state.messages.len() >= merge_floor,
        after_item(state, item, roles_active, merge_floor) is Ok,
        ({
            let before = state.messages;
            let after = after_item(state, item, roles_active, merge_floor)->Ok_0.messages;
            &&& grow(before, after)
            &&& opens(item) || calls(item) ==> shows_item(item, after, place, roles_active)
            &&& opens(item) ==> place == before.len() && after.len() == before.len() + 1
                && after[place].content is Some
            &&& calls(item) ==> {
                &&& place == call_place(before, merge_floor)
                &&& after.len() == if item is WebSearchCall {
                    place + 2
                } else {
                    place + 1
                }
                &&& place == before.len() ==> after[place].content is None
                &&& item is WebSearchCall ==> after[place + 1].role == "tool"@
            }
            &&& !opens(item) && !calls(item) ==> after == before
        }),
    ensures
        items_told(
            first,
            items.push(item),
            after_item(state, item, roles_active, merge_floor)->Ok_0.messages,
            next_places(items, at, item, place, roles_active),
            roles_active,
            merge_floor,
        ),
{
    reveal_strlit("assistant");
    reveal_strlit("tool");
    assert("assistant"@.len() == 9);
    assert("tool"@.len() == 4);
    let before = state.messages;
    let after = after_item(state, item, roles_active, merge_floor)->Ok_0.messages;
    let all = items.push(item);
    let places = next_places(items, at, item, place, roles_active);
    let n = items.len() as int;
    grow_on(first, before, after);
    assert forall|i: int| 0 <= i < n implies all[i] == items[i] && ((opens(items[i]) || calls(
        items[i],
    )) ==> places[i] == at[i]) by {}
    assert forall|i: int| 0 <= i < all.len() && (opens(all[i]) || calls(all[i])) implies shows_item(
        #[trigger] all[i],
        after,
        places[i],
        roles_active,
    ) by {
        if i < n {
            assert(shows_item(items[i], before, at[i], roles_active));
            item_stays_shown(items[i], before, after, at[i], roles_active);
        }
    }
    assert forall|i: int, j: int|
        #![trigger all[i], all[j]]
        0 <= i < j < all.len() && (opens(all[i]) || calls(all[i])) implies {
        &&& opens(all[j]) ==> end_of(all[i], places[i]) < places[j]
        &&& calls(all[j]) ==> places[i] <= places[j]
        &&& calls(all[j]) && !calls(all[i]) && !(all[i] is Message) ==> places[i] < places[j]
        &&& calls(all[j]) && all[i] is WebSearchCall ==> places[i] + 1 < places[j]
    } by {
        assert(all[i] == items[i]);
        assert(shows_item(items[i], before, at[i], roles_active));
        if j < n {
            assert(all[j] == items[j]);
        }
    }
    assert forall|k: int| first.len() <= k < after.len() implies is_for_an_item(
        all,
        places,
        #[trigger] after[k],
        k,
    ) by {
        if k < before.len() {
            assert(is_for_an_item(items, at, before[k], k));
            let i = choose|i: int|
                {
                    &&& 0 <= i < items.len()
                    &&& opens(#[trigger] items[i]) || calls(items[i])
                    &&& at[i] <= k <= end_of(items[i], at[i])
                };
            assert(opens(all[i]) || calls(all[i]));
        } else {
            assert(all[n] == item);
            assert(opens(all[n]) || calls(all[n]));
        }
    }
    assert forall|i: int| 0 <= i < all.len() implies within_reach(
        #[trigger] all[i],
        places[i],
        first.len() as int,
        merge_floor as int,
    ) by {
        if i < n {
            assert(within_reach(items[i], at[i], first.len() as int, merge_floor as int));
        }
    }
    assert forall|k: int|
        #![trigger after[k]]
        first.len() <= k < after.len() && k > merge_floor && k > 0 && after[k].role
            == "assistant"@ && after[k].content is None implies after[k - 1].role
        != "assistant"@ by {
        if k < before.len() {
            assert(grown(before[k], after[k]));
            assert(grown(before[k - 1], after[k - 1]));
        } else {
            assert(k == place);
            assert(grown(before[k - 1], after[k - 1]));
        }
    }
}

/// The block of reasoning that an item brings.
spec fn block_of(item: ResponseItem) -> ReasoningView {
    match item {
        ResponseItem::Reasoning { id, summary, content, encrypted_content } => ReasoningView {
            text: reasoning_block_text(summary@, content),
            signature: match encrypted_content {
                Some(signature) => if signature@.len() == 0 {
                    None
                } else {
                    Some(signature@)
                },
                None => None,
            },
        },
        _ => no_reasoning(),
    }
}

/// The blocks of the reasoning items that are at a place, as one.
spec fn held(items: Seq<ResponseItem>, at: Seq<int>, k: int) -> ReasoningView
    decreases items.len(),
{
    if items.len() == 0 {
        no_reasoning()
    } else {
        let before = held(items.drop_last(), at.drop_last(), k);
        if items.last() is Reasoning && at.last() == k {
            reasoning_joined(before, block_of(items.last()))
        } else {
            before
        }
    }
}

spec fn waiting_last(items: Seq<ResponseItem>, at: Seq<int>) -> bool {
    forall|i: int, j: int|
        #![trigger items[i], items[j]]
        0 <= i < j < items.len() && items[i] is Reasoning && items[j] is Reasoning && at[i] == -1
            ==> at[j] == -1
}

proof fn held_none(items: Seq<ResponseItem>, at: Seq<int>, k: int)
    requires
        at.len() == items.len(),
        forall|i: int| 0 <= i < items.len() && (#[trigger] items[i]) is Reasoning ==> at[i] != k,
    ensures
        held(items, at, k) == no_reasoning(),
    decreases items.len(),
{
    if items.len() > 0 {
        let rest = items.drop_last();
        assert forall|i: int| 0 <= i < rest.len() && (#[trigger] rest[i]) is Reasoning implies at.drop_last()[i]
            != k by {
            assert(items[i] == rest[i]);
        }
        held_none(rest, at.drop_last(), k);
        assert(items[items.len() - 1] == items.last());
    }
}

spec fn moved(items: Seq<ResponseItem>, at: Seq<int>, place: int) -> Seq<int> {
    Seq::new(
        at.len(),
        |i: int|
            if items[i] is Reasoning && at[i] < 0 {
                place
            } else {
                at[i]
            },
    )
}

proof fn held_moved(items: Seq<ResponseItem>, at: Seq<int>, place: int, k: int)
    requires
        at.len() == items.len(),
        waiting_last(items, at),
        forall|i: int| 0 <= i < items.len() && (#[trigger] items[i]) is Reasoning ==> at[i] >= -1,
        place >= 0,
        k >= 0,
    ensures
        held(items, moved(items, at, place), k) == if k == place {
            reasoning_joined(held(items, at, place), held(items, at, -1))
        } else {
            held(items, at, k)
        },
    decreases items.len(),
{
    if items.len() == 0 {
        no_reasoning_neutral(no_reasoning());
    } else {
        let rest = items.drop_last();
        let earlier = at.drop_last();
        let last = items.len() - 1;
        assert forall|i: int| 0 <= i < rest.len() && (#[trigger] rest[i]) is Reasoning implies earlier[i]
            >= -1 by {
            assert(items[i] == rest[i]);
        }
        assert(waiting_last(rest, earlier)) by {
            assert forall|i: int, j: int|
                #![trigger rest[i], rest[j]]
                0 <= i < j < rest.len() && rest[i] is Reasoning && rest[j] is Reasoning
                    && earlier[i] == -1 implies earlier[j] == -1 by {
                assert(items[i] == rest[i]);
                assert(items[j] == rest[j]);
            }
        }
        held_moved(rest, earlier, place, k);
        assert(moved(items, at, place).drop_last() =~= moved(rest, earlier, place));
        assert(items[last] == items.last());
        if items[last] is Reasoning && k == place {
            let block = block_of(items[last]);
            if at[last] == -1 {
                reasoning_joined_associative(
                    held(rest, earlier, place),
                    held(rest, earlier, -1),
                    block,
                );
            } else if at[last] == place {
                assert forall|i: int| 0 <= i < rest.len() && (
                #[trigger] rest[i]) is Reasoning implies earlier[i] != -1 by {
                    assert(items[i] == rest[i]);
                }
                held_none(rest, earlier, -1);
                no_reasoning_neutral(held(rest, earlier, place));
                no_reasoning_neutral(held(items, at, place));
            }
        }
    }
}

/// Whether a signed message has the text of its reasoning in its signed form.
pub open spec fn signed_whole(message: MessageView) -> bool {
    match message.thinking {
        Some(thinking) => thinking.signature is Some && message.reasoning_content == Some(
            thinking.content,
        ),
        None => true,
    }
}

spec fn base(first: Seq<MessageView>, k: int) -> ReasoningView {
    if k < first.len() {
        carried_reasoning(first[k])
    } else {
        no_reasoning()
    }
}

spec fn reasoning_kept(
    first: Seq<MessageView>,
    items: Seq<ResponseItem>,
    state: LoweringView,
    at: Seq<int>,
    roles_active: bool,
) -> bool {
    let messages = state.messages;
    &&& at.len() == items.len()
    &&& forall|i: int|
        0 <= i < items.len() && (#[trigger] items[i]) is Reasoning ==> rests(messages, at[i])
    &&& waiting_last(items, at)
    &&& state.pending is None ==> forall|i: int|
        0 <= i < items.len() && (#[trigger] items[i]) is Reasoning ==> at[i] >= 0
    &&& state.pending is Some ==> exists|i: int|
        0 <= i < items.len() && (#[trigger] items[i]) is Reasoning && at[i] == -1
    &&& reasoning_or_none(state.pending) == held(items, at, -1)
    &&& forall|k: int|
        0 <= k < messages.len() ==> carried_reasoning(#[trigger] messages[k]) == reasoning_joined(
            base(first, k),
            held(items, at, k),
        )
    &&& forall|k: int|
        first.len() <= k < messages.len() ==> carries_none(#[trigger] messages[k]) || is_reasoned(
            items,
            at,
            k,
        )
    &&& forall|i: int, j: int|
        #![trigger items[i], items[j]]
        0 <= i < j < items.len() && items[i] is Reasoning && takes(items[j], roles_active)
            ==> 0 <= at[i] <= at[j]
    &&& forall|i: int|
        0 <= i < items.len() && (#[trigger] items[i]) is Reasoning && at[i] >= 0 ==> is_taken(
            items,
            at,
            i,
            roles_active,
        )
}

/// Whether a message carries no reasoning in either form.
pub open spec fn carries_none(message: MessageView) -> bool {
    message.reasoning_content is None && message.thinking is None
}

/// Whether the reasoning of one of the items is at a place.
pub open spec fn is_reasoned(items: Seq<ResponseItem>, at: Seq<int>, k: int) -> bool {
    exists|i: int| 0 <= i < items.len() && (#[trigger] items[i]) is Reasoning && at[i] == k
}

spec fn rests(messages: Seq<MessageView>, at: int) -> bool {
    at == -1 || (0 <= at < messages.len() && messages[at].role == "assistant"@
        && messages[at].reasoning_content is Some && signed_whole(messages[at]))
}

/// Whether the reasoning of an item is in the message of a later item that takes
/// it.
pub open spec fn is_taken(
    items: Seq<ResponseItem>,
    at: Seq<int>,
    i: int,
    roles_active: bool,
) -> bool {
    exists|j: int|
        i < j < items.len() && takes(#[trigger] items[j], roles_active) && at[j] == at[i]
}

/// What an item does to the reasoning of a state.
#[verifier::rlimit(40)]
proof fn item_moves_reasoning(
    state: LoweringView,
    item: ResponseItem,
    place: int,
    roles_active: bool,
    merge_floor: nat,
)
    requires
        after_item(state, item, roles_active, merge_floor) is Ok,
        calls(item) ==> place == call_place(state.messages, merge_floor),
        opens(item) ==> place == state.messages.len(),
    ensures
        ({
            let after = after_item(state, item, roles_active, merge_floor)->Ok_0;
            let before = state.messages;
            &&& forall|k: int|
                0 <= k < before.len() && !(takes(item, roles_active) && k == place)
                    ==> #[trigger] after.messages[k] == before[k]
            &&& forall|k: int|
                before.len() <= k < after.messages.len() && !(takes(item, roles_active) && k
                    == place) ==> carried_reasoning(#[trigger] after.messages[k])
                    == no_reasoning() && carries_none(after.messages[k])
            &&& after.messages.len() >= before.len()
            &&& takes(item, roles_active) ==> {
                &&& after.pending is None
                &&& 0 <= place < after.messages.len()
                &&& after.messages[place].role == "assistant"@
                &&& carried_reasoning(after.messages[place]) == reasoning_joined(
                    if place < before.len() {
                        carried_reasoning(before[place])
                    } else {
                        no_reasoning()
                    },
                    reasoning_or_none(state.pending),
                )
                &&& state.pending is Some ==> after.messages[place].reasoning_content is Some
                    && signed_whole(after.messages[place])
                &&& state.pending is None && place == before.len() ==> carries_none(
                    after.messages[place],
                )
                &&& state.pending is None && place < before.len() ==> {
                    &&& after.messages[place].reasoning_content == before[place].reasoning_content
                    &&& after.messages[place].thinking == before[place].thinking
                }
            }
            &&& item is Reasoning ==> after.messages == before && after.pending is Some
                && reasoning_or_none(after.pending) == reasoning_joined(
                reasoning_or_none(state.pending),
                block_of(item),
            )
            &&& !takes(item, roles_active) && !(item is Reasoning) ==> after.pending
                == state.pending
        }),
{
    let after = after_item(state, item, roles_active, merge_floor)->Ok_0;
    let before = state.messages;
    no_reasoning_neutral(reasoning_or_none(state.pending));
    no_reasoning_neutral(block_of(item));
    if takes(item, roles_active) && place < before.len() {
        no_reasoning_neutral(carried_reasoning(before[place]));
        if let Some(reasoning) = state.pending {
            crate::reasoning::chat_parts_carry(
                after.messages[place],
                Some(reasoning_joined(carried_reasoning(before[place]), reasoning)),
            );
        } else {
            assert(carried_reasoning(after.messages[place]) =~= carried_reasoning(before[place]));
        }
    } else if takes(item, roles_active) {
        crate::reasoning::chat_parts_carry(after.messages[place], state.pending);
    }
    assert forall|k: int|
        before.len() <= k < after.messages.len() && !(takes(item, roles_active) && k
            == place) implies carried_reasoning(#[trigger] after.messages[k])
        == no_reasoning() && carries_none(after.messages[k]) by {
        assert(carried_reasoning(after.messages[k]) =~= no_reasoning());
    }
}

#[verifier::rlimit(40)]
proof fn next_reasoning_kept(
    first: Seq<MessageView>,
    items: Seq<ResponseItem>,
    item: ResponseItem,
    state: LoweringView,
    at: Seq<int>,
    place: int,
    roles_active: bool,
    merge_floor: nat,
)
    requires
        reasoning_kept(first, items, state, at, roles_active),
        after_item(state, item, roles_active, merge_floor) is Ok,
        calls(item) ==> place == call_place(state.messages, merge_floor),
        opens(item) ==> place == state.messages.len(),
        forall|i: int|
            0 <= i < items.len() && takes(#[trigger] items[i], roles_active) ==> at[i]
                < state.messages.len(),
        first.len() <= state.messages.len(),
    ensures
        reasoning_kept(
            first,
            items.push(item),
            after_item(state, item, roles_active, merge_floor)->Ok_0,
            next_places(items, at, item, place, roles_active),
            roles_active,
        ),
{
    item_moves_reasoning(state, item, place, roles_active, merge_floor);
    let after = after_item(state, item, roles_active, merge_floor)->Ok_0;
    let before = state.messages;
    let all = items.push(item);
    let places = next_places(items, at, item, place, roles_active);
    let n = items.len() as int;
    let taken = takes(item, roles_active);
    let earlier = if taken {
        moved(items, at, place)
    } else {
        at
    };
    assert(places.drop_last() =~= earlier);
    assert(all.drop_last() =~= items);
    assert forall|i: int| 0 <= i < n implies all[i] == items[i] && places[i] == earlier[i] by {}
    assert forall|i: int| 0 <= i < n && (#[trigger] items[i]) is Reasoning implies at[i] >= -1 by {
        assert(rests(before, at[i]));
    }
    if taken {
        assert forall|k: int| 0 <= k < after.messages.len() implies held(all, places, k) == if k
            == place {
            reasoning_joined(held(items, at, place), held(items, at, -1))
        } else {
            held(items, at, k)
        } by {
            held_moved(items, at, place, k);
        }
        assert forall|i: int| 0 <= i < all.len() && (#[trigger] all[i]) is Reasoning implies places[i]
            != -1 by {
            if i < n {
                assert(items[i] == all[i]);
            }
        }
        held_none(all, places, -1);
    }
    assert forall|k: int| before.len() <= k implies held(items, at, k) == no_reasoning() by {
        assert forall|i: int| 0 <= i < n && (#[trigger] items[i]) is Reasoning implies at[i]
            != k by {
            assert(rests(before, at[i]));
        }
        held_none(items, at, k);
    }
    assert forall|i: int| 0 <= i < all.len() && (#[trigger] all[i]) is Reasoning implies rests(
        after.messages,
        places[i],
    ) by {
        if i < n {
            assert(items[i] == all[i]);
            assert(rests(before, at[i]));
            if taken && at[i] == -1 {
                assert(state.pending is Some) by {
                    if state.pending is None {
                        assert(at[i] >= 0);
                    }
                }
            } else if at[i] >= 0 {
                if !(taken && at[i] == place) {
                    assert(after.messages[at[i]] == before[at[i]]);
                }
            }
        }
    }
    assert(waiting_last(all, places)) by {
        assert forall|i: int, j: int|
            #![trigger all[i], all[j]]
            0 <= i < j < all.len() && all[i] is Reasoning && all[j] is Reasoning && places[i]
                == -1 implies places[j] == -1 by {
            assert(items[i] == all[i]);
            if j < n {
                assert(items[j] == all[j]);
            }
        }
    }
    if after.pending is None {
        assert forall|i: int| 0 <= i < all.len() && (#[trigger] all[i]) is Reasoning implies places[i]
            >= 0 by {
            assert(all[i] == items[i]);
            assert(rests(before, at[i]));
        }
    } else if item is Reasoning {
        assert(all[n] is Reasoning && places[n] == -1);
    } else {
        let i = choose|i: int|
            0 <= i < items.len() && (#[trigger] items[i]) is Reasoning && at[i] == -1;
        assert(all[i] is Reasoning && places[i] == -1);
    }
    assert forall|k: int| 0 <= k < after.messages.len() implies carried_reasoning(
        #[trigger] after.messages[k],
    ) == reasoning_joined(base(first, k), held(all, places, k)) by {
        no_reasoning_neutral(base(first, k));
        if k < before.len() {
            assert(carried_reasoning(before[k]) == reasoning_joined(
                base(first, k),
                held(items, at, k),
            ));
            if taken && k == place {
                reasoning_joined_associative(
                    base(first, k),
                    held(items, at, k),
                    held(items, at, -1),
                );
            }
        } else {
            no_reasoning_neutral(held(items, at, -1));
            no_reasoning_neutral(no_reasoning());
        }
    }
    assert forall|k: int| first.len() <= k < after.messages.len() implies carries_none(
        #[trigger] after.messages[k],
    ) || is_reasoned(all, places, k) by {
        if k < before.len() && is_reasoned(items, at, k) {
            let i = choose|i: int|
                0 <= i < items.len() && (#[trigger] items[i]) is Reasoning && at[i] == k;
            assert(all[i] is Reasoning && places[i] == k);
        } else if taken && k == place {
            if state.pending is Some {
                let i = choose|i: int|
                    0 <= i < items.len() && (#[trigger] items[i]) is Reasoning && at[i] == -1;
                assert(all[i] is Reasoning && places[i] == k);
            } else if k < before.len() {
                assert(carries_none(before[k]));
            }
        } else if k < before.len() {
            assert(carries_none(before[k]));
            assert(after.messages[k] == before[k]);
        }
    }
    assert forall|i: int, j: int|
        #![trigger all[i], all[j]]
        0 <= i < j < all.len() && all[i] is Reasoning && takes(all[j], roles_active) implies 0
        <= places[i] <= places[j] by {
        assert(items[i] == all[i]);
        assert(rests(before, at[i]));
        if j < n {
            assert(items[j] == all[j]);
        } else if at[i] >= 0 {
            assert(is_taken(items, at, i, roles_active));
            let t = choose|t: int|
                i < t < items.len() && takes(#[trigger] items[t], roles_active) && at[t] == at[i];
            assert(at[t] < before.len());
        }
    }
    assert forall|i: int|
        0 <= i < all.len() && (#[trigger] all[i]) is Reasoning && places[i] >= 0 implies is_taken(
        all,
        places,
        i,
        roles_active,
    ) by {
        assert(items[i] == all[i]);
        assert(rests(before, at[i]));
        if at[i] >= 0 {
            assert(is_taken(items, at, i, roles_active));
            let t = choose|t: int|
                i < t < items.len() && takes(#[trigger] items[t], roles_active) && at[t] == at[i];
            assert(all[t] == items[t]);
            assert(takes(all[t], roles_active) && places[t] == places[i]);
        } else {
            assert(takes(all[n], roles_active) && places[n] == places[i]);
        }
    }
}

proof fn items_are_told(
    start: LoweringView,
    items: Seq<ResponseItem>,
    roles_active: bool,
    merge_floor: nat,
) -> (at: Seq<int>)
    requires
        start.pending is None,
        start.messages.len() >= merge_floor,
        after_items(start, items, roles_active, merge_floor) is Ok,
    ensures
        ({
            let state = after_items(start, items, roles_active, merge_floor)->Ok_0;
            &&& items_told(start.messages, items, state.messages, at, roles_active, merge_floor)
            &&& reasoning_kept(start.messages, items, state, at, roles_active)
        }),
    decreases items.len(),
{
    if items.len() == 0 {
        assert forall|k: int| 0 <= k < start.messages.len() implies carried_reasoning(
            #[trigger] start.messages[k],
        ) == reasoning_joined(base(start.messages, k), held(items, Seq::empty(), k)) by {
            no_reasoning_neutral(carried_reasoning(start.messages[k]));
        }
        Seq::empty()
    } else {
        let rest = items.drop_last();
        let item = items.last();
        let earlier = items_are_told(start, rest, roles_active, merge_floor);
        let state = after_items(start, rest, roles_active, merge_floor)->Ok_0;
        let place = item_shows(state, item, roles_active, merge_floor);
        assert(rest.push(item) =~= items);
        assert forall|i: int|
            0 <= i < rest.len() && takes(#[trigger] rest[i], roles_active) implies earlier[i]
            < state.messages.len() by {
            assert(shows_item(rest[i], state.messages, earlier[i], roles_active));
        }
        next_item_told(
            start.messages,
            rest,
            item,
            state,
            earlier,
            place,
            roles_active,
            merge_floor,
        );
        next_reasoning_kept(
            start.messages,
            rest,
            item,
            state,
            earlier,
            place,
            roles_active,
            merge_floor,
        );
        next_places(rest, earlier, item, place, roles_active)
    }
}

/// Whether a block stands in a text at a position and holds each piece of the
/// summary and of the content of a reasoning item, in their order, on lines of
/// its own, and nothing else.
pub open spec fn block_stands(
    item: ResponseItem,
    text: Seq<char>,
    block: Seq<char>,
    spot: int,
) -> bool {
    match item {
        ResponseItem::Reasoning { id, summary, content, encrypted_content } => {
            &&& lines_of(block, reasoning_pieces(summary@, content))
            &&& stands_at(text, block, spot)
        },
        _ => true,
    }
}

/// The signature of a reasoning item, where it has one that is not empty.
pub open spec fn signature_in(item: ResponseItem) -> Option<Seq<char>> {
    match item {
        ResponseItem::Reasoning { id, summary, content, encrypted_content: Some(signature) } =>
            if signature@.len() > 0 {
                Some(signature@)
            } else {
                None
            },
        _ => None,
    }
}

spec fn spotted(
    items: Seq<ResponseItem>,
    at: Seq<int>,
    blocks: Seq<Seq<char>>,
    spots: Seq<int>,
) -> bool {
    &&& blocks.len() == items.len()
    &&& spots.len() == items.len()
    &&& forall|i: int|
        0 <= i < items.len() && (#[trigger] items[i]) is Reasoning ==> block_stands(
            items[i],
            held(items, at, at[i]).text,
            blocks[i],
            spots[i],
        )
    &&& in_their_order(items, at, blocks, spots)
}

/// Whether the blocks of reasoning items that are at one place stand there in
/// the order of the items, apart from each other where they are not empty.
pub open spec fn in_their_order(
    items: Seq<ResponseItem>,
    at: Seq<int>,
    blocks: Seq<Seq<char>>,
    spots: Seq<int>,
) -> bool {
    forall|i: int, j: int|
        #![trigger items[i], items[j]]
        0 <= i < j < items.len() && items[i] is Reasoning && items[j] is Reasoning && at[i] == at[j]
            ==> {
            &&& spots[i] + blocks[i].len() <= spots[j]
            &&& blocks[i].len() > 0 && blocks[j].len() > 0 ==> spots[i] + blocks[i].len()
                < spots[j]
        }
}

#[verifier::rlimit(40)]
proof fn held_spots(items: Seq<ResponseItem>, at: Seq<int>) -> (found: (Seq<Seq<char>>, Seq<int>))
    requires
        at.len() == items.len(),
    ensures
        spotted(items, at, found.0, found.1),
    decreases items.len(),
{
    if items.len() == 0 {
        (Seq::empty(), Seq::empty())
    } else {
        let rest = items.drop_last();
        let earlier = at.drop_last();
        let last = items.len() - 1;
        let (blocks, spots) = held_spots(rest, earlier);
        let item = items[last];
        let k = at[last];
        let before = held(rest, earlier, k);
        let block = block_of(item);
        reasoning_joined_holds_both(before, block);
        if let ResponseItem::Reasoning { id, summary, content, encrypted_content } = item {
            reasoning_block_holds_pieces(summary@, content);
        }
        let gap: int = if before.text.len() > 0 && block.text.len() > 0 {
            2
        } else {
            0
        };
        let all_blocks = blocks.push(block.text);
        let all_spots = spots.push(before.text.len() + gap);
        assert(items.last() == item);
        assert(at.last() == k);
        assert forall|i: int| 0 <= i < items.len() && (
        #[trigger] items[i]) is Reasoning implies block_stands(
            items[i],
            held(items, at, at[i]).text,
            all_blocks[i],
            all_spots[i],
        ) by {
            if i < last {
                assert(rest[i] == items[i]);
                assert(block_stands(
                    rest[i],
                    held(rest, earlier, earlier[i]).text,
                    blocks[i],
                    spots[i],
                ));
                if item is Reasoning && at[i] == k {
                    let text = held(items, at, k).text;
                    assert forall|n: int| 0 <= n < blocks[i].len() implies text[spots[i] + n]
                        == #[trigger] blocks[i][n] by {
                        assert(before.text[spots[i] + n] == blocks[i][n]);
                        assert(text[0 + (spots[i] + n)] == before.text[spots[i] + n]);
                    }
                }
            }
        }
        assert forall|i: int, j: int|
            #![trigger items[i], items[j]]
            0 <= i < j < items.len() && items[i] is Reasoning && items[j] is Reasoning && at[i]
                == at[j] implies {
            &&& all_spots[i] + all_blocks[i].len() <= all_spots[j]
            &&& all_blocks[i].len() > 0 && all_blocks[j].len() > 0 ==> all_spots[i]
                + all_blocks[i].len() < all_spots[j]
        } by {
            assert(rest[i] == items[i]);
            assert(block_stands(
                rest[i],
                held(rest, earlier, earlier[i]).text,
                blocks[i],
                spots[i],
            ));
            if j < last {
                assert(rest[j] == items[j]);
            }
        }
        (all_blocks, all_spots)
    }
}

proof fn held_signature(items: Seq<ResponseItem>, at: Seq<int>, k: int)
    requires
        at.len() == items.len(),
    ensures
        forall|i: int|
            #![trigger items[i]]
            0 <= i < items.len() && at[i] == k && signature_in(items[i]) is Some ==> held(
                items,
                at,
                k,
            ).signature is Some,
        forall|i: int|
            0 <= i < items.len() && at[i] == k && signature_in(items[i]) is Some
                && #[trigger] first_signed(items, at, i) ==> held(items, at, k).signature
                == signature_in(items[i]),
    decreases items.len(),
{
    if items.len() > 0 {
        let rest = items.drop_last();
        let earlier = at.drop_last();
        let last = items.len() - 1;
        held_signature(rest, earlier, k);
        assert(items.last() == items[last]);
        let before = held(rest, earlier, k);
        reasoning_joined_holds_both(before, block_of(items[last]));
        assert forall|i: int|
            #![trigger items[i]]
            0 <= i < items.len() && at[i] == k && signature_in(items[i]) is Some implies held(
            items,
            at,
            k,
        ).signature is Some by {
            if i < last {
                assert(rest[i] == items[i]);
            }
        }
        assert forall|i: int|
            0 <= i < items.len() && at[i] == k && signature_in(items[i]) is Some
                && #[trigger] first_signed(items, at, i) implies held(items, at, k).signature
            == signature_in(items[i]) by {
            if i < last {
                assert(rest[i] == items[i]);
                assert(first_signed(rest, earlier, i)) by {
                    assert forall|j: int|
                        0 <= j < i && earlier[j] == earlier[i] implies signature_in(
                        #[trigger] rest[j],
                    ) is None by {
                        assert(items[j] == rest[j]);
                    }
                }
            } else {
                if before.signature is Some {
                    unsigned_is_unsigned(rest, earlier, k);
                    let j = choose|j: int|
                        0 <= j < rest.len() && earlier[j] == k && signature_in(
                            #[trigger] rest[j],
                        ) is Some;
                    assert(items[j] == rest[j]);
                }
            }
        }
    }
}

proof fn unsigned_is_unsigned(items: Seq<ResponseItem>, at: Seq<int>, k: int)
    requires
        at.len() == items.len(),
    ensures
        held(items, at, k).signature is Some ==> exists|i: int|
            0 <= i < items.len() && at[i] == k && signature_in(#[trigger] items[i]) is Some,
    decreases items.len(),
{
    if items.len() > 0 && held(items, at, k).signature is Some {
        let rest = items.drop_last();
        let earlier = at.drop_last();
        let last = items.len() - 1;
        unsigned_is_unsigned(rest, earlier, k);
        assert(items.last() == items[last]);
        reasoning_joined_holds_both(held(rest, earlier, k), block_of(items[last]));
        if held(rest, earlier, k).signature is Some {
            let i = choose|i: int|
                0 <= i < rest.len() && earlier[i] == k && signature_in(#[trigger] rest[i]) is Some;
            assert(items[i] == rest[i]);
        } else {
            assert(signature_in(items[last]) is Some);
        }
    }
}

/// Whether no earlier item at the same place is signed.
pub open spec fn first_signed(items: Seq<ResponseItem>, at: Seq<int>, i: int) -> bool {
    forall|j: int| 0 <= j < i && at[j] == at[i] ==> signature_in(#[trigger] items[j]) is None
}

/// Whether messages carry the reasoning of the items of a conversation: each
/// reasoning item is in a message of the assistant, that of the next item that
/// takes reasoning or the last one where there is none; its pieces stand there,
/// in the order of the items; the message is signed with the first signature
/// that came with what it carries; and no other new message carries reasoning.
pub open spec fn reasoning_told(
    first: Seq<MessageView>,
    items: Seq<ResponseItem>,
    conversation: Seq<MessageView>,
    at: Seq<int>,
    blocks: Seq<Seq<char>>,
    spots: Seq<int>,
    roles_active: bool,
) -> bool {
    &&& at.len() == items.len()
    &&& forall|i: int|
        0 <= i < items.len() && (#[trigger] items[i]) is Reasoning ==> {
            &&& 0 <= at[i] < conversation.len()
            &&& conversation[at[i]].role == "assistant"@
            &&& conversation[at[i]].reasoning_content is Some
            &&& signed_whole(conversation[at[i]])
            &&& block_stands(
                items[i],
                conversation[at[i]].reasoning_content->Some_0,
                blocks[i],
                spots[i],
            )
            &&& signature_in(items[i]) is Some ==> conversation[at[i]].thinking is Some
        }
    &&& in_their_order(items, at, blocks, spots)
    &&& forall|i: int|
        0 <= i < items.len() && (#[trigger] items[i]) is Reasoning && signature_in(items[i]) is Some
            && first_signed(items, at, i) && (at[i] >= first.len() || first[at[i]].thinking is None)
            ==> conversation[at[i]].thinking is Some
            && conversation[at[i]].thinking->Some_0.signature == signature_in(items[i])
    &&& forall|i: int, j: int|
        #![trigger items[i], items[j]]
        0 <= i < j < items.len() && items[i] is Reasoning && takes(items[j], roles_active) ==> at[i]
            <= at[j]
    &&& forall|i: int|
        0 <= i < items.len() && (#[trigger] items[i]) is Reasoning ==> is_taken(
            items,
            at,
            i,
            roles_active,
        ) || at[i] == conversation.len() - 1
    &&& forall|k: int|
        first.len() <= k < conversation.len() ==> carries_none(#[trigger] conversation[k])
            || is_reasoned(items, at, k)
}

/// Whether messages close with one of the assistant that carries the reasoning
/// that no item took, and nothing else, where there is such reasoning.
pub open spec fn closes(
    items: Seq<ResponseItem>,
    messages: Seq<MessageView>,
    conversation: Seq<MessageView>,
    at: Seq<int>,
) -> bool {
    if exists|i: int|
        0 <= i < items.len() && (#[trigger] items[i]) is Reasoning && at[i] == messages.len() {
        &&& conversation.len() == messages.len() + 1
        &&& conversation.drop_last() == messages
        &&& conversation.last().role == "assistant"@
        &&& conversation.last().content is None
        &&& conversation.last().tool_call_id is None
        &&& conversation.last().name is None
        &&& conversation.last().tool_calls is None
    } else {
        conversation == messages
    }
}

/// Whether messages are those with which a conversation starts: the replayed
/// ones, or, where there are none, the instructions as a message of the system.
pub open spec fn starts(
    baseline: Seq<MessageView>,
    instructions: Seq<char>,
    first: Seq<MessageView>,
) -> bool {
    if baseline.len() == 0 && instructions.len() > 0 {
        &&& first.len() == 1
        &&& first[0].role == "system"@
        &&& first[0].content == Some(JsonTree::Text(instructions))
        &&& first[0].tool_call_id is None
        &&& first[0].name is None
        &&& first[0].reasoning_content is None
        &&& first[0].thinking is None
        &&& first[0].tool_calls is None
    } else {
        first == baseline
    }
}

/// Whether messages tell a conversation: they start with the replayed messages
/// or the instructions, show every item in its place, carry all reasoning, and
/// hold nothing else.
#[verifier::opaque]
pub open spec fn conversation_told(
    request: ResponsesRequest,
    baseline: Seq<MessageView>,
    roles_active: bool,
    conversation: Seq<MessageView>,
    at: Seq<int>,
) -> bool {
    exists|
        first: Seq<MessageView>,
        messages: Seq<MessageView>,
        blocks: Seq<Seq<char>>,
        spots: Seq<int>,
    |
        {
            &&& starts(baseline, request.instructions@, first)
            &&& #[trigger] items_told(
                first,
                request.input@,
                messages,
                at,
                roles_active,
                reach(baseline, roles_active),
            )
            &&& closes(request.input@, messages, conversation, at)
            &&& #[trigger] reasoning_told(
                first,
                request.input@,
                conversation,
                at,
                blocks,
                spots,
                roles_active,
            )
        }
}

pub(crate) proof fn conversation_is_told(
    request: ResponsesRequest,
    baseline: Seq<MessageView>,
    roles_active: bool,
) -> (at: Seq<int>)
    requires
        after_items(
            conversation_start(request, baseline),
            request.input@,
            roles_active,
            reach(baseline, roles_active),
        ) is Ok,
    ensures
        conversation_told(
            request,
            baseline,
            roles_active,
            flushed(
                after_items(
                    conversation_start(request, baseline),
                    request.input@,
                    roles_active,
                    reach(baseline, roles_active),
                )->Ok_0,
            ),
            at,
        ),
{
    let start = conversation_start(request, baseline);
    let items = request.input@;
    let floor = reach(baseline, roles_active);
    let state = after_items(start, items, roles_active, floor)->Ok_0;
    let places = items_are_told(start, items, roles_active, floor);
    let at = moved(items, places, state.messages.len() as int);
    moved_items_told(start.messages, items, state.messages, places, at, roles_active, floor);
    let (blocks, spots) = reasoning_is_told(start.messages, items, state, places, roles_active);
    assert(starts(baseline, request.instructions@, start.messages));
    reveal(conversation_told);
    at
}

proof fn moved_items_told(
    first: Seq<MessageView>,
    items: Seq<ResponseItem>,
    messages: Seq<MessageView>,
    places: Seq<int>,
    at: Seq<int>,
    roles_active: bool,
    floor: nat,
)
    requires
        items_told(first, items, messages, places, roles_active, floor),
        at.len() == items.len(),
        forall|i: int|
            0 <= i < items.len() && !((#[trigger] items[i]) is Reasoning) ==> at[i] == places[i],
    ensures
        items_told(first, items, messages, at, roles_active, floor),
{
    assert forall|k: int| first.len() <= k < messages.len() implies is_for_an_item(
        items,
        at,
        #[trigger] messages[k],
        k,
    ) by {
        assert(is_for_an_item(items, places, messages[k], k));
        let i = choose|i: int|
            {
                &&& 0 <= i < items.len()
                &&& opens(#[trigger] items[i]) || calls(items[i])
                &&& places[i] <= k <= end_of(items[i], places[i])
            };
        assert(at[i] == places[i]);
    }
    assert forall|i: int|
        0 <= i < items.len() && (opens(items[i]) || calls(items[i])) implies shows_item(
        #[trigger] items[i],
        messages,
        at[i],
        roles_active,
    ) by {
        assert(at[i] == places[i]);
    }
    assert forall|i: int| 0 <= i < items.len() implies within_reach(
        #[trigger] items[i],
        at[i],
        first.len() as int,
        floor as int,
    ) by {
        assert(within_reach(items[i], places[i], first.len() as int, floor as int));
    }
}

#[verifier::rlimit(40)]
proof fn reasoning_is_told(
    first: Seq<MessageView>,
    items: Seq<ResponseItem>,
    state: LoweringView,
    places: Seq<int>,
    roles_active: bool,
) -> (found: (Seq<Seq<char>>, Seq<int>))
    requires
        reasoning_kept(first, items, state, places, roles_active),
        first.len() <= state.messages.len(),
    ensures
        ({
            let at = moved(items, places, state.messages.len() as int);
            &&& reasoning_told(first, items, flushed(state), at, found.0, found.1, roles_active)
            &&& closes(items, state.messages, flushed(state), at)
        }),
{
    let messages = state.messages;
    let conversation = flushed(state);
    let n = messages.len() as int;
    let at = moved(items, places, n);
    assert forall|i: int| 0 <= i < items.len() && (#[trigger] items[i]) is Reasoning implies places[i]
        >= -1 by {
        assert(rests(messages, places[i]));
    }
    assert forall|k: int| 0 <= k < conversation.len() implies carried_reasoning(
        #[trigger] conversation[k],
    ) == reasoning_joined(base(first, k), held(items, at, k)) by {
        held_moved(items, places, n, k);
        if k < n {
            assert(conversation[k] == messages[k]);
        } else {
            assert forall|i: int| 0 <= i < items.len() && (
            #[trigger] items[i]) is Reasoning implies places[i] != n by {
                assert(rests(messages, places[i]));
            }
            held_none(items, places, n);
            no_reasoning_neutral(held(items, places, -1));
            crate::reasoning::chat_parts_carry(conversation[k], state.pending);
        }
    }
    if state.pending is Some {
        let i = choose|i: int|
            0 <= i < items.len() && (#[trigger] items[i]) is Reasoning && places[i] == -1;
        assert(at[i] == n);
        assert(conversation.drop_last() =~= messages);
    } else {
        assert forall|i: int| 0 <= i < items.len() && (#[trigger] items[i]) is Reasoning implies at[i]
            != n by {
            assert(rests(messages, places[i]));
        }
    }
    assert(closes(items, messages, conversation, at));
    let (blocks, offsets) = held_spots(items, at);
    let spots = Seq::new(
        items.len(),
        |i: int|
            offsets[i] + base(first, at[i]).text.len() + (if base(first, at[i]).text.len() > 0
                && held(items, at, at[i]).text.len() > 0 {
                2int
            } else {
                0int
            }),
    );
    assert forall|i: int| 0 <= i < items.len() && (#[trigger] items[i]) is Reasoning implies {
        &&& 0 <= at[i] < conversation.len()
        &&& conversation[at[i]].role == "assistant"@
        &&& conversation[at[i]].reasoning_content is Some
        &&& signed_whole(conversation[at[i]])
        &&& block_stands(
            items[i],
            conversation[at[i]].reasoning_content->Some_0,
            blocks[i],
            spots[i],
        )
        &&& signature_in(items[i]) is Some ==> conversation[at[i]].thinking is Some
        &&& signature_in(items[i]) is Some && first_signed(items, at, i) && (at[i] >= first.len()
            || first[at[i]].thinking is None) ==> conversation[at[i]].thinking->Some_0.signature
            == signature_in(items[i])
    } by {
        let k = at[i];
        assert(rests(messages, places[i]));
        if places[i] == -1 {
            assert(state.pending is Some);
        } else {
            assert(conversation[k] == messages[k]);
        }
        assert(carried_reasoning(conversation[k]) == reasoning_joined(
            base(first, k),
            held(items, at, k),
        ));
        let text = conversation[k].reasoning_content->Some_0;
        reasoning_joined_holds_both(base(first, k), held(items, at, k));
        assert(block_stands(items[i], held(items, at, k).text, blocks[i], offsets[i]));
        let offset = spots[i] - offsets[i];
        assert forall|m: int| 0 <= m < blocks[i].len() implies text[spots[i] + m]
            == #[trigger] blocks[i][m] by {
            assert(held(items, at, k).text[offsets[i] + m] == blocks[i][m]);
            assert(text[offset + (offsets[i] + m)] == held(items, at, k).text[offsets[i] + m]);
        }
        held_signature(items, at, k);
    }
    assert forall|i: int, j: int|
        #![trigger items[i], items[j]]
        0 <= i < j < items.len() && items[i] is Reasoning && takes(items[j], roles_active) implies at[i]
        <= at[j] by {
        assert(0 <= places[i] <= places[j]);
        assert(!(items[j] is Reasoning));
    }
    assert forall|i: int| 0 <= i < items.len() && (#[trigger] items[i]) is Reasoning implies is_taken(
        items,
        at,
        i,
        roles_active,
    ) || at[i] == conversation.len() - 1 by {
        assert(rests(messages, places[i]));
        if places[i] >= 0 {
            assert(is_taken(items, places, i, roles_active));
            let j = choose|j: int|
                i < j < items.len() && takes(#[trigger] items[j], roles_active) && places[j]
                    == places[i];
            assert(at[j] == at[i]);
        } else {
            assert(state.pending is Some);
        }
    }
    assert forall|k: int| first.len() <= k < conversation.len() implies carries_none(
        #[trigger] conversation[k],
    ) || is_reasoned(items, at, k) by {
        if k < n {
            assert(conversation[k] == messages[k]);
            if is_reasoned(items, places, k) {
                let i = choose|i: int|
                    0 <= i < items.len() && (#[trigger] items[i]) is Reasoning && places[i] == k;
                assert(items[i] is Reasoning && at[i] == k);
            }
        } else {
            let i = choose|i: int|
                0 <= i < items.len() && (#[trigger] items[i]) is Reasoning && places[i] == -1;
            assert(items[i] is Reasoning && at[i] == k);
        }
    }
    assert(in_their_order(items, at, blocks, spots)) by {
        assert forall|i: int, j: int|
            #![trigger items[i], items[j]]
            0 <= i < j < items.len() && items[i] is Reasoning && items[j] is Reasoning && at[i]
                == at[j] implies {
            &&& spots[i] + blocks[i].len() <= spots[j]
            &&& blocks[i].len() > 0 && blocks[j].len() > 0 ==> spots[i] + blocks[i].len()
                < spots[j]
        } by {
            assert(offsets[i] + blocks[i].len() <= offsets[j]);
        }
    }
    assert(reasoning_told(first, items, conversation, at, blocks, spots, roles_active));
    (blocks, spots)
}

pub(crate) open spec fn conversation_start(request: ResponsesRequest, baseline: Seq<MessageView>) -> LoweringView {
    LoweringView { messages: first_messages(baseline, request.instructions@), pending: None }
}

/// How many messages are out of the reach of tool calls: with a role policy, the
/// replayed ones.
pub open spec fn reach(baseline: Seq<MessageView>, roles_active: bool) -> nat {
    if roles_active {
        baseline.len()
    } else {
        0
    }
}

/// Whether messages of a turn come from a conversation: without a role policy
/// with the system messages at the front as one, and with a policy as it shapes
/// what is behind the replayed messages.
pub open spec fn comes_from(
    conversation: Seq<MessageView>,
    baseline: Seq<MessageView>,
    roles: Option<&RolesConfig>,
    messages: Seq<MessageView>,
) -> bool {
    match roles {
        None => exists|n: int| #[trigger] front_is_one(conversation, n, messages),
        Some(config) => {
            let count = baseline.len() as int;
            &&& conversation.len() >= count
            &&& messages.len() >= count
            &&& messages.take(count) == baseline
            &&& conversation.take(count) == baseline
            &&& role_shaped(conversation.skip(count), *config) == Ok::<
                Seq<MessageView>,
                Seq<char>,
            >(messages.skip(count))
        },
    }
}

/// The messages of a turn tell the conversation of its request: without a role
/// policy with the system messages at the front as one, and with a policy as it
/// shapes what is behind the replayed messages.
pub proof fn turn_tells_conversation(
    request: ResponsesRequest,
    baseline: Seq<MessageView>,
    image_agent_active: bool,
    roles: Option<&RolesConfig>,
)
    requires
        lowered_turn(request, baseline, image_agent_active, roles) is Ok,
    ensures
        ({
            let turn = lowered_turn(request, baseline, image_agent_active, roles)->Ok_0;
            exists|conversation: Seq<MessageView>, at: Seq<int>|
                {
                    &&& #[trigger] conversation_told(
                        request,
                        baseline,
                        roles is Some,
                        conversation,
                        at,
                    )
                    &&& comes_from(conversation, baseline, roles, turn.messages)
                }
        }),
{
    let roles_active = roles is Some;
    let turn = lowered_turn(request, baseline, image_agent_active, roles)->Ok_0;
    let start = conversation_start(request, baseline);
    let floor = reach(baseline, roles_active);
    let at = conversation_is_told(request, baseline, roles_active);
    let conversation = flushed(after_items(start, request.input@, roles_active, floor)->Ok_0);
    match roles {
        None => {
            hoisted_front_is_one(conversation);
            assert(floor == crate::lowering::floor_of(baseline, roles));
            assert(turn.messages == hoisted(conversation));
        },
        Some(config) => {
            let count = baseline.len() as int;
            after_items_keeps(start, request.input@, true, floor, baseline.len());
            let state = after_items(start, request.input@, true, floor)->Ok_0;
            assert(start.messages.take(count) =~= baseline);
            assert(conversation.take(count) =~= state.messages.take(count));
            assert(turn.messages.take(count) =~= baseline);
            assert(turn.messages.skip(count) =~= role_shaped(
                conversation.skip(count),
                *config,
            )->Ok_0);
        },
    }
    assert(comes_from(conversation, baseline, roles, turn.messages));
    assert(conversation_told(request, baseline, roles is Some, conversation, at));
}

proof fn shown_behind_front(
    conversation: Seq<MessageView>,
    n: int,
    messages: Seq<MessageView>,
    k: int,
)
    requires
        front_is_one(conversation, n, messages),
        0 <= k < conversation.len(),
        conversation[k].role != "system"@,
    ensures
        messages.contains(conversation[k]),
{
    let rest = conversation.skip(n);
    assert(k >= n);
    assert(rest[k - n] == conversation[k]);
    if messages == rest {
        assert(messages[k - n] == conversation[k]);
    } else {
        assert(messages.skip(1)[k - n] == messages[k - n + 1]);
    }
}

/// In a turn without a role policy, the output of every tool that the
/// conversation has is the content of a message with the role of a tool and the
/// id of the call: a text is there character for character, and any other value
/// as serialised.
pub proof fn turn_shows_tool_outputs(
    request: ResponsesRequest,
    baseline: Seq<MessageView>,
    image_agent_active: bool,
    i: int,
)
    requires
        lowered_turn(request, baseline, image_agent_active, None) is Ok,
        0 <= i < request.input@.len(),
    ensures
        ({
            let messages = lowered_turn(request, baseline, image_agent_active, None)->Ok_0.messages;
            match request.input@[i] {
                ResponseItem::FunctionCallOutput { call_id, output }
                | ResponseItem::CustomToolCallOutput { call_id, output, .. } => exists|k: int|
                    {
                        &&& 0 <= k < messages.len()
                        &&& (#[trigger] messages[k]).role == "tool"@
                        &&& messages[k].tool_call_id == Some(call_id@)
                        &&& match output@ {
                            JsonTree::Text(text) => messages[k].content == Some(
                                JsonTree::Text(text),
                            ),
                            other => messages[k].content == Some(
                                JsonTree::Text(serialized_text(other)),
                            ),
                        }
                    },
                _ => true,
            }
        }),
{
    reveal_strlit("system");
    reveal_strlit("tool");
    assert("system"@.len() == 6);
    assert("tool"@.len() == 4);
    let messages = lowered_turn(request, baseline, image_agent_active, None)->Ok_0.messages;
    let item = request.input@[i];
    if item is FunctionCallOutput || item is CustomToolCallOutput {
        let k = shown_item(request, baseline, image_agent_active, i);
        assert(messages[k].role == "tool"@);
    }
}

proof fn shown_item(
    request: ResponsesRequest,
    baseline: Seq<MessageView>,
    image_agent_active: bool,
    i: int,
) -> (k: int)
    requires
        lowered_turn(request, baseline, image_agent_active, None) is Ok,
        0 <= i < request.input@.len(),
        ({
            let item = request.input@[i];
            ||| item is FunctionCallOutput
            ||| item is CustomToolCallOutput
            ||| item is ToolSearchOutput
            ||| item is Message && shown_role(item->Message_role@, false) != "system"@
        }),
    ensures
        shows_item(
            request.input@[i],
            lowered_turn(request, baseline, image_agent_active, None)->Ok_0.messages,
            k,
            false,
        ),
{
    reveal_strlit("system");
    reveal_strlit("tool");
    reveal_strlit("assistant");
    assert("system"@.len() == 6);
    assert("tool"@.len() == 4);
    assert("assistant"@.len() == 9);
    let items = request.input@;
    let messages = lowered_turn(request, baseline, image_agent_active, None)->Ok_0.messages;
    turn_tells_conversation(request, baseline, image_agent_active, None);
    let (conversation, at) = choose|conversation: Seq<MessageView>, at: Seq<int>|
        {
            &&& #[trigger] conversation_told(request, baseline, false, conversation, at)
            &&& comes_from(conversation, baseline, None, messages)
        };
    let n = choose|n: int| #[trigger] front_is_one(conversation, n, messages);
    reveal(conversation_told);
    let (first, told, blocks, spots) = choose|
        first: Seq<MessageView>,
        told: Seq<MessageView>,
        blocks: Seq<Seq<char>>,
        spots: Seq<int>,
    |
        {
            &&& starts(baseline, request.instructions@, first)
            &&& #[trigger] items_told(first, items, told, at, false, reach(baseline, false))
            &&& closes(items, told, conversation, at)
            &&& #[trigger] reasoning_told(first, items, conversation, at, blocks, spots, false)
        };
    assert(shows_item(items[i], told, at[i], false));
    assert(conversation[at[i]] == told[at[i]]) by {
        if conversation != told {
            assert(conversation.drop_last()[at[i]] == conversation[at[i]]);
        }
    }
    shown_behind_front(conversation, n, messages, at[i]);
    let k = choose|k: int| 0 <= k < messages.len() && messages[k] == conversation[at[i]];
    assert(shows_item(items[i], messages, k, false));
    k
}

/// In a turn without a role policy, every message of the conversation that is
/// not one of the system is a message of the turn with its role and with every
/// piece of its content.
pub proof fn turn_shows_messages(
    request: ResponsesRequest,
    baseline: Seq<MessageView>,
    image_agent_active: bool,
    i: int,
)
    requires
        lowered_turn(request, baseline, image_agent_active, None) is Ok,
        0 <= i < request.input@.len(),
    ensures
        ({
            let messages = lowered_turn(request, baseline, image_agent_active, None)->Ok_0.messages;
            match request.input@[i] {
                ResponseItem::Message { id, role, content, phase } => role@ == "system"@ || role@
                    == "developer"@ || exists|k: int|
                    {
                        &&& 0 <= k < messages.len()
                        &&& (#[trigger] messages[k]).role == role@
                        &&& messages[k].content is Some
                        &&& content_shows(content@, messages[k].content->Some_0)
                    },
                _ => true,
            }
        }),
{
    let messages = lowered_turn(request, baseline, image_agent_active, None)->Ok_0.messages;
    if let ResponseItem::Message { id, role, content, phase } = request.input@[i] {
        if role@ != "system"@ && role@ != "developer"@ {
            let k = shown_item(request, baseline, image_agent_active, i);
            assert(messages[k].role == role@);
        }
    }
}

/// In a turn without a role policy, the reasoning of every reasoning item is on
/// a message of the assistant, which holds each piece of the summary and of the
/// content of the item, in their order; where the item is signed, the message
/// is.
pub proof fn turn_shows_reasoning(
    request: ResponsesRequest,
    baseline: Seq<MessageView>,
    image_agent_active: bool,
    i: int,
)
    requires
        lowered_turn(request, baseline, image_agent_active, None) is Ok,
        0 <= i < request.input@.len(),
        request.input@[i] is Reasoning,
    ensures
        ({
            let messages = lowered_turn(request, baseline, image_agent_active, None)->Ok_0.messages;
            exists|k: int, block: Seq<char>, spot: int|
                {
                    &&& 0 <= k < messages.len()
                    &&& messages[k].role == "assistant"@
                    &&& messages[k].reasoning_content is Some
                    &&& #[trigger] block_stands(
                        request.input@[i],
                        messages[k].reasoning_content->Some_0,
                        block,
                        spot,
                    )
                    &&& signature_in(request.input@[i]) is Some ==> messages[k].thinking is Some
                        && messages[k].thinking->Some_0.signature is Some
                }
        }),
{
    reveal_strlit("system");
    reveal_strlit("assistant");
    assert("system"@.len() == 6);
    assert("assistant"@.len() == 9);
    let items = request.input@;
    let messages = lowered_turn(request, baseline, image_agent_active, None)->Ok_0.messages;
    turn_tells_conversation(request, baseline, image_agent_active, None);
    let (conversation, at) = choose|conversation: Seq<MessageView>, at: Seq<int>|
        {
            &&& #[trigger] conversation_told(request, baseline, false, conversation, at)
            &&& comes_from(conversation, baseline, None, messages)
        };
    let n = choose|n: int| #[trigger] front_is_one(conversation, n, messages);
    reveal(conversation_told);
    let (first, told, blocks, spots) = choose|
        first: Seq<MessageView>,
        told: Seq<MessageView>,
        blocks: Seq<Seq<char>>,
        spots: Seq<int>,
    |
        {
            &&& starts(baseline, request.instructions@, first)
            &&& #[trigger] items_told(first, items, told, at, false, reach(baseline, false))
            &&& closes(items, told, conversation, at)
            &&& #[trigger] reasoning_told(first, items, conversation, at, blocks, spots, false)
        };
    assert(items[i] is Reasoning);
    shown_behind_front(conversation, n, messages, at[i]);
    let k = choose|k: int| 0 <= k < messages.len() && messages[k] == conversation[at[i]];
    assert(block_stands(
        items[i],
        messages[k].reasoning_content->Some_0,
        blocks[i],
        spots[i],
    ));
}

/// In a turn without a role policy, every tool call that an item of the
/// conversation makes is on a message of the assistant, with its id, its name
/// and its arguments.
pub proof fn turn_shows_calls(
    request: ResponsesRequest,
    baseline: Seq<MessageView>,
    image_agent_active: bool,
    i: int,
)
    requires
        lowered_turn(request, baseline, image_agent_active, None) is Ok,
        0 <= i < request.input@.len(),
    ensures
        ({
            let messages = lowered_turn(request, baseline, image_agent_active, None)->Ok_0.messages;
            match request.input@[i] {
                ResponseItem::FunctionCall { id, name, namespace, arguments, call_id } => {
                    &&& parsed_tree(arguments@) is Ok
                    &&& call_is_made(messages, call_id@, name@, parsed_tree(arguments@)->Ok_0)
                },
                ResponseItem::CustomToolCall { id, call_id, name, input } => exists|
                    arguments: JsonTree,
                |
                    {
                        &&& #[trigger] call_is_made(messages, call_id@, name@, arguments)
                        &&& has_field(arguments, "input"@, JsonTree::Text(input@))
                        &&& has_no_fields_but(arguments, set!["input"@])
                    },
                ResponseItem::ToolSearchCall { call_id, status, execution, arguments } =>
                    match call_id {
                        Some(call_id) => call_is_made(
                            messages,
                            call_id@,
                            "tool_search"@,
                            arguments@,
                        ),
                        None => call_is_made(
                            messages,
                            "tool_search_missing_call_id"@,
                            "tool_search"@,
                            arguments@,
                        ),
                    },
                ResponseItem::LocalShellCall { id, call_id, action } => match (id, call_id, action) {
                    (
                        _,
                        Some(call_id),
                        LocalShellAction::Exec(Ok(arguments)),
                    ) => call_is_made(messages, call_id@, "local_shell"@, arguments@),
                    (
                        Some(id),
                        None,
                        LocalShellAction::Exec(Ok(arguments)),
                    ) => call_is_made(messages, id@, "local_shell"@, arguments@),
                    _ => false,
                },
                ResponseItem::WebSearchCall { id, action } => exists|
                    call_id: Seq<char>,
                    arguments: JsonTree,
                |
                    {
                        &&& #[trigger] call_is_made(messages, call_id, "web_search"@, arguments)
                        &&& search_shows(action, arguments)
                        &&& id is Some ==> call_id == id->Some_0@
                    },
                _ => true,
            }
        }),
{
    reveal_strlit("system");
    reveal_strlit("assistant");
    assert("system"@.len() == 6);
    assert("assistant"@.len() == 9);
    let items = request.input@;
    let messages = lowered_turn(request, baseline, image_agent_active, None)->Ok_0.messages;
    if calls(items[i]) {
        turn_tells_conversation(request, baseline, image_agent_active, None);
        let (conversation, at) = choose|conversation: Seq<MessageView>, at: Seq<int>|
            {
                &&& #[trigger] conversation_told(request, baseline, false, conversation, at)
                &&& comes_from(conversation, baseline, None, messages)
            };
        let n = choose|n: int| #[trigger] front_is_one(conversation, n, messages);
        reveal(conversation_told);
        let (first, told, blocks, spots) = choose|
            first: Seq<MessageView>,
            told: Seq<MessageView>,
            blocks: Seq<Seq<char>>,
            spots: Seq<int>,
        |
            {
                &&& starts(baseline, request.instructions@, first)
                &&& #[trigger] items_told(first, items, told, at, false, reach(baseline, false))
                &&& closes(items, told, conversation, at)
                &&& #[trigger] reasoning_told(first, items, conversation, at, blocks, spots, false)
            };
        assert(shows_item(items[i], told, at[i], false));
        assert(conversation[at[i]] == told[at[i]]) by {
            if conversation != told {
                assert(conversation.drop_last()[at[i]] == conversation[at[i]]);
            }
        }
        let caller = told[at[i]];
        assert(caller.role == "assistant"@);
        shown_behind_front(conversation, n, messages, at[i]);
        let k = choose|k: int| 0 <= k < messages.len() && messages[k] == caller;
        assert forall|id: Seq<char>, name: Seq<char>, arguments: JsonTree| #[trigger] makes_call(
            caller,
            id,
            name,
            arguments,
        ) implies call_is_made(messages, id, name, arguments) by {
            assert(makes_call(messages[k], id, name, arguments));
        }
    }
}

/// Whether one of the messages makes a call.
pub open spec fn call_is_made(
    messages: Seq<MessageView>,
    id: Seq<char>,
    name: Seq<char>,
    arguments: JsonTree,
) -> bool {
    exists|k: int|
        0 <= k < messages.len() && makes_call(#[trigger] messages[k], id, name, arguments)
}

/// Whether messages end with the call of a web search and its result.
pub open spec fn is_replayed(
    messages: Seq<MessageView>,
    call_id: Seq<char>,
    action: Option<WebSearchAction>,
) -> bool {
    &&& messages.len() >= 2
    &&& is_result(messages.last(), Some(call_id), placeholder_text(action))
    &&& exists|arguments: JsonTree| #[trigger]
        makes_call(messages.drop_last().last(), call_id, "web_search"@, arguments)
            && search_shows(action, arguments)
}

/// A web search without an id is replayed under the number of messages before
/// it, and one with an id under that id; its call is the last but one message
/// and its result the last.
pub proof fn web_search_is_replayed(
    state: LoweringView,
    item: ResponseItem,
    roles_active: bool,
    merge_floor: nat,
)
    requires
        item is WebSearchCall,
    ensures
        after_item(state, item, roles_active, merge_floor) is Ok,
        ({
            let after = after_item(state, item, roles_active, merge_floor)->Ok_0.messages;
            match item {
                ResponseItem::WebSearchCall { id, action } => match id {
                    Some(id) => is_replayed(after, id@, action),
                    None => is_replayed(
                        after,
                        "web_search_missing_replay_"@ + decimal(state.messages.len()),
                        action,
                    ),
                },
                _ => false,
            }
        }),
{
    if let ResponseItem::WebSearchCall { id, action } = item {
        let call_id = crate::lowering::search_call_id(id, state.messages);
        let arguments = crate::web_search::search_arguments(action);
        search_arguments_show_action(action);
        with_tool_call_shows(
            state.messages,
            call_id,
            "web_search"@,
            arguments,
            state.pending,
            merge_floor,
        );
        let after = after_item(state, item, roles_active, merge_floor)->Ok_0.messages;
        assert(makes_call(after.drop_last().last(), call_id, "web_search"@, arguments));
        assert(is_replayed(after, call_id, action));
    }
}

} // verus!

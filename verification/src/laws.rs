//! What holds of every lowered turn.
use crate::chat::{MessageView, ToolCallView, ToolView};
use crate::codec::parsed_tree;
use crate::config::{role_rules, RoleRule, RolesConfig};
use crate::content::parsed_arguments;
use crate::json::JsonTree;
use crate::lowering::{
    after_item, after_items, after_items_keeps, block_signature, first_messages, floor_of, flushed,
    function_call, joins_last, lowered_messages, lowered_turn, reasoning_level, search_call_id,
    with_call, with_tool_call, LoweringView, TurnView,
};
use crate::messages::{hoisted, role_run, role_run_extent};
use crate::reasoning::{
    all_reasoning, all_reasoning_of_parts, carried_reasoning, chat_parts_carry, no_reasoning,
    no_reasoning_neutral, reasoning_block_text, reasoning_joined, reasoning_joined_associative,
    reasoning_or_none, ReasoningView,
};
use crate::responses::{LocalShellAction, ResponseItem, ResponsesRequest};
use crate::roles::{
    applying_rule, merged_runs, message_calls, numbered, role_shaped, role_shaped_keeps,
    rule_applies, run_calls, run_calls_of_parts, shaped, shaped_message, unnumbered,
};
use crate::text::{
    lowercased, lowercased_idempotent, texts, trimmed, trimmed_end, trimmed_idempotent,
    trimmed_start, white_space,
};
use crate::tools::{
    chat_tools, image_agent_keeps_names, in_name_order, kinds_match_tools, registered_names,
    sorted_tools_in_order, sorted_tools_stable, tool_kinds, tools_named,
};
use crate::web_search::search_arguments;
use vstd::prelude::*;

pub mod conversation;
pub mod offers;
pub mod outcome;
pub mod policy;
pub mod texts;
pub mod values;

verus! {

/// A role policy leaves the replayed messages as they are.
pub proof fn replayed_messages_unchanged(
    request: ResponsesRequest,
    baseline: Seq<MessageView>,
    image_agent_active: bool,
    config: &RolesConfig,
)
    requires
        lowered_turn(request, baseline, image_agent_active, Some(config)) is Ok,
    ensures
        ({
            let turn = lowered_turn(request, baseline, image_agent_active, Some(config))->Ok_0;
            &&& turn.messages.len() >= baseline.len()
            &&& turn.messages.take(baseline.len() as int) == baseline
        }),
{
    let count = baseline.len();
    let start = LoweringView {
        messages: first_messages(baseline, request.instructions@),
        pending: None,
    };
    after_items_keeps(start, request.input@, true, count, count);
    let state = after_items(start, request.input@, true, count)->Ok_0;
    let all = flushed(state);
    let turn = lowered_turn(request, baseline, image_agent_active, Some(config))->Ok_0;
    assert(turn.messages.take(count as int) =~= all.take(count as int));
    assert(all.take(count as int) =~= state.messages.take(count as int));
    assert(start.messages.take(count as int) =~= baseline);
}

/// The image agent decides who runs a tool and nothing else: with and without
/// it the same requests are refused, for the same reason, and the turns have
/// the same messages, the same tools under the same names, and the same
/// settings.
pub proof fn image_agent_decides_kinds_only(
    request: ResponsesRequest,
    baseline: Seq<MessageView>,
    roles: Option<&RolesConfig>,
)
    ensures
        match (
            lowered_turn(request, baseline, true, roles),
            lowered_turn(request, baseline, false, roles),
        ) {
            (Ok(active), Ok(inactive)) => {
                &&& active.tool_registry.dom() == inactive.tool_registry.dom()
                &&& active == TurnView { tool_registry: active.tool_registry, ..inactive }
            },
            (Err(active), Err(inactive)) => active == inactive,
            _ => false,
        },
{
    image_agent_keeps_names(request.tools@);
}

/// A level of reasoning that was normalised stays as it is.
pub proof fn reasoning_level_idempotent(effort: Option<Seq<char>>)
    ensures
        reasoning_level(reasoning_level(effort)) == reasoning_level(effort),
{
    if let Some(effort) = effort {
        let core = trimmed(effort);
        if core.len() > 0 {
            trimmed_idempotent(effort);
            lowercased_trimmed(core);
            lowercased_idempotent(core);
        }
    }
}

proof fn lowercased_trimmed(text: Seq<char>)
    ensures
        trimmed(lowercased(text)) == lowercased(trimmed(text)),
{
    lowercased_trimmed_start(text);
    lowercased_trimmed_end(trimmed_start(text));
}

proof fn lowercased_trimmed_start(text: Seq<char>)
    ensures
        trimmed_start(lowercased(text)) == lowercased(trimmed_start(text)),
    decreases text.len(),
{
    if text.len() > 0 && white_space(text[0]) {
        lowercased_trimmed_start(text.drop_first());
        assert(lowercased(text).drop_first() =~= lowercased(text.drop_first()));
    }
}

proof fn lowercased_trimmed_end(text: Seq<char>)
    ensures
        trimmed_end(lowercased(text)) == lowercased(trimmed_end(text)),
    decreases text.len(),
{
    if text.len() > 0 && white_space(text.last()) {
        lowercased_trimmed_end(text.drop_last());
        assert(lowercased(text).drop_last() =~= lowercased(text.drop_last()));
    }
}

/// The reasoning of a state: that of its messages, then that which waits.
pub open spec fn state_reasoning(state: LoweringView) -> ReasoningView {
    reasoning_joined(all_reasoning(state.messages), reasoning_or_none(state.pending))
}

/// The reasoning that an item of the conversation brings.
pub open spec fn item_reasoning(item: ResponseItem) -> ReasoningView {
    match item {
        ResponseItem::Reasoning { id, summary, content, encrypted_content } => ReasoningView {
            text: reasoning_block_text(summary@, content),
            signature: block_signature(encrypted_content),
        },
        _ => no_reasoning(),
    }
}

/// The reasoning that items of the conversation bring, as one block.
pub open spec fn items_reasoning(items: Seq<ResponseItem>) -> ReasoningView
    decreases items.len(),
{
    if items.len() == 0 {
        no_reasoning()
    } else {
        reasoning_joined(items_reasoning(items.drop_last()), item_reasoning(items.last()))
    }
}

proof fn all_reasoning_push(messages: Seq<MessageView>, message: MessageView)
    ensures
        all_reasoning(messages.push(message)) == reasoning_joined(
            all_reasoning(messages),
            carried_reasoning(message),
        ),
{
    assert(messages.push(message).drop_last() =~= messages);
}

proof fn with_tool_call_keeps_reasoning(
    messages: Seq<MessageView>,
    call_id: Seq<char>,
    name: Seq<char>,
    arguments: JsonTree,
    pending: Option<ReasoningView>,
    merge_floor: nat,
)
    ensures
        all_reasoning(
            with_tool_call(messages, call_id, name, arguments, pending, merge_floor),
        ) == reasoning_joined(all_reasoning(messages), reasoning_or_none(pending)),
{
    let after = with_tool_call(messages, call_id, name, arguments, pending, merge_floor);
    if joins_last(messages, merge_floor) {
        let rest = messages.drop_last();
        let last = messages.last();
        let joined_last = with_call(last, call_id, name, arguments, pending);
        all_reasoning_push(rest, joined_last);
        no_reasoning_neutral(carried_reasoning(last));
        match pending {
            Some(reasoning) => {
                chat_parts_carry(
                    joined_last,
                    Some(reasoning_joined(carried_reasoning(last), reasoning)),
                );
            },
            None => {
                assert(carried_reasoning(joined_last) =~= carried_reasoning(last));
            },
        }
        reasoning_joined_associative(
            all_reasoning(rest),
            carried_reasoning(last),
            reasoning_or_none(pending),
        );
    } else {
        all_reasoning_push(messages, after.last());
        chat_parts_carry(after.last(), pending);
    }
}

/// An item of the conversation loses no reasoning: what it brings follows what
/// was there.
pub proof fn after_item_keeps_reasoning(
    state: LoweringView,
    item: ResponseItem,
    roles_active: bool,
    merge_floor: nat,
)
    requires
        after_item(state, item, roles_active, merge_floor) is Ok,
    ensures
        state_reasoning(after_item(state, item, roles_active, merge_floor)->Ok_0)
            == reasoning_joined(state_reasoning(state), item_reasoning(item)),
{
    let after = after_item(state, item, roles_active, merge_floor)->Ok_0;
    let before = all_reasoning(state.messages);
    let waiting = reasoning_or_none(state.pending);
    no_reasoning_neutral(state_reasoning(state));
    no_reasoning_neutral(before);
    no_reasoning_neutral(waiting);
    no_reasoning_neutral(all_reasoning(after.messages));
    no_reasoning_neutral(item_reasoning(item));
    match item {
        ResponseItem::Message { id, role, content, phase } => {
            let message = after.messages.last();
            all_reasoning_push(state.messages, message);
            if after.pending is None && message.role == "assistant"@ {
                chat_parts_carry(message, state.pending);
            } else {
                assert(carried_reasoning(message) =~= no_reasoning());
            }
        },
        ResponseItem::Reasoning { id, summary, content, encrypted_content } => {
            reasoning_joined_associative(before, waiting, item_reasoning(item));
        },
        ResponseItem::FunctionCall { id, name, namespace, arguments, call_id } => {
            with_tool_call_keeps_reasoning(
                state.messages,
                call_id@,
                name@,
                parsed_arguments(parsed_tree(arguments@))->Ok_0,
                state.pending,
                merge_floor,
            );
        },
        ResponseItem::CustomToolCall { id, call_id, name, input } => {
            with_tool_call_keeps_reasoning(
                state.messages,
                call_id@,
                name@,
                JsonTree::Object(map!["input"@ => JsonTree::Text(input@)]),
                state.pending,
                merge_floor,
            );
        },
        ResponseItem::ToolSearchCall { call_id, status, execution, arguments } => {
            with_tool_call_keeps_reasoning(
                state.messages,
                match call_id {
                    Some(call_id) => call_id@,
                    None => "tool_search_missing_call_id"@,
                },
                "tool_search"@,
                arguments@,
                state.pending,
                merge_floor,
            );
        },
        ResponseItem::LocalShellCall { id, call_id, action } => {
            let call = match call_id {
                Some(call_id) => call_id@,
                None => id->Some_0@,
            };
            if let LocalShellAction::Exec(Ok(arguments)) = action {
                with_tool_call_keeps_reasoning(
                    state.messages,
                    call,
                    "local_shell"@,
                    arguments@,
                    state.pending,
                    merge_floor,
                );
            }
        },
        ResponseItem::WebSearchCall { id, action } => {
            with_tool_call_keeps_reasoning(
                state.messages,
                search_call_id(id, state.messages),
                "web_search"@,
                search_arguments(action),
                state.pending,
                merge_floor,
            );
            let result = after.messages.last();
            all_reasoning_push(after.messages.drop_last(), result);
            assert(after.messages =~= after.messages.drop_last().push(result));
            no_reasoning_neutral(all_reasoning(after.messages.drop_last()));
            assert(carried_reasoning(result) =~= no_reasoning());
            assert(after.messages.drop_last() =~= with_tool_call(
                state.messages,
                search_call_id(id, state.messages),
                "web_search"@,
                search_arguments(action),
                state.pending,
                merge_floor,
            ));
        },
        ResponseItem::ImageGenerationCall { id } => {},
        _ => {
            let message = after.messages.last();
            all_reasoning_push(state.messages, message);
            assert(carried_reasoning(message) =~= no_reasoning());
        },
    }
}

/// A conversation loses no reasoning: the messages and what still waits carry
/// all of it, in its order.
pub proof fn after_items_keep_reasoning(
    start: LoweringView,
    items: Seq<ResponseItem>,
    roles_active: bool,
    merge_floor: nat,
)
    requires
        after_items(start, items, roles_active, merge_floor) is Ok,
    ensures
        state_reasoning(after_items(start, items, roles_active, merge_floor)->Ok_0)
            == reasoning_joined(state_reasoning(start), items_reasoning(items)),
    decreases items.len(),
{
    if items.len() == 0 {
        no_reasoning_neutral(state_reasoning(start));
    } else {
        after_items_keep_reasoning(start, items.drop_last(), roles_active, merge_floor);
        let before = after_items(start, items.drop_last(), roles_active, merge_floor)->Ok_0;
        after_item_keeps_reasoning(before, items.last(), roles_active, merge_floor);
        reasoning_joined_associative(
            state_reasoning(start),
            items_reasoning(items.drop_last()),
            item_reasoning(items.last()),
        );
    }
}

proof fn flushed_keeps_reasoning(state: LoweringView)
    ensures
        all_reasoning(flushed(state)) == state_reasoning(state),
{
    no_reasoning_neutral(all_reasoning(state.messages));
    if state.pending is Some {
        all_reasoning_push(state.messages, flushed(state).last());
        chat_parts_carry(flushed(state).last(), state.pending);
    }
}

/// Whether a message is one of the system messages at the front.
pub open spec fn in_system_front(messages: Seq<MessageView>, i: int) -> bool {
    &&& 0 <= i < messages.len()
    &&& forall|j: int| 0 <= j <= i ==> (#[trigger] messages[j]).role == "system"@
}

/// Whether the system messages at the front carry no reasoning.
pub open spec fn front_carries_no_reasoning(messages: Seq<MessageView>) -> bool {
    forall|i: int| #[trigger]
        in_system_front(messages, i) ==> carried_reasoning(messages[i]) == no_reasoning()
}

/// Whether the system messages at the front carry no tool calls.
pub open spec fn front_carries_no_calls(messages: Seq<MessageView>) -> bool {
    forall|i: int| #[trigger]
        in_system_front(messages, i) ==> message_calls(messages[i]).len() == 0
}

/// Whether messages go on from others: these keep their roles, and the system
/// messages among them stay as they are; new system messages carry neither
/// reasoning nor calls.
spec fn continues(baseline: Seq<MessageView>, messages: Seq<MessageView>) -> bool {
    &&& messages.len() >= baseline.len()
    &&& forall|i: int|
        0 <= i < baseline.len() ==> {
            &&& (#[trigger] messages[i]).role == baseline[i].role
            &&& messages[i].role == "system"@ ==> messages[i] == baseline[i]
        }
    &&& forall|i: int|
        baseline.len() <= i < messages.len() && (#[trigger] messages[i]).role == "system"@ ==> {
            &&& carried_reasoning(messages[i]) == no_reasoning()
            &&& message_calls(messages[i]).len() == 0
        }
}

proof fn after_items_continue(
    baseline: Seq<MessageView>,
    start: LoweringView,
    items: Seq<ResponseItem>,
    roles_active: bool,
    merge_floor: nat,
)
    requires
        continues(baseline, start.messages),
        after_items(start, items, roles_active, merge_floor) is Ok,
    ensures
        continues(baseline, after_items(start, items, roles_active, merge_floor)->Ok_0.messages),
    decreases items.len(),
{
    if items.len() > 0 {
        after_items_continue(baseline, start, items.drop_last(), roles_active, merge_floor);
        reveal_strlit("assistant");
        reveal_strlit("system");
        assert("assistant"@.len() != "system"@.len());
    }
}

proof fn front_of_continued(baseline: Seq<MessageView>, messages: Seq<MessageView>)
    requires
        continues(baseline, messages),
    ensures
        front_carries_no_reasoning(baseline) ==> front_carries_no_reasoning(messages),
        front_carries_no_calls(baseline) ==> front_carries_no_calls(messages),
{
    assert forall|i: int| #[trigger] in_system_front(messages, i) && i < baseline.len() implies
        in_system_front(baseline, i) && messages[i] == baseline[i] by {
        assert forall|j: int| 0 <= j <= i implies (#[trigger] baseline[j]).role == "system"@ by {
            assert(messages[j].role == baseline[j].role);
        }
        assert(messages[i].role == "system"@);
    }
    assert forall|i: int| #[trigger] in_system_front(messages, i) implies messages[i].role
        == "system"@ by {}
}

proof fn system_front_is_run(messages: Seq<MessageView>)
    ensures
        forall|i: int|
            0 <= i < role_run(messages, "system"@) ==> #[trigger] in_system_front(messages, i),
{
    role_run_extent(messages, "system"@);
}

proof fn silent_run(messages: Seq<MessageView>)
    requires
        forall|i: int|
            0 <= i < messages.len() ==> carried_reasoning(#[trigger] messages[i])
                == no_reasoning(),
    ensures
        all_reasoning(messages) == no_reasoning(),
    decreases messages.len(),
{
    if messages.len() > 0 {
        silent_run(messages.drop_last());
        no_reasoning_neutral(no_reasoning());
    }
}

/// Joining the system messages at the front loses no reasoning, where they
/// carry none.
pub proof fn hoisted_keeps_reasoning(messages: Seq<MessageView>)
    requires
        front_carries_no_reasoning(messages),
    ensures
        all_reasoning(hoisted(messages)) == all_reasoning(messages),
{
    let len = role_run(messages, "system"@) as int;
    role_run_extent(messages, "system"@);
    if len > 0 {
        let front = messages.take(len);
        let rest = messages.skip(len);
        assert(front + rest =~= messages);
        all_reasoning_of_parts(front, rest);
        system_front_is_run(messages);
        assert forall|i: int| 0 <= i < front.len() implies carried_reasoning(#[trigger] front[i])
            == no_reasoning() by {
            assert(in_system_front(messages, i));
        }
        silent_run(front);
        no_reasoning_neutral(all_reasoning(rest));
        if hoisted(messages).len() > rest.len() {
            let first = seq![hoisted(messages)[0]];
            assert(hoisted(messages) =~= first + rest);
            all_reasoning_of_parts(first, rest);
            silent_run(first);
        }
    }
}

/// A turn without a role policy loses no reasoning, where the system messages
/// at the front of the replayed ones carry none: its messages carry that of the
/// replayed messages, then that of the conversation.
pub proof fn turn_keeps_reasoning(
    request: ResponsesRequest,
    baseline: Seq<MessageView>,
    image_agent_active: bool,
)
    requires
        front_carries_no_reasoning(baseline),
        lowered_turn(request, baseline, image_agent_active, None) is Ok,
    ensures
        all_reasoning(lowered_turn(request, baseline, image_agent_active, None)->Ok_0.messages)
            == reasoning_joined(all_reasoning(baseline), items_reasoning(request.input@)),
{
    let start = LoweringView {
        messages: first_messages(baseline, request.instructions@),
        pending: None,
    };
    let state = after_items(start, request.input@, false, 0)->Ok_0;
    assert(all_reasoning(start.messages) == all_reasoning(baseline)) by {
        if start.messages != baseline {
            silent_run(start.messages);
        }
    }
    no_reasoning_neutral(all_reasoning(baseline));
    after_items_keep_reasoning(start, request.input@, false, 0);
    flushed_keeps_reasoning(state);
    flushed_continues(request, baseline);
    front_of_continued(baseline, flushed(state));
    hoisted_keeps_reasoning(flushed(state));
}

proof fn flushed_continues(request: ResponsesRequest, baseline: Seq<MessageView>)
    requires
        lowered_messages(request, baseline, None) is Ok,
    ensures
        ({
            let start = LoweringView {
                messages: first_messages(baseline, request.instructions@),
                pending: None,
            };
            continues(baseline, flushed(after_items(start, request.input@, false, 0)->Ok_0))
        }),
{
    let start = LoweringView {
        messages: first_messages(baseline, request.instructions@),
        pending: None,
    };
    after_items_continue(baseline, start, request.input@, false, 0);
    reveal_strlit("assistant");
    reveal_strlit("system");
    assert("assistant"@.len() != "system"@.len());
}

/// Whether the tool calls of a message are numbered from zero.
pub open spec fn calls_numbered(message: MessageView) -> bool {
    message_calls(message) == numbered(message_calls(message))
}

/// Whether the tool calls of every message are numbered from zero.
pub open spec fn all_numbered(messages: Seq<MessageView>) -> bool {
    forall|i: int| 0 <= i < messages.len() ==> calls_numbered(#[trigger] messages[i])
}

/// Whether only the assistant calls tools.
pub open spec fn assistant_calls(messages: Seq<MessageView>) -> bool {
    forall|i: int|
        0 <= i < messages.len() && message_calls(#[trigger] messages[i]).len() > 0
            ==> messages[i].role == "assistant"@
}

proof fn with_tool_call_numbered(
    messages: Seq<MessageView>,
    call_id: Seq<char>,
    name: Seq<char>,
    arguments: JsonTree,
    pending: Option<ReasoningView>,
    merge_floor: nat,
)
    requires
        all_numbered(messages),
    ensures
        all_numbered(with_tool_call(messages, call_id, name, arguments, pending, merge_floor)),
{
    let after = with_tool_call(messages, call_id, name, arguments, pending, merge_floor);
    let last = message_calls(after.last());
    assert forall|i: int| 0 <= i < last.len() implies #[trigger] last[i] == numbered(last)[i] by {
        if joins_last(messages, merge_floor) {
            let earlier = message_calls(messages.last());
            assert(calls_numbered(messages[messages.len() - 1]));
            if i < earlier.len() {
                assert(earlier[i] == numbered(earlier)[i]);
            }
        }
    }
    assert(last =~= numbered(last));
    assert forall|i: int| 0 <= i < after.len() implies calls_numbered(#[trigger] after[i]) by {
        if i < after.len() - 1 {
            assert(after[i] == messages[i]);
        }
    }
}

proof fn after_item_numbered(
    state: LoweringView,
    item: ResponseItem,
    roles_active: bool,
    merge_floor: nat,
)
    requires
        all_numbered(state.messages),
        after_item(state, item, roles_active, merge_floor) is Ok,
    ensures
        all_numbered(after_item(state, item, roles_active, merge_floor)->Ok_0.messages),
{
    assert forall|call_id: Seq<char>, name: Seq<char>, arguments: JsonTree| all_numbered(
        #[trigger] with_tool_call(
            state.messages,
            call_id,
            name,
            arguments,
            state.pending,
            merge_floor,
        ),
    ) by {
        with_tool_call_numbered(
            state.messages,
            call_id,
            name,
            arguments,
            state.pending,
            merge_floor,
        );
    }
    assert(Seq::<ToolCallView>::empty() =~= numbered(Seq::empty()));
}

/// The tool calls of each message stay numbered from zero over a conversation.
pub proof fn after_items_numbered(
    start: LoweringView,
    items: Seq<ResponseItem>,
    roles_active: bool,
    merge_floor: nat,
)
    requires
        all_numbered(start.messages),
        after_items(start, items, roles_active, merge_floor) is Ok,
    ensures
        all_numbered(after_items(start, items, roles_active, merge_floor)->Ok_0.messages),
    decreases items.len(),
{
    if items.len() > 0 {
        after_items_numbered(start, items.drop_last(), roles_active, merge_floor);
        let before = after_items(start, items.drop_last(), roles_active, merge_floor)->Ok_0;
        after_item_numbered(before, items.last(), roles_active, merge_floor);
    }
}

proof fn shaped_numbered(messages: Seq<MessageView>, config: RolesConfig)
    requires
        all_numbered(messages),
        shaped(messages, config) is Ok,
    ensures
        all_numbered(shaped(messages, config)->Ok_0),
    decreases messages.len(),
{
    if messages.len() > 0 {
        shaped_numbered(messages.drop_last(), config);
        assert(calls_numbered(messages[messages.len() - 1]));
    }
}

proof fn merged_runs_numbered(messages: Seq<MessageView>, roles: Seq<Seq<char>>)
    requires
        all_numbered(messages),
    ensures
        all_numbered(merged_runs(messages, roles)),
    decreases messages.len(),
{
    if messages.len() > 0 {
        let role = messages[0].role;
        role_run_extent(messages, role);
        let len = if roles.contains(role) {
            role_run(messages, role) as int
        } else {
            1
        };
        let rest = messages.skip(len);
        assert forall|i: int| 0 <= i < rest.len() implies calls_numbered(#[trigger] rest[i]) by {
            assert(rest[i] == messages[len + i]);
        }
        merged_runs_numbered(rest, roles);
        let result = merged_runs(messages, roles);
        let after = merged_runs(rest, roles);
        let offset = result.len() - after.len();
        let calls = run_calls(messages.take(len));
        assert(numbered(calls) =~= numbered(numbered(calls)));
        assert(Seq::<ToolCallView>::empty() =~= numbered(Seq::empty()));
        assert forall|i: int| 0 <= i < result.len() implies calls_numbered(
            #[trigger] result[i],
        ) by {
            if i >= offset {
                assert(result[i] == after[i - offset]);
            } else {
                assert(calls_numbered(messages[0]));
            }
        }
    }
}

/// In a turn the tool calls of each message are numbered from zero, with and
/// without a role policy, where those of the replayed messages are.
pub proof fn turn_calls_numbered(
    request: ResponsesRequest,
    baseline: Seq<MessageView>,
    image_agent_active: bool,
    roles: Option<&RolesConfig>,
)
    requires
        all_numbered(baseline),
        lowered_turn(request, baseline, image_agent_active, roles) is Ok,
    ensures
        all_numbered(lowered_turn(request, baseline, image_agent_active, roles)->Ok_0.messages),
{
    let start = LoweringView {
        messages: first_messages(baseline, request.instructions@),
        pending: None,
    };
    let floor = floor_of(baseline, roles);
    assert(Seq::<ToolCallView>::empty() =~= numbered(Seq::empty()));
    assert(all_numbered(start.messages));
    after_items_numbered(start, request.input@, roles is Some, floor);
    let state = after_items(start, request.input@, roles is Some, floor)->Ok_0;
    let all = flushed(state);
    assert(all_numbered(all));
    match roles {
        Some(config) => {
            let count = baseline.len() as int;
            after_items_keeps(start, request.input@, true, floor, baseline.len());
            let tail = all.skip(count);
            assert forall|i: int| 0 <= i < tail.len() implies calls_numbered(
                #[trigger] tail[i],
            ) by {
                assert(tail[i] == all[count + i]);
            }
            shaped_numbered(tail, *config);
            merged_runs_numbered(shaped(tail, *config)->Ok_0, texts(config.merge_adjacent@));
        },
        None => {
            role_run_extent(all, "system"@);
        },
    }
}

/// The tool call that an item of the conversation makes, without its number.
pub open spec fn item_calls(item: ResponseItem, messages: Seq<MessageView>) -> Seq<ToolCallView> {
    match item {
        ResponseItem::FunctionCall { id, name, namespace, arguments, call_id } => one_call(
            call_id@,
            name@,
            parsed_arguments(parsed_tree(arguments@))->Ok_0,
        ),
        ResponseItem::CustomToolCall { id, call_id, name, input } => one_call(
            call_id@,
            name@,
            JsonTree::Object(map!["input"@ => JsonTree::Text(input@)]),
        ),
        ResponseItem::ToolSearchCall { call_id, status, execution, arguments } => one_call(
            match call_id {
                Some(call_id) => call_id@,
                None => "tool_search_missing_call_id"@,
            },
            "tool_search"@,
            arguments@,
        ),
        ResponseItem::LocalShellCall { id, call_id, action } => one_call(
            match call_id {
                Some(call_id) => call_id@,
                None => id->Some_0@,
            },
            "local_shell"@,
            action->Exec_0->Ok_0@,
        ),
        ResponseItem::WebSearchCall { id, action } => one_call(
            search_call_id(id, messages),
            "web_search"@,
            search_arguments(action),
        ),
        _ => Seq::empty(),
    }
}

/// One call of a function, without its number.
pub open spec fn one_call(
    call_id: Seq<char>,
    name: Seq<char>,
    arguments: JsonTree,
) -> Seq<ToolCallView> {
    seq![ToolCallView { index: None, ..function_call(call_id, name, arguments, 0) }]
}

/// The tool calls that items of the conversation make, without their numbers.
pub open spec fn items_calls(
    start: LoweringView,
    items: Seq<ResponseItem>,
    roles_active: bool,
    merge_floor: nat,
) -> Seq<ToolCallView>
    decreases items.len(),
{
    if items.len() == 0 {
        Seq::empty()
    } else {
        let before = after_items(start, items.drop_last(), roles_active, merge_floor)->Ok_0;
        items_calls(start, items.drop_last(), roles_active, merge_floor) + item_calls(
            items.last(),
            before.messages,
        )
    }
}

proof fn run_calls_push(messages: Seq<MessageView>, message: MessageView)
    ensures
        run_calls(messages.push(message)) == run_calls(messages) + message_calls(message),
{
    assert(messages.push(message).drop_last() =~= messages);
}

proof fn with_tool_call_adds_call(
    messages: Seq<MessageView>,
    call_id: Seq<char>,
    name: Seq<char>,
    arguments: JsonTree,
    pending: Option<ReasoningView>,
    merge_floor: nat,
)
    ensures
        unnumbered(
            run_calls(with_tool_call(messages, call_id, name, arguments, pending, merge_floor)),
        ) == unnumbered(run_calls(messages)) + one_call(call_id, name, arguments),
{
    let after = with_tool_call(messages, call_id, name, arguments, pending, merge_floor);
    run_calls_push(after.drop_last(), after.last());
    assert(after.drop_last().push(after.last()) =~= after);
    if joins_last(messages, merge_floor) {
        assert(after.drop_last() =~= messages.drop_last());
    } else {
        assert(after.drop_last() =~= messages);
    }
    assert(unnumbered(run_calls(after)) =~= unnumbered(run_calls(messages)) + one_call(
        call_id,
        name,
        arguments,
    ));
}

/// An item of the conversation loses no tool call: the one that it makes, where
/// it makes one, follows those that were there.
pub proof fn after_item_keeps_calls(
    state: LoweringView,
    item: ResponseItem,
    roles_active: bool,
    merge_floor: nat,
)
    requires
        after_item(state, item, roles_active, merge_floor) is Ok,
    ensures
        unnumbered(run_calls(after_item(state, item, roles_active, merge_floor)->Ok_0.messages))
            == unnumbered(run_calls(state.messages)) + item_calls(item, state.messages),
{
    let after = after_item(state, item, roles_active, merge_floor)->Ok_0.messages;
    assert forall|call_id: Seq<char>, name: Seq<char>, arguments: JsonTree| unnumbered(
        run_calls(
            #[trigger] with_tool_call(
                state.messages,
                call_id,
                name,
                arguments,
                state.pending,
                merge_floor,
            ),
        ),
    ) == unnumbered(run_calls(state.messages)) + one_call(call_id, name, arguments) by {
        with_tool_call_adds_call(
            state.messages,
            call_id,
            name,
            arguments,
            state.pending,
            merge_floor,
        );
    }
    assert forall|messages: Seq<MessageView>, message: MessageView|
        message_calls(message).len() == 0 implies run_calls(#[trigger] messages.push(message))
        == run_calls(messages) by {
        run_calls_push(messages, message);
        assert(run_calls(messages) + message_calls(message) =~= run_calls(messages));
    }
    if item_calls(item, state.messages).len() == 0 {
        assert(unnumbered(run_calls(state.messages)) + item_calls(item, state.messages)
            =~= unnumbered(run_calls(state.messages)));
    }
}

/// A conversation loses no tool call: those that it makes follow those that
/// were there, in their order.
pub proof fn after_items_keep_calls(
    start: LoweringView,
    items: Seq<ResponseItem>,
    roles_active: bool,
    merge_floor: nat,
)
    requires
        after_items(start, items, roles_active, merge_floor) is Ok,
    ensures
        unnumbered(run_calls(after_items(start, items, roles_active, merge_floor)->Ok_0.messages))
            == unnumbered(run_calls(start.messages)) + items_calls(
            start,
            items,
            roles_active,
            merge_floor,
        ),
    decreases items.len(),
{
    if items.len() > 0 {
        after_items_keep_calls(start, items.drop_last(), roles_active, merge_floor);
        let before = after_items(start, items.drop_last(), roles_active, merge_floor)->Ok_0;
        after_item_keeps_calls(before, items.last(), roles_active, merge_floor);
    }
}

proof fn after_items_assistant_calls(
    start: LoweringView,
    items: Seq<ResponseItem>,
    roles_active: bool,
    merge_floor: nat,
)
    requires
        assistant_calls(start.messages),
        after_items(start, items, roles_active, merge_floor) is Ok,
    ensures
        assistant_calls(after_items(start, items, roles_active, merge_floor)->Ok_0.messages),
    decreases items.len(),
{
    if items.len() > 0 {
        after_items_assistant_calls(start, items.drop_last(), roles_active, merge_floor);
    }
}

proof fn callless_run(messages: Seq<MessageView>)
    requires
        forall|i: int| 0 <= i < messages.len() ==> message_calls(#[trigger] messages[i]).len() == 0,
    ensures
        run_calls(messages) == Seq::<ToolCallView>::empty(),
    decreases messages.len(),
{
    if messages.len() > 0 {
        callless_run(messages.drop_last());
        assert(message_calls(messages[messages.len() - 1]).len() == 0);
    }
}

/// Joining the system messages at the front loses no tool call, where they
/// carry none.
pub proof fn hoisted_keeps_calls(messages: Seq<MessageView>)
    requires
        front_carries_no_calls(messages),
    ensures
        run_calls(hoisted(messages)) == run_calls(messages),
{
    let len = role_run(messages, "system"@) as int;
    role_run_extent(messages, "system"@);
    if len > 0 {
        let front = messages.take(len);
        let rest = messages.skip(len);
        assert(front + rest =~= messages);
        run_calls_of_parts(front, rest);
        system_front_is_run(messages);
        assert forall|i: int| 0 <= i < front.len() implies message_calls(
            #[trigger] front[i],
        ).len() == 0 by {
            assert(in_system_front(messages, i));
        }
        callless_run(front);
        assert(run_calls(messages) =~= run_calls(rest));
        if hoisted(messages).len() > rest.len() {
            let first = seq![hoisted(messages)[0]];
            assert(hoisted(messages) =~= first + rest);
            run_calls_of_parts(first, rest);
            callless_run(first);
            assert(run_calls(hoisted(messages)) =~= run_calls(rest));
        }
    }
}

/// A turn without a role policy loses no tool call, where the system messages
/// at the front of the replayed ones carry none: its messages carry the calls
/// of the replayed messages, then those of the conversation.
pub proof fn turn_keeps_calls(
    request: ResponsesRequest,
    baseline: Seq<MessageView>,
    image_agent_active: bool,
)
    requires
        front_carries_no_calls(baseline),
        lowered_turn(request, baseline, image_agent_active, None) is Ok,
    ensures
        ({
            let turn = lowered_turn(request, baseline, image_agent_active, None)->Ok_0;
            let start = LoweringView {
                messages: first_messages(baseline, request.instructions@),
                pending: None,
            };
            unnumbered(run_calls(turn.messages)) == unnumbered(run_calls(baseline)) + items_calls(
                start,
                request.input@,
                false,
                0,
            )
        }),
{
    let start = LoweringView {
        messages: first_messages(baseline, request.instructions@),
        pending: None,
    };
    let state = after_items(start, request.input@, false, 0)->Ok_0;
    assert(run_calls(start.messages) == run_calls(baseline)) by {
        if start.messages != baseline {
            callless_run(start.messages);
        }
    }
    after_items_keep_calls(start, request.input@, false, 0);
    if state.pending is Some {
        run_calls_push(state.messages, flushed(state).last());
        assert(run_calls(flushed(state)) =~= run_calls(state.messages));
    }
    flushed_continues(request, baseline);
    front_of_continued(baseline, flushed(state));
    hoisted_keeps_calls(flushed(state));
}

/// Where only the assistant calls tools in the replayed messages, none of the
/// system messages at their front carries calls, and only the assistant calls
/// tools in a turn without a role policy.
pub proof fn turn_calls_are_the_assistants(
    request: ResponsesRequest,
    baseline: Seq<MessageView>,
    image_agent_active: bool,
)
    requires
        assistant_calls(baseline),
        lowered_turn(request, baseline, image_agent_active, None) is Ok,
    ensures
        front_carries_no_calls(baseline),
        assistant_calls(
            lowered_turn(request, baseline, image_agent_active, None)->Ok_0.messages,
        ),
{
    let start = LoweringView {
        messages: first_messages(baseline, request.instructions@),
        pending: None,
    };
    let state = after_items(start, request.input@, false, 0)->Ok_0;
    reveal_strlit("assistant");
    reveal_strlit("system");
    assert("assistant"@.len() != "system"@.len());
    assert(assistant_calls(start.messages));
    after_items_assistant_calls(start, request.input@, false, 0);
    assert(assistant_calls(flushed(state)));
    role_run_extent(flushed(state), "system"@);
}

proof fn named_tools(tools: Seq<ToolView>, name: Seq<char>)
    ensures
        tools_named(tools, name).len() > 0 <==> exists|i: int|
            0 <= i < tools.len() && (#[trigger] tools[i]).name == name,
    decreases tools.len(),
{
    if tools.len() > 0 {
        let rest = tools.drop_last();
        named_tools(rest, name);
        if tools_named(tools, name).len() > 0 {
            if tools.last().name == name {
                assert(tools[tools.len() - 1].name == name);
            } else {
                let i = choose|i: int| 0 <= i < rest.len() && (#[trigger] rest[i]).name == name;
                assert(tools[i].name == name);
            }
        }
        if exists|i: int| 0 <= i < tools.len() && (#[trigger] tools[i]).name == name {
            let i = choose|i: int| 0 <= i < tools.len() && (#[trigger] tools[i]).name == name;
            if i < rest.len() {
                assert(rest[i].name == name);
            }
        }
    }
}

/// In a turn the tools stand in the order of their names, and the registry has
/// exactly their names, in lower case.
pub proof fn turn_tools_registered(
    request: ResponsesRequest,
    baseline: Seq<MessageView>,
    image_agent_active: bool,
    roles: Option<&RolesConfig>,
    name: Seq<char>,
)
    requires
        lowered_turn(request, baseline, image_agent_active, roles) is Ok,
    ensures
        ({
            let turn = lowered_turn(request, baseline, image_agent_active, roles)->Ok_0;
            &&& in_name_order(turn.tools)
            &&& turn.tool_registry.contains_key(name) <==> exists|i: int|
                0 <= i < turn.tools.len() && lowercased((#[trigger] turn.tools[i]).name) == name
        }),
{
    let turn = lowered_turn(request, baseline, image_agent_active, roles)->Ok_0;
    let offered = chat_tools(request.tools@);
    let kinds = tool_kinds(request.tools@, image_agent_active);
    sorted_tools_in_order(offered);
    kinds_match_tools(request.tools@, image_agent_active);
    registered_names(kinds, name);
    if turn.tool_registry.contains_key(name) {
        let i = choose|i: int| 0 <= i < kinds.len() && lowercased((#[trigger] kinds[i]).0) == name;
        assert(offered[i].name == kinds[i].0);
        sorted_tools_stable(offered, kinds[i].0);
        named_tools(offered, kinds[i].0);
        named_tools(turn.tools, kinds[i].0);
    }
    if exists|i: int|
        0 <= i < turn.tools.len() && lowercased((#[trigger] turn.tools[i]).name) == name {
        let i = choose|i: int|
            0 <= i < turn.tools.len() && lowercased((#[trigger] turn.tools[i]).name) == name;
        let exact = turn.tools[i].name;
        sorted_tools_stable(offered, exact);
        named_tools(offered, exact);
        named_tools(turn.tools, exact);
        let j = choose|j: int| 0 <= j < offered.len() && (#[trigger] offered[j]).name == exact;
        assert(kinds[j].0 == exact);
    }
}

/// Whether no rule of a role policy drops messages.
pub open spec fn drops_nothing(config: RolesConfig) -> bool {
    forall|role: Seq<char>, i: int|
        role_rules(config, role) is Some && 0 <= i < role_rules(config, role)->Some_0.len() ==> !(
        (#[trigger] role_rules(config, role)->Some_0[i]).action is Drop)
}

proof fn applying_rule_is_one_of(rules: Seq<RoleRule>, index: int)
    requires
        applying_rule(rules, index) is Some,
    ensures
        exists|i: int|
            0 <= i < rules.len() && #[trigger] rules[i] == applying_rule(rules, index)->Some_0,
    decreases rules.len(),
{
    if rule_applies(rules[0], index) {
        assert(rules[0] == applying_rule(rules, index)->Some_0);
    } else {
        let rest = rules.drop_first();
        applying_rule_is_one_of(rest, index);
        let i = choose|i: int|
            0 <= i < rest.len() && #[trigger] rest[i] == applying_rule(rest, index)->Some_0;
        assert(rules[i + 1] == rest[i]);
    }
}

/// A turn with a role policy that drops nothing loses no reasoning and no tool
/// call: its messages carry those of the replayed messages, then those of the
/// conversation.
pub proof fn policy_turn_keeps_all(
    request: ResponsesRequest,
    baseline: Seq<MessageView>,
    image_agent_active: bool,
    config: &RolesConfig,
)
    requires
        drops_nothing(*config),
        lowered_turn(request, baseline, image_agent_active, Some(config)) is Ok,
    ensures
        ({
            let turn = lowered_turn(request, baseline, image_agent_active, Some(config))->Ok_0;
            let start = LoweringView {
                messages: first_messages(baseline, request.instructions@),
                pending: None,
            };
            &&& all_reasoning(turn.messages) == reasoning_joined(
                all_reasoning(baseline),
                items_reasoning(request.input@),
            )
            &&& unnumbered(run_calls(turn.messages)) == unnumbered(run_calls(baseline))
                + items_calls(start, request.input@, true, baseline.len())
        }),
{
    let count = baseline.len();
    let start = LoweringView {
        messages: first_messages(baseline, request.instructions@),
        pending: None,
    };
    let turn = lowered_turn(request, baseline, image_agent_active, Some(config))->Ok_0;
    let state = after_items(start, request.input@, true, count)->Ok_0;
    let all = flushed(state);
    if start.messages != baseline {
        silent_run(start.messages);
        callless_run(start.messages);
    }
    no_reasoning_neutral(all_reasoning(baseline));
    after_items_keep_reasoning(start, request.input@, true, count);
    after_items_keep_calls(start, request.input@, true, count);
    after_items_keeps(start, request.input@, true, count, count);
    flushed_keeps_reasoning(state);
    if state.pending is Some {
        run_calls_push(state.messages, all.last());
        assert(run_calls(all) =~= run_calls(state.messages));
    }
    let front = all.take(count as int);
    let tail = all.skip(count as int);
    assert(front + tail =~= all);
    assert forall|i: int| 0 <= i < tail.len() implies shaped_message(
        #[trigger] tail[i],
        i as nat,
        *config,
    ) != Ok::<Option<MessageView>, Seq<char>>(None) by {
        let rules = role_rules(*config, tail[i].role);
        if rules is Some && applying_rule(rules->Some_0, i) is Some {
            applying_rule_is_one_of(rules->Some_0, i);
        }
    }
    role_shaped_keeps(tail, *config);
    let new = role_shaped(tail, *config)->Ok_0;
    assert(turn.messages =~= front + new);
    all_reasoning_of_parts(front, tail);
    all_reasoning_of_parts(front, new);
    run_calls_of_parts(front, tail);
    run_calls_of_parts(front, new);
    assert(unnumbered(run_calls(front) + run_calls(tail)) =~= unnumbered(run_calls(front))
        + unnumbered(run_calls(tail)));
    assert(unnumbered(run_calls(front) + run_calls(new)) =~= unnumbered(run_calls(front))
        + unnumbered(run_calls(new)));
}

} // verus!

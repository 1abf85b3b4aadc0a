//! Settings and refusals of a turn, and what the views of values show.
use crate::chat::{
    call_views, message_views, plain_message, tool_views, ChatMessage, ChatThinking, ChatTool,
    ChatToolCall, MessageView, ThinkingView,
};
use crate::codec::parsed_tree;
use crate::config::{role_rules, RolesConfig};
use crate::error::AppError;
use crate::json::{fields, Json, JsonTree};
use crate::laws::conversation::{
    conversation_told, grown, is_call, reach, shown_role, signed_whole,
};
use crate::laws::offers::functions_in;
use crate::laws::policy::{refused_with, rules_of};
use crate::laws::values::{choice_is_valid, refusal_names_fault, request_is_refused_for_cause};
use crate::lowering::{
    after_item, after_items, chat_role, flushed, lowered_turn, reasoning_level, with_tool_call,
    LoweredTurn, LoweringView, TurnView,
};
use crate::reasoning::{
    all_reasoning, carried_reasoning, chat_parts, no_reasoning, optional_chat_parts,
    reasoning_after, reasoning_joined, PendingReasoning, ReasoningView,
};
use crate::responses::{
    LocalShellAction, NamespaceToolSpec, ResponseItem, ResponsesRequest, ToolSpec,
};
use crate::text::{lowercased, text_before, trimmed, white_space};
use crate::tools::{registered, registered_when_distinct, tool_kinds};
use vstd::prelude::*;

verus! {

/// Whether a level of reasoning is an effort in lower case without the white
/// space around it: it stands in the effort, letter for letter but for the case
/// of ASCII letters, and white space alone is before and behind it.
pub open spec fn level_stands_at(effort: Seq<char>, level: Seq<char>, at: int) -> bool {
    &&& 0 <= at
    &&& at + level.len() <= effort.len()
    &&& forall|k: int|
        0 <= k < level.len() ==> {
            let c = effort[at + k];
            if 'A' <= c <= 'Z' {
                (#[trigger] level[k]) as int == c as int + 32
            } else {
                level[k] == c
            }
        }
    &&& forall|k: int| 0 <= k < at ==> white_space(#[trigger] effort[k])
    &&& forall|k: int| at + level.len() <= k < effort.len() ==> white_space(#[trigger] effort[k])
    &&& level.len() > 0
    &&& !white_space(effort[at])
    &&& !white_space(effort[at + level.len() - 1])
}

/// Whether an optional level is what is left of an optional effort: none where
/// the effort is not there or is white space alone.
pub open spec fn level_of(effort: Option<Seq<char>>, level: Option<Seq<char>>) -> bool {
    match effort {
        Some(effort) => match level {
            Some(level) => level_stands_in(effort, level),
            None => forall|k: int| 0 <= k < effort.len() ==> white_space(#[trigger] effort[k]),
        },
        None => level is None,
    }
}

/// Whether a level is an effort in lower case without the white space around it.
pub open spec fn level_stands_in(effort: Seq<char>, level: Seq<char>) -> bool {
    exists|at: int| #[trigger] level_stands_at(effort, level, at)
}

/// A level of reasoning is the effort in lower case and without the white space
/// around it, and is there exactly where something is left.
pub proof fn level_is_what_is_left(effort: Option<Seq<char>>)
    ensures
        level_of(effort, reasoning_level(effort)),
{
    if effort is Some {
        let text = effort->Some_0;
        crate::laws::texts::trimmed_takes_white_space_only(text);
        let at = choose|at: int| #[trigger] crate::laws::texts::trimmed_at(text, at);
        let core = trimmed(text);
        if core.len() > 0 {
            let level = lowercased(core);
            assert(text[at + 0] == core[0]);
            assert(text[at + (core.len() - 1)] == core[core.len() - 1]);
            assert forall|k: int| 0 <= k < level.len() implies ({
                let c = text[at + k];
                if 'A' <= c <= 'Z' {
                    (#[trigger] level[k]) as int == c as int + 32
                } else {
                    level[k] == c
                }
            }) by {
                assert(text[at + k] == core[k]);
            }
            assert(level_stands_at(text, level, at));
            assert(level_stands_in(text, level));
        } else {

            assert forall|k: int| 0 <= k < text.len() implies white_space(#[trigger] text[k]) by {
                if k >= at {
                    assert(at + core.len() <= k);
                }
            }
        }
    }
}

/// A turn has the penalties of its request as they are, the level of reasoning
/// that the request asks for, and no format of the answer unless the request
/// has one.
pub proof fn turn_has_settings(
    request: ResponsesRequest,
    baseline: Seq<MessageView>,
    image_agent_active: bool,
    roles: Option<&RolesConfig>,
)
    requires
        lowered_turn(request, baseline, image_agent_active, roles) is Ok,
    ensures
        ({
            let turn = lowered_turn(request, baseline, image_agent_active, roles)->Ok_0;
            &&& turn.frequency_penalty == request.frequency_penalty
            &&& turn.presence_penalty == request.presence_penalty
            &&& match request.reasoning {
                Some(reasoning) => match reasoning.effort {
                    Some(effort) => level_of(Some(effort@), turn.reasoning_effort),
                    None => turn.reasoning_effort is None,
                },
                None => turn.reasoning_effort is None,
            }
            &&& format_shown(request, turn.response_format)
        }),
{
    if let Some(reasoning) = request.reasoning {
        if let Some(effort) = reasoning.effort {
            level_is_what_is_left(Some(effort@));
        }
    }
    crate::laws::values::response_format_shows_format(request.text);
}

/// Whether the format of the answer shows the one that a request has.
pub open spec fn format_shown(request: ResponsesRequest, shown: Option<JsonTree>) -> bool {
    match request.text {
        Some(controls) => match controls.format {
            Some(format) => shown matches Some(shown) && crate::laws::values::has_field(
                shown,
                "type"@,
                JsonTree::Text(format.kind@),
            ) && exists|inner: JsonTree|
                {
                    &&& #[trigger] crate::laws::values::has_field(shown, "json_schema"@, inner)
                    &&& crate::laws::values::has_field(
                        inner,
                        "name"@,
                        JsonTree::Text(format.name@),
                    )
                    &&& crate::laws::values::has_field(inner, "schema"@, format.schema@)
                    &&& crate::laws::values::has_field(
                        inner,
                        "strict"@,
                        JsonTree::Bool(format.strict),
                    )
                },
            None => shown is None,
        },
        None => shown is None,
    }
}

/// Why an item of the conversation refuses a request, where it does.
pub open spec fn item_fault(item: ResponseItem) -> Option<Seq<char>> {
    match item {
        ResponseItem::FunctionCall { id, name, namespace, arguments, call_id } => match parsed_tree(
            arguments@,
        ) {
            Ok(_) => None,
            Err(words) => Some("invalid JSON tool arguments: "@ + words),
        },
        ResponseItem::ToolSearchCall { call_id, status, execution, arguments } => if execution@
            == "client"@ {
            None
        } else {
            Some("only tool_search calls with execution=client are supported"@)
        },
        ResponseItem::LocalShellCall { id, call_id, action } => match (id, call_id, action) {
            (None, None, _) => Some("local_shell_call missing call_id"@),
            (_, _, LocalShellAction::Exec(Err(words))) => Some(
                "failed to serialize local_shell_call action: "@ + words@,
            ),
            _ => None,
        },
        _ => None,
    }
}

/// Whether an item is the first one that refuses the request, with its words.
pub open spec fn first_fault(items: Seq<ResponseItem>, i: int, words: Seq<char>) -> bool {
    &&& 0 <= i < items.len()
    &&& item_fault(items[i]) == Some(words)
    &&& forall|j: int| 0 <= j < i ==> item_fault(#[trigger] items[j]) is None
}

/// A conversation is refused exactly where one of its items is at fault, with
/// the words of the first that is.
pub proof fn conversation_is_refused_for_cause(
    start: LoweringView,
    items: Seq<ResponseItem>,
    roles_active: bool,
    merge_floor: nat,
)
    ensures
        match after_items(start, items, roles_active, merge_floor) {
            Ok(_) => forall|i: int| 0 <= i < items.len() ==> item_fault(#[trigger] items[i]) is None,
            Err(words) => exists|i: int| #[trigger] first_fault(items, i, words),
        },
    decreases items.len(),
{
    if items.len() > 0 {
        let rest = items.drop_last();
        let last = items.len() - 1;
        conversation_is_refused_for_cause(start, rest, roles_active, merge_floor);
        match after_items(start, rest, roles_active, merge_floor) {
            Err(words) => {
                let i = choose|i: int| #[trigger] first_fault(rest, i, words);
                assert(items[i] == rest[i]);
                assert forall|j: int| 0 <= j < i implies item_fault(#[trigger] items[j]) is None by {
                    assert(rest[j] == items[j]);
                }
                assert(first_fault(items, i, words));
            },
            Ok(state) => {
                assert forall|j: int| 0 <= j < last implies item_fault(
                    #[trigger] items[j],
                ) is None by {
                    assert(rest[j] == items[j]);
                }
                assert(items.last() == items[last]);
                match after_item(state, items.last(), roles_active, merge_floor) {
                    Err(words) => {
                        assert(first_fault(items, last, words));
                    },
                    Ok(_) => {},
                }
            },
        }
    }
}

/// The name of a function of an offer.
pub open spec fn offered_name(offered: ToolSpec, j: int) -> Seq<char> {
    match offered {
        ToolSpec::Function { name, description, strict, parameters } => name@,
        ToolSpec::Namespace { name, description, tools } => match tools@[j] {
            NamespaceToolSpec::Function { name, description, strict, parameters } => name@,
        },
        ToolSpec::ToolSearch { execution, description, parameters } => "tool_search"@,
        ToolSpec::LocalShell {  } => "local_shell"@,
        ToolSpec::WebSearch { external_web_access } => "web_search"@,
        ToolSpec::Custom { name, description, format } => name@,
        ToolSpec::ImageGeneration { output_format } => Seq::empty(),
    }
}

/// Whether an offer brings a function with this number.
pub open spec fn is_offered(specs: Seq<ToolSpec>, i: int, j: int) -> bool {
    0 <= i < specs.len() && 0 <= j < functions_in(specs[i])
}

/// Whether two functions of the offers have one name up to ASCII case.
pub open spec fn name_occurs_twice(specs: Seq<ToolSpec>, name: Seq<char>) -> bool {
    exists|i: int, j: int, k: int, l: int|
        {
            &&& #[trigger] is_offered(specs, i, j)
            &&& #[trigger] is_offered(specs, k, l)
            &&& i != k || j != l
            &&& lowercased(offered_name(specs[i], j)) == name
            &&& lowercased(offered_name(specs[k], l)) == name
        }
}

spec fn offset(specs: Seq<ToolSpec>, i: int) -> int
    decreases i,
{
    if i <= 0 {
        0
    } else {
        offset(specs, i - 1) + functions_in(specs[i - 1])
    }
}

proof fn kinds_at(specs: Seq<ToolSpec>, image_agent_active: bool)
    ensures
        tool_kinds(specs, image_agent_active).len() == offset(specs, specs.len() as int),
        forall|i: int, j: int| #[trigger]
            is_offered(specs, i, j) ==> 0 <= offset(specs, i) + j < tool_kinds(
                specs,
                image_agent_active,
            ).len() && tool_kinds(specs, image_agent_active)[offset(specs, i) + j].0
                == offered_name(specs[i], j),
        forall|k: int|
            0 <= k < tool_kinds(specs, image_agent_active).len() ==> #[trigger] has_place(specs, k),
    decreases specs.len(),
{
    if specs.len() > 0 {
        let rest = specs.drop_last();
        let last = specs.len() - 1;
        let before = tool_kinds(rest, image_agent_active);
        let all = tool_kinds(specs, image_agent_active);
        kinds_at(rest, image_agent_active);
        offset_of_front(specs, rest, last as int);
        assert(specs.last() == specs[last]);
        assert forall|i: int, j: int| #[trigger] is_offered(specs, i, j) implies 0 <= offset(specs, i)
            + j < all.len() && all[offset(specs, i) + j].0 == offered_name(specs[i], j) by {
            if i < last {
                offset_of_front(specs, rest, i);
                assert(rest[i] == specs[i]);
                assert(is_offered(rest, i, j));
            }
        }
        assert forall|k: int| 0 <= k < all.len() implies #[trigger] has_place(specs, k) by {
            if k < before.len() {
                assert(has_place(rest, k));
                let (i, j) = choose|i: int, j: int| #[trigger]
                    is_offered(rest, i, j) && offset(rest, i) + j == k;
                offset_of_front(specs, rest, i);
                assert(rest[i] == specs[i]);
                assert(is_offered(specs, i, j));
            } else {
                assert(is_offered(specs, last as int, k - before.len()));
            }
        }
    }
}

spec fn has_place(specs: Seq<ToolSpec>, k: int) -> bool {
    exists|i: int, j: int| #[trigger] is_offered(specs, i, j) && offset(specs, i) + j == k
}

proof fn offset_of_front(specs: Seq<ToolSpec>, rest: Seq<ToolSpec>, i: int)
    requires
        specs.len() > 0,
        rest == specs.drop_last(),
        i <= rest.len(),
    ensures
        offset(specs, i) == offset(rest, i),
    decreases i,
{
    if i > 0 {
        offset_of_front(specs, rest, i - 1);
        assert(rest[i - 1] == specs[i - 1]);
    }
}

proof fn offset_grows(specs: Seq<ToolSpec>, i: int, k: int)
    requires
        0 <= i < k <= specs.len(),
    ensures
        offset(specs, i) + functions_in(specs[i]) <= offset(specs, k),
    decreases k - i,
{
    if i + 1 < k {
        offset_grows(specs, i, k - 1);
    }
}

/// Tools are refused exactly where two functions of the offers have one name up
/// to ASCII case, and the refusal ends with that name in lower case.
pub proof fn tools_are_refused_for_cause(specs: Seq<ToolSpec>, image_agent_active: bool)
    ensures
        match registered(tool_kinds(specs, image_agent_active)) {
            Ok(_) => forall|name: Seq<char>| !(#[trigger] name_occurs_twice(specs, name)),
            Err(words) => exists|name: Seq<char>| #[trigger]
                name_occurs_twice(specs, name) && words
                    == "duplicate tool name is not supported: "@ + name,
        },
{
    let kinds = tool_kinds(specs, image_agent_active);
    kinds_at(specs, image_agent_active);
    match registered(kinds) {
        Ok(_) => {
            registered_when_distinct(kinds);
            assert forall|name: Seq<char>| !(#[trigger] name_occurs_twice(specs, name)) by {
                if name_occurs_twice(specs, name) {
                    let (i, j, k, l) = choose|i: int, j: int, k: int, l: int|
                        {
                            &&& #[trigger] is_offered(specs, i, j)
                            &&& #[trigger] is_offered(specs, k, l)
                            &&& i != k || j != l
                            &&& lowercased(offered_name(specs[i], j)) == name
                            &&& lowercased(offered_name(specs[k], l)) == name
                        };
                    let a = offset(specs, i) + j;
                    let b = offset(specs, k) + l;
                    if i < k {
                        offset_grows(specs, i, k);
                    } else if k < i {
                        offset_grows(specs, k, i);
                    }
                    assert(a != b);
                    assert(lowercased(kinds[a].0) == lowercased(kinds[b].0));
                }
            }
        },
        Err(words) => {
            first_duplicate(kinds);
            let (a, b) = choose|a: int, b: int|
                {
                    &&& 0 <= a < b < kinds.len()
                    &&& lowercased((#[trigger] kinds[a]).0) == lowercased((#[trigger] kinds[b]).0)
                    &&& words == "duplicate tool name is not supported: "@ + lowercased(kinds[b].0)
                };
            assert(has_place(specs, a));
            assert(has_place(specs, b));
            let (i, j) = choose|i: int, j: int| #[trigger]
                is_offered(specs, i, j) && offset(specs, i) + j == a;
            let (k, l) = choose|k: int, l: int| #[trigger]
                is_offered(specs, k, l) && offset(specs, k) + l == b;
            assert(name_occurs_twice(specs, lowercased(kinds[b].0)));
        },
    }
}

proof fn first_duplicate(kinds: Seq<(Seq<char>, crate::tools::ToolKind)>)
    requires
        registered(kinds) is Err,
    ensures
        exists|a: int, b: int|
            {
                &&& 0 <= a < b < kinds.len()
                &&& lowercased((#[trigger] kinds[a]).0) == lowercased((#[trigger] kinds[b]).0)
                &&& registered(kinds)->Err_0 == "duplicate tool name is not supported: "@
                    + lowercased(kinds[b].0)
            },
    decreases kinds.len(),
{
    let rest = kinds.drop_last();
    let last = kinds.len() - 1;
    if registered(rest) is Err {
        first_duplicate(rest);
        let words = registered(rest)->Err_0;
        let (a, b) = choose|a: int, b: int|
            {
                &&& 0 <= a < b < rest.len()
                &&& lowercased((#[trigger] rest[a]).0) == lowercased((#[trigger] rest[b]).0)
                &&& words == "duplicate tool name is not supported: "@ + lowercased(rest[b].0)
            };
        assert(kinds[a] == rest[a]);
        assert(kinds[b] == rest[b]);
    } else {
        let name = lowercased(kinds[last].0);
        crate::tools::registered_names(rest, name);
        let a = choose|a: int| 0 <= a < rest.len() && lowercased((#[trigger] rest[a]).0) == name;
        assert(kinds[a] == rest[a]);
        assert(lowercased(kinds[a].0) == lowercased(kinds[last].0));
    }
}

/// A request is refused over an earlier response, over its choice of tools, over
/// two tools with one name, over the first item of its conversation that is at
/// fault, or over the first message that the role policy does not let through,
/// in this order; the words say which. Otherwise it is lowered.
pub proof fn turn_is_refused_for_cause(
    request: ResponsesRequest,
    baseline: Seq<MessageView>,
    image_agent_active: bool,
    roles: Option<&RolesConfig>,
)
    ensures
        ({
            let outcome = lowered_turn(request, baseline, image_agent_active, roles);
            let choice = request.tool_choice@;
            let tools = request.tools@;
            if request.previous_response_id is Some {
                outcome == Err::<TurnView, Seq<char>>(
                    "previous_response_id is not supported in v1"@,
                )
            } else if !choice_is_valid(choice, tools.len()) {
                outcome is Err && refusal_names_fault(choice, tools.len(), outcome->Err_0)
            } else if exists|name: Seq<char>| #[trigger] name_occurs_twice(tools, name) {
                outcome is Err && exists|name: Seq<char>| #[trigger]
                    name_occurs_twice(tools, name) && outcome->Err_0
                        == "duplicate tool name is not supported: "@ + name
            } else if exists|i: int|
                0 <= i < request.input@.len() && item_fault(#[trigger] request.input@[i]) is Some {
                outcome is Err && exists|i: int| #[trigger]
                    first_fault(request.input@, i, outcome->Err_0)
            } else {
                outcome is Err ==> roles is Some && exists|
                    conversation: Seq<MessageView>,
                    at: Seq<int>,
                    i: int,
                |
                    {
                        &&& #[trigger] conversation_told(
                            request,
                            baseline,
                            true,
                            conversation,
                            at,
                        )
                        &&& baseline.len() <= i < conversation.len()
                        &&& #[trigger] refused_with(
                            *roles->Some_0,
                            conversation[i],
                            (i - baseline.len()) as nat,
                            outcome->Err_0,
                        )
                    }
            }
        }),
{
    request_is_refused_for_cause(request);
    tools_are_refused_for_cause(request.tools@, image_agent_active);
    let start = LoweringView {
        messages: crate::lowering::first_messages(baseline, request.instructions@),
        pending: None,
    };
    let floor = crate::lowering::floor_of(baseline, roles);
    conversation_is_refused_for_cause(start, request.input@, roles is Some, floor);
    let outcome = lowered_turn(request, baseline, image_agent_active, roles);
    if crate::validate::request_error(request) is None && registered(
        tool_kinds(request.tools@, image_agent_active),
    ) is Ok {
        match after_items(start, request.input@, roles is Some, floor) {
            Err(words) => {
                let i = choose|i: int| #[trigger] first_fault(request.input@, i, words);
                assert(item_fault(request.input@[i]) is Some);
                assert(outcome->Err_0 == words);
                assert(first_fault(request.input@, i, outcome->Err_0));
            },
            Ok(state) => {
                if let Some(config) = roles {
                    if outcome is Err {
                        let all = flushed(state);
                        let tail = all.skip(baseline.len() as int);
                        crate::lowering::after_items_keeps(
                            start,
                            request.input@,
                            true,
                            floor,
                            baseline.len(),
                        );
                        crate::laws::policy::policy_governs(tail, *config);
                        let n = choose|n: int|
                            {
                                &&& 0 <= n < tail.len()
                                &&& #[trigger] refused_with(
                                    *config,
                                    tail[n],
                                    n as nat,
                                    outcome->Err_0,
                                )
                            };
                        assert(floor == reach(baseline, true));
                        let at = crate::laws::conversation::conversation_is_told(
                            request,
                            baseline,
                            true,
                        );
                        let i = n + baseline.len();
                        assert(tail[n] == all[i]);
                        assert(refused_with(
                            *config,
                            all[i],
                            (i - baseline.len()) as nat,
                            outcome->Err_0,
                        ));
                        assert(conversation_told(request, baseline, true, all, at));
                    }
                }
            },
        }
    }
}

/// A tool call joins the last message exactly where that is one of the assistant
/// and not out of reach, and otherwise opens a message of the assistant that
/// makes this call alone; either carries the reasoning that waits behind what is
/// there, and nothing else changes.
pub proof fn call_joins_or_opens(
    messages: Seq<MessageView>,
    call_id: Seq<char>,
    name: Seq<char>,
    arguments: JsonTree,
    pending: Option<ReasoningView>,
    merge_floor: nat,
)
    ensures
        ({
            let after = with_tool_call(messages, call_id, name, arguments, pending, merge_floor);
            let waiting = match pending {
                Some(reasoning) => reasoning,
                None => no_reasoning(),
            };
            if messages.len() > merge_floor && messages.last().role == "assistant"@ {
                &&& after.len() == messages.len()
                &&& after.drop_last() == messages.drop_last()
                &&& grown(messages.last(), after.last())
                &&& after.last().tool_calls is Some
                &&& ({
                    let made = after.last().tool_calls->Some_0;
                    let earlier: int = match messages.last().tool_calls {
                        Some(calls) => calls.len() as int,
                        None => 0,
                    };
                    made.len() == earlier + 1 && is_call(
                        made[earlier],
                        earlier,
                        call_id,
                        name,
                        arguments,
                    )
                })
                &&& carried_reasoning(after.last()) == reasoning_joined(
                    carried_reasoning(messages.last()),
                    waiting,
                )
                &&& pending is Some ==> signed_whole(after.last())
            } else {
                &&& after.len() == messages.len() + 1
                &&& after.drop_last() == messages
                &&& after.last().role == "assistant"@
                &&& after.last().content is None
                &&& after.last().tool_call_id is None
                &&& after.last().name is None
                &&& carried_reasoning(after.last()) == waiting
                &&& pending is None ==> after.last().reasoning_content is None
                &&& signed_whole(after.last())
                &&& after.last().tool_calls is Some
                &&& after.last().tool_calls->Some_0.len() == 1
                &&& is_call(after.last().tool_calls->Some_0[0], 0, call_id, name, arguments)
            }
        }),
{
    let after = with_tool_call(messages, call_id, name, arguments, pending, merge_floor);
    if messages.len() > merge_floor && messages.last().role == "assistant"@ {
        let last = messages.last();
        crate::reasoning::no_reasoning_neutral(carried_reasoning(last));
        assert(after.drop_last() =~= messages.drop_last());
        match pending {
            Some(reasoning) => {
                crate::laws::texts::reasoning_joined_holds_both(carried_reasoning(last), reasoning);
                crate::reasoning::chat_parts_carry(
                    after.last(),
                    Some(reasoning_joined(carried_reasoning(last), reasoning)),
                );
            },
            None => {
                assert(carried_reasoning(after.last()) =~= carried_reasoning(last));
            },
        }
    } else {
        assert(after.drop_last() =~= messages);
        crate::reasoning::chat_parts_carry(after.last(), pending);
    }
}

/// A developer is the system in a chat without a role policy, and every other
/// role is itself.
pub proof fn chat_role_is_shown_role(role: Seq<char>)
    ensures
        role != "developer"@ ==> chat_role(role) == role,
        role == "developer"@ ==> chat_role(role) == "system"@,
        chat_role(role) == shown_role(role, false),
{
}

/// The rules for a role are its own, or else those of `*`.
pub proof fn role_rules_are_own_or_star(config: RolesConfig, role: Seq<char>)
    ensures
        role_rules(config, role) == rules_of(config, role),
{
}

/// A block of reasoning is on a message as its text, and in signed form exactly
/// where it has a signature; a message without a block has neither.
pub proof fn block_is_on_message(reasoning: ReasoningView, first: Option<ReasoningView>)
    ensures
        chat_parts(reasoning).0 == Some(reasoning.text),
        chat_parts(reasoning).1 is Some <==> reasoning.signature is Some,
        reasoning.signature is Some ==> chat_parts(reasoning).1 == Some(
            ThinkingView { content: reasoning.text, signature: reasoning.signature },
        ),
        optional_chat_parts(Some(reasoning)) == chat_parts(reasoning),
        optional_chat_parts(None).0 is None,
        optional_chat_parts(None).1 is None,
        first is None ==> reasoning_after(first, reasoning) == reasoning,
        first is Some ==> reasoning_after(first, reasoning) == reasoning_joined(
            first->Some_0,
            reasoning,
        ),
        all_reasoning(Seq::<MessageView>::empty()).text.len() == 0,
        all_reasoning(Seq::<MessageView>::empty()).signature is None,
{
}

/// A plain message has its role and its content and nothing else.
pub proof fn plain_message_is_plain(role: Seq<char>, content: Option<JsonTree>)
    ensures
        ({
            let message = plain_message(role, content);
            &&& message.role == role
            &&& message.content == content
            &&& message.tool_call_id is None
            &&& message.name is None
            &&& message.reasoning_content is None
            &&& message.thinking is None
            &&& message.tool_calls is None
        }),
{
}

/// Whether an optional view shows an optional text.
pub open spec fn shows_text(text: Option<String>, shown: Option<Seq<char>>) -> bool {
    match text {
        Some(text) => shown == Some(text@),
        None => shown is None,
    }
}

/// Whether an optional view shows an optional value.
pub open spec fn shows_value(value: Option<Json>, shown: Option<JsonTree>) -> bool {
    match value {
        Some(value) => shown == Some(value@),
        None => shown is None,
    }
}

/// The view of a message shows every field of it.
pub proof fn message_view_shows_fields(message: ChatMessage, call: ChatToolCall, thinking: ChatThinking)
    ensures
        message@.role == message.role@,
        shows_value(message.content, message@.content),
        shows_text(message.tool_call_id, message@.tool_call_id),
        shows_text(message.name, message@.name),
        shows_text(message.reasoning_content, message@.reasoning_content),
        match message.thinking {
            Some(thinking) => message@.thinking == Some(thinking@),
            None => message@.thinking is None,
        },
        match message.tool_calls {
            Some(calls) => message@.tool_calls is Some && message@.tool_calls->Some_0.len()
                == calls@.len() && forall|i: int|
                0 <= i < calls@.len() ==> message@.tool_calls->Some_0[i] == (
                #[trigger] calls@[i])@,
            None => message@.tool_calls is None,
        },
        shows_text(call.id, call@.id),
        call@.index == call.index,
        call@.kind == call.kind@,
        shows_text(call.function.name, call@.name),
        shows_value(call.function.arguments, call@.arguments),
        thinking@.content == thinking.content@,
        shows_text(thinking.signature, thinking@.signature),
{
}

/// The views of lists show each of their members in its place.
pub proof fn list_views_show_members(
    messages: Seq<ChatMessage>,
    calls: Seq<ChatToolCall>,
    tools: Seq<ChatTool>,
)
    ensures
        message_views(messages).len() == messages.len(),
        forall|i: int|
            0 <= i < messages.len() ==> #[trigger] message_views(messages)[i] == messages[i]@,
        call_views(calls).len() == calls.len(),
        forall|i: int| 0 <= i < calls.len() ==> #[trigger] call_views(calls)[i] == calls[i]@,
        tool_views(tools).len() == tools.len(),
        forall|i: int| 0 <= i < tools.len() ==> #[trigger] tool_views(tools)[i] == tools[i]@,
{
}

/// The view of a turn shows every field of it, and so do those of a tool, of
/// waiting reasoning and of a refusal.
pub proof fn turn_view_shows_fields(
    turn: LoweredTurn,
    tool: ChatTool,
    reasoning: PendingReasoning,
    error: AppError,
)
    ensures
        turn@.messages == message_views(turn.messages@),
        turn@.tools == tool_views(turn.tools@),
        turn@.tool_registry == turn.tool_registry@,
        shows_value(turn.response_format, turn@.response_format),
        shows_text(turn.reasoning_effort, turn@.reasoning_effort),
        turn@.frequency_penalty == turn.frequency_penalty,
        turn@.presence_penalty == turn.presence_penalty,
        tool@.kind == tool.kind@,
        tool@.name == tool.function.name@,
        tool@.description == tool.function.description@,
        shows_value(tool.function.parameters, tool@.parameters),
        tool@.strict == tool.function.strict,
        reasoning@.text == reasoning.text@,
        shows_text(reasoning.signature, reasoning@.signature),
        error@ == error->BadRequest_0@,
{
}

/// The tree of a value shows what kind of value it is and everything in it: an
/// array has its items in their order, and an object has for each key the value
/// of the last entry with it.
pub proof fn tree_shows_value(json: Json)
    ensures
        match json {
            Json::Null => json@ == JsonTree::Null,
            Json::Bool(value) => json@ == JsonTree::Bool(value),
            Json::Number(number) => json@ == JsonTree::Number(number),
            Json::Text(text) => json@ == JsonTree::Text(text@),
            Json::Array(items) => json@ matches JsonTree::Array(shown) && shown.len() == items@.len()
                && forall|i: int| 0 <= i < items@.len() ==> shown[i] == (#[trigger] items@[i])@,
            Json::Object(entries) => json@ matches JsonTree::Object(shown) && (forall|
                key: Seq<char>,
            | #[trigger]
                shown.contains_key(key) <==> exists|i: int| #[trigger]
                    is_last_with(entries@, i, key)) && forall|i: int, key: Seq<char>| #[trigger]
                is_last_with(entries@, i, key) ==> shown[key] == entries@[i].1@,
        },
{
    broadcast use {crate::json::trees_at, crate::json::trees_len};

    if let Json::Object(entries) = json {
        fields_of_last(entries@);
        let shown = json@->Object_0;
        assert(shown == fields(entries@));
        assert forall|key: Seq<char>| #[trigger] shown.contains_key(key) implies exists|
            i: int,
        | #[trigger] is_last_with(entries@, i, key) by {
            assert(fields(entries@).contains_key(key));
        }
    }
}

/// Whether an entry is the last of the entries with its key.
pub open spec fn is_last_with(entries: Seq<(String, Json)>, i: int, key: Seq<char>) -> bool {
    &&& 0 <= i < entries.len()
    &&& entries[i].0@ == key
    &&& forall|j: int| i < j < entries.len() ==> (#[trigger] entries[j]).0@ != key
}

proof fn fields_of_last(entries: Seq<(String, Json)>)
    ensures
        forall|key: Seq<char>| #[trigger]
            fields(entries).contains_key(key) <==> exists|i: int| #[trigger]
                is_last_with(entries, i, key),
        forall|i: int, key: Seq<char>| #[trigger]
            is_last_with(entries, i, key) ==> fields(entries)[key] == entries[i].1@,
    decreases entries.len(),
{
    if entries.len() > 0 {
        let rest = entries.drop_last();
        let last = entries.len() - 1;
        fields_of_last(rest);
        assert(entries.last() == entries[last]);
        assert forall|i: int, key: Seq<char>| #[trigger] is_last_with(entries, i, key) implies fields(
            entries,
        ).contains_key(key) && fields(entries)[key] == entries[i].1@ by {
            if i < last {
                assert(entries[last].0@ != key);
                assert(rest[i] == entries[i]);
                assert forall|j: int| i < j < rest.len() implies (#[trigger] rest[j]).0@ != key by {
                    assert(entries[j] == rest[j]);
                }
                assert(is_last_with(rest, i, key));
            }
        }
        assert forall|key: Seq<char>| #[trigger] fields(entries).contains_key(key) implies exists|
            i: int,
        | #[trigger] is_last_with(entries, i, key) by {
            if entries[last].0@ == key {
                assert(is_last_with(entries, last as int, key));
            } else {
                assert(fields(rest).contains_key(key));
                let i = choose|i: int| #[trigger] is_last_with(rest, i, key);
                assert(entries[i] == rest[i]);
                assert forall|j: int| i < j < entries.len() implies (
                #[trigger] entries[j]).0@ != key by {
                    if j < last {
                        assert(rest[j] == entries[j]);
                    }
                }
                assert(is_last_with(entries, i, key));
            }
        }
    }
}

/// A text comes before another exactly where they are the same up to a position
/// at which the first one ends, or has the smaller character.
pub proof fn text_order_is_by_first_difference(a: Seq<char>, b: Seq<char>)
    ensures
        text_before(a, b) <==> exists|k: int| #[trigger] differs_at(a, b, k),
    decreases a.len(),
{
    if a.len() > 0 && b.len() > 0 && a[0] == b[0] {
        let c = a.drop_first();
        let d = b.drop_first();
        text_order_is_by_first_difference(c, d);
        if text_before(a, b) {
            let k = choose|k: int| #[trigger] differs_at(c, d, k);
            assert forall|j: int| 0 <= j < k + 1 implies #[trigger] a[j] == b[j] by {
                if j > 0 {
                    assert(c[j - 1] == d[j - 1]);
                }
            }
            if k < c.len() {
                assert(c[k] == a[k + 1]);
            }
            assert(d[k] == b[k + 1]);
            assert(differs_at(a, b, k + 1));
        }
        if exists|k: int| #[trigger] differs_at(a, b, k) {
            let k = choose|k: int| #[trigger] differs_at(a, b, k);
            assert(k > 0);
            assert forall|j: int| 0 <= j < k - 1 implies #[trigger] c[j] == d[j] by {
                assert(a[j + 1] == b[j + 1]);
            }
            assert(differs_at(c, d, k - 1));
        }
    } else if text_before(a, b) {
        assert(differs_at(a, b, 0));
    } else if exists|k: int| #[trigger] differs_at(a, b, k) {
        let k = choose|k: int| #[trigger] differs_at(a, b, k);
        if k > 0 {
            assert(a[0] == b[0]);
        }
    }
}

/// Whether two texts are the same up to a position at which the first one ends,
/// or has the smaller character.
pub open spec fn differs_at(a: Seq<char>, b: Seq<char>, k: int) -> bool {
    &&& 0 <= k < b.len()
    &&& k <= a.len()
    &&& forall|j: int| 0 <= j < k ==> #[trigger] a[j] == b[j]
    &&& k == a.len() || a[k] < b[k]
}

} // verus!

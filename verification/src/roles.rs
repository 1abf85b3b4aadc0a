//! The role policy of a model profile.
use crate::chat::{
    call_views, extend_calls, message_views, ChatMessage, ChatToolCall, MessageView,
    ToolCallView,
};
use crate::config::{role_rules, Action, RoleRule, RolesConfig, When};
use crate::content::{content_as_text, content_to_text};
use crate::error::{AppError, AppResult};
use crate::json::{Json, JsonTree};
use crate::messages::{
    collect_text, has_content, message_text, role_run, role_run_extent, role_run_is, run_texts,
    run_texts_joined_not_empty, run_texts_push,
};
use crate::ordered::TextMap;
use crate::reasoning::{
    all_reasoning, all_reasoning_of_parts, carried_reasoning, chat_parts_carry, no_reasoning,
    no_reasoning_neutral, optional_chat_parts, optional_into_chat_parts, pending_view,
    reasoning_after, reasoning_of, reasoning_or_none, PendingReasoning, ReasoningView,
};
use crate::text::{decimal, decimal_text, join, joined, same_text, texts};
use vstd::prelude::*;

verus! {

broadcast use crate::chat::message_views_push;

/// A character as it stands in the value of an attribute.
pub open spec fn escaped_char(c: char) -> Seq<char> {
    if c == '&' {
        "&amp;"@
    } else if c == '"' {
        "&quot;"@
    } else if c == '<' {
        "&lt;"@
    } else {
        seq![c]
    }
}

/// A text as it stands in the value of an attribute.
pub open spec fn escaped(text: Seq<char>) -> Seq<char>
    decreases text.len(),
{
    if text.len() == 0 {
        Seq::empty()
    } else {
        escaped(text.drop_last()) + escaped_char(text.last())
    }
}

/// Attributes as they stand in a tag, in their order.
pub open spec fn attributes_text(attributes: Seq<(String, String)>) -> Seq<char>
    decreases attributes.len(),
{
    if attributes.len() == 0 {
        Seq::empty()
    } else {
        attributes_text(attributes.drop_last()) + " "@ + attributes.last().0@ + "=\""@ + escaped(
            attributes.last().1@,
        ) + "\""@
    }
}

/// A text inside a tag with attributes.
pub open spec fn tagged_text(
    tag: Seq<char>,
    attributes: Seq<(String, String)>,
    text: Seq<char>,
) -> Seq<char> {
    "<"@ + tag + attributes_text(attributes) + ">"@ + text + "</"@ + tag + ">"@
}

/// A message with the text of its content inside a tag, where there are both.
pub open spec fn tagged(
    message: MessageView,
    tag: Option<String>,
    attributes: Seq<(String, String)>,
) -> MessageView {
    match (tag, message.content) {
        (Some(tag), Some(content)) => MessageView {
            content: Some(
                JsonTree::Text(tagged_text(tag@, attributes, content_as_text(content))),
            ),
            ..message
        },
        _ => message,
    }
}

/// Appends a text as it stands in the value of an attribute.
fn append_escaped(out: &mut String, value: &str)
    ensures
        final(out)@ == old(out)@ + escaped(value@),
{
    assert(out@ =~= old(out)@ + escaped(value@.take(0)));
    for c in iter: value.chars()
        invariant
            iter.seq() == value@,
            out@ == old(out)@ + escaped(iter.seq().take(iter.index() as int)),
    {
        if c == '&' {
            out.append("&amp;");
        } else if c == '"' {
            out.append("&quot;");
        } else if c == '<' {
            out.append("&lt;");
        } else {
            out.push(c);
        }
        proof {
            let upto = value@.take(iter.index() + 1);
            assert(upto.drop_last() =~= value@.take(iter.index() as int));
            assert(upto.last() == c);
            assert(out@ =~= old(out)@ + escaped(upto));
        }
    }
    assert(value@.take(value@.len() as int) =~= value@);
}

/// A text inside a tag with attributes.
pub fn render_role_tag(tag: &str, attributes: &TextMap<String>, text: &str) -> (rendered: String)
    ensures
        rendered@ == tagged_text(tag@, attributes.entries(), text@),
{
    let mut out = "<".to_string();
    out.append(tag);
    let len: usize = attributes.len();
    let ghost entries = attributes.entries();
    let mut i: usize = 0;
    assert(out@ =~= "<"@ + tag@ + attributes_text(entries.take(0)));
    while i < len
        invariant
            i <= len,
            entries == attributes.entries(),
            len == entries.len(),
            out@ == "<"@ + tag@ + attributes_text(entries.take(i as int)),
        decreases len - i,
    {
        let entry = attributes.entry(i);
        out.append(" ");
        out.append(entry.0.as_str());
        out.append("=\"");
        append_escaped(&mut out, entry.1.as_str());
        out.append("\"");
        proof {
            let upto = entries.take(i + 1);
            assert(upto.drop_last() =~= entries.take(i as int));
            assert(upto.last() == *entry);
            assert(out@ =~= "<"@ + tag@ + attributes_text(upto));
        }
        i += 1;
    }
    assert(entries.take(len as int) =~= entries);
    out.append(">");
    out.append(text);
    out.append("</");
    out.append(tag);
    out.append(">");
    out
}

/// Puts the text of the content of a message inside a tag, where there are
/// both.
pub fn wrap_role_tag(message: &mut ChatMessage, tag: &Option<String>, attributes: &TextMap<String>)
    ensures
        final(message)@ == tagged(old(message)@, *tag, attributes.entries()),
{
    if let Some(tag) = tag {
        if let Some(content) = message.content.take() {
            let words = content_to_text(&content);
            let rendered = render_role_tag(tag.as_str(), attributes, words.as_str());
            message.content = Some(Json::Text(rendered));
        }
    }
}

/// Whether a rule applies at a position among the new messages.
pub open spec fn rule_applies(rule: RoleRule, index: int) -> bool {
    match rule.when {
        None => true,
        Some(When::Always) => true,
        Some(When::Leading) => index == 0,
        Some(When::Inline) => index > 0,
    }
}

/// The first rule that applies at a position.
pub open spec fn applying_rule(rules: Seq<RoleRule>, index: int) -> Option<RoleRule>
    decreases rules.len(),
{
    if rules.len() == 0 {
        None
    } else if rule_applies(rules[0], index) {
        Some(rules[0])
    } else {
        applying_rule(rules.drop_first(), index)
    }
}

/// The message that a rule leaves, or why the request is refused.
pub open spec fn ruled(message: MessageView, rule: RoleRule) -> Result<
    Option<MessageView>,
    Seq<char>,
> {
    match rule.action {
        Action::Reject => Err(
            "role \""@ + message.role + "\" is rejected by the model profile roles config"@,
        ),
        Action::Drop => Ok(None),
        Action::Accept => Ok(Some(tagged(message, rule.tag, rule.tag_attributes.entries()))),
        Action::Rewrite => Ok(
            Some(
                tagged(
                    MessageView {
                        role: match rule.target_role {
                            Some(target) => target@,
                            None => message.role,
                        },
                        ..message
                    },
                    rule.tag,
                    rule.tag_attributes.entries(),
                ),
            ),
        ),
    }
}

/// The message that a profile leaves at a position, or why the request is
/// refused.
pub open spec fn shaped_message(message: MessageView, index: nat, config: RolesConfig) -> Result<
    Option<MessageView>,
    Seq<char>,
> {
    match role_rules(config, message.role) {
        None => Err(
            "role \""@ + message.role
                + "\" is not permitted by the model profile roles config"@,
        ),
        Some(rules) => match applying_rule(rules, index as int) {
            None => Err(
                "role \""@ + message.role + "\" at index "@ + decimal(index)
                    + " matches no rule in the model profile roles config"@,
            ),
            Some(rule) => ruled(message, rule),
        },
    }
}

/// The messages that a profile leaves, or why the request is refused: the first
/// message that is at fault decides.
pub open spec fn shaped(messages: Seq<MessageView>, config: RolesConfig) -> Result<
    Seq<MessageView>,
    Seq<char>,
>
    decreases messages.len(),
{
    if messages.len() == 0 {
        Ok(Seq::empty())
    } else {
        match shaped(messages.drop_last(), config) {
            Err(message) => Err(message),
            Ok(out) => match shaped_message(
                messages.last(),
                (messages.len() - 1) as nat,
                config,
            ) {
                Err(message) => Err(message),
                Ok(None) => Ok(out),
                Ok(Some(message)) => Ok(out.push(message)),
            },
        }
    }
}

/// The first rule that applies at a position.
fn find_rule<'a>(rules: &'a Vec<RoleRule>, index: usize) -> (found: Option<&'a RoleRule>)
    ensures
        match found {
            Some(rule) => applying_rule(rules@, index as int) == Some(*rule),
            None => applying_rule(rules@, index as int) is None,
        },
{
    let mut i: usize = 0;
    assert(rules@.skip(0) =~= rules@);
    while i < rules.len()
        invariant
            i <= rules.len(),
            applying_rule(rules@, index as int) == applying_rule(
                rules@.skip(i as int),
                index as int,
            ),
        decreases rules.len() - i,
    {
        let rule = &rules[i];
        let applies = match rule.when {
            None | Some(When::Always) => true,
            Some(When::Leading) => index == 0,
            Some(When::Inline) => index > 0,
        };
        if applies {
            return Some(rule);
        }
        assert(rules@.skip(i as int).drop_first() =~= rules@.skip(i + 1));
        i += 1;
    }
    None
}

/// What the shaping of a message gave.
pub open spec fn message_outcome(outcome: AppResult<Option<ChatMessage>>) -> Result<
    Option<MessageView>,
    Seq<char>,
> {
    match outcome {
        Ok(Some(message)) => Ok(Some(message@)),
        Ok(None) => Ok(None),
        Err(error) => Err(error@),
    }
}

/// Refuses a request over a role.
fn refuse_role(before: &str, role: &str, after: &str) -> (error: AppError)
    ensures
        error@ == before@ + role@ + after@,
{
    let mut message = before.to_string();
    message.append(role);
    message.append(after);
    AppError::bad_request(message)
}

/// The message that a profile leaves at a position.
fn shape_message(message: ChatMessage, index: usize, roles: &RolesConfig) -> (outcome: AppResult<
    Option<ChatMessage>,
>)
    ensures
        message_outcome(outcome) == shaped_message(message@, index as nat, *roles),
{
    let mut message = message;
    let rules = match roles.rules_for(message.role.as_str()) {
        Some(rules) => rules,
        None => {
            return Err(
                refuse_role(
                    "role \"",
                    message.role.as_str(),
                    "\" is not permitted by the model profile roles config",
                ),
            );
        },
    };
    let rule = match find_rule(rules, index) {
        Some(rule) => rule,
        None => {
            let mut words = "role \"".to_string();
            words.append(message.role.as_str());
            words.append("\" at index ");
            words.append(decimal_text(index).as_str());
            words.append(" matches no rule in the model profile roles config");
            return Err(AppError::bad_request(words));
        },
    };
    match rule.action {
        Action::Reject => Err(
            refuse_role(
                "role \"",
                message.role.as_str(),
                "\" is rejected by the model profile roles config",
            ),
        ),
        Action::Drop => Ok(None),
        Action::Accept => {
            wrap_role_tag(&mut message, &rule.tag, &rule.tag_attributes);
            Ok(Some(message))
        },
        Action::Rewrite => {
            if let Some(target) = &rule.target_role {
                message.role = target.clone();
            }
            wrap_role_tag(&mut message, &rule.tag, &rule.tag_attributes);
            Ok(Some(message))
        },
    }
}

/// The reasoning that a message carries.
pub open spec fn message_reasoning(message: MessageView) -> Option<ReasoningView> {
    if message.reasoning_content is None && message.thinking is None {
        None
    } else {
        Some(carried_reasoning(message))
    }
}

/// The reasoning that messages carry, as one block.
pub open spec fn run_reasoning(messages: Seq<MessageView>) -> Option<ReasoningView>
    decreases messages.len(),
{
    if messages.len() == 0 {
        None
    } else {
        let before = run_reasoning(messages.drop_last());
        match message_reasoning(messages.last()) {
            Some(reasoning) => Some(reasoning_after(before, reasoning)),
            None => before,
        }
    }
}

/// The tool calls that a message carries.
pub open spec fn message_calls(message: MessageView) -> Seq<ToolCallView> {
    match message.tool_calls {
        Some(calls) => calls,
        None => Seq::empty(),
    }
}

/// The tool calls that messages carry, in order.
pub open spec fn run_calls(messages: Seq<MessageView>) -> Seq<ToolCallView>
    decreases messages.len(),
{
    if messages.len() == 0 {
        Seq::empty()
    } else {
        run_calls(messages.drop_last()) + message_calls(messages.last())
    }
}

/// Tool calls numbered from zero.
pub open spec fn numbered(calls: Seq<ToolCallView>) -> Seq<ToolCallView> {
    Seq::new(
        calls.len(),
        |i: int| ToolCallView { index: Some(i as usize), ..calls[i] },
    )
}

/// The one message that stands for a run of messages with one role: their
/// texts, their tool calls and their reasoning; none where they carry nothing.
pub open spec fn merged_run(role: Seq<char>, run: Seq<MessageView>) -> Option<MessageView> {
    let words = run_texts(run);
    let calls = run_calls(run);
    let reasoning = run_reasoning(run);
    if words.len() == 0 && calls.len() == 0 && reasoning is None {
        None
    } else {
        Some(
            MessageView {
                role,
                content: if words.len() == 0 {
                    None
                } else {
                    Some(JsonTree::Text(joined(words, "\n\n"@)))
                },
                tool_call_id: None,
                name: None,
                reasoning_content: optional_chat_parts(reasoning).0,
                thinking: optional_chat_parts(reasoning).1,
                tool_calls: if calls.len() == 0 {
                    None
                } else {
                    Some(numbered(calls))
                },
            },
        )
    }
}

/// A sequence with the one message, where there is one.
pub open spec fn optional_message(message: Option<MessageView>) -> Seq<MessageView> {
    match message {
        Some(message) => seq![message],
        None => Seq::empty(),
    }
}

/// Messages with each run of one of the roles as one message.
pub open spec fn merged_runs(messages: Seq<MessageView>, roles: Seq<Seq<char>>) -> Seq<MessageView>
    decreases messages.len(),
{
    if messages.len() == 0 {
        Seq::empty()
    } else if !roles.contains(messages[0].role) {
        seq![messages[0]] + merged_runs(messages.skip(1), roles)
    } else {
        proof {
            role_run_extent(messages, messages[0].role);
        }
        let len = role_run(messages, messages[0].role) as int;
        optional_message(merged_run(messages[0].role, messages.take(len))) + merged_runs(
            messages.skip(len),
            roles,
        )
    }
}

/// Whether a text is in a list.
fn contains_text(list: &[String], text: &str) -> (found: bool)
    ensures
        found == texts(list@).contains(text@),
{
    let mut i: usize = 0;
    while i < list.len()
        invariant
            i <= list.len(),
            forall|j: int| 0 <= j < i ==> texts(list@)[j] != text@,
        decreases list.len() - i,
    {
        if same_text(list[i].as_str(), text) {
            assert(texts(list@)[i as int] == text@);
            return true;
        }
        i += 1;
    }
    false
}

/// Numbers tool calls from zero.
fn number_calls(calls: Vec<ChatToolCall>) -> (renumbered: Vec<ChatToolCall>)
    ensures
        call_views(renumbered@) == numbered(call_views(calls@)),
{
    let mut renumbered: Vec<ChatToolCall> = Vec::new();
    for call in iter: calls
        invariant
            iter.seq() == calls@,
            renumbered.len() == iter.index(),
            forall|j: int|
                0 <= j < renumbered.len() ==> (#[trigger] renumbered@[j])@ == numbered(
                    call_views(calls@),
                )[j],
    {
        let position: usize = renumbered.len();
        renumbered.push(
            ChatToolCall {
                id: call.id,
                index: Some(position),
                kind: call.kind,
                function: call.function,
            },
        );
    }
    assert(call_views(renumbered@) =~= numbered(call_views(calls@)));
    renumbered
}

/// Makes one message of each run of messages with one of the roles. The
/// message carries the texts, the tool calls and the reasoning of the run.
///
/// Where every message of one of the roles has content other than an empty
/// text, a tool call or reasoning, no two neighbours have the same one of the
/// roles afterwards, and a second call changes nothing.
pub fn merge_adjacent_role_runs(messages: &mut Vec<ChatMessage>, roles: &[String])
    ensures
        message_views(final(messages)@) == merged_runs(
            message_views(old(messages)@),
            texts(roles@),
        ),
        merged_have_something(message_views(old(messages)@), texts(roles@)) ==> {
            &&& no_neighbours(message_views(final(messages)@), texts(roles@))
            &&& merged_runs(message_views(final(messages)@), texts(roles@)) == message_views(
                final(messages)@,
            )
        },
{
    let mut out: Vec<ChatMessage> = Vec::new();
    let ghost views = message_views(messages@);
    let ghost names = texts(roles@);
    let mut index: usize = 0;
    assert(views.skip(0) =~= views);
    assert(message_views(out@) + merged_runs(views, names) =~= merged_runs(views, names));
    while index < messages.len()
        invariant
            index <= messages.len(),
            views == message_views(messages@),
            names == texts(roles@),
            message_views(out@) + merged_runs(views.skip(index as int), names) == merged_runs(
                views,
                names,
            ),
            forall|i: int|
                0 <= i < index && names.contains((#[trigger] views[i]).role) && has_something(
                    views[i],
                ) ==> carries_something(views[i]),
        decreases messages.len() - index,
    {
        let ghost tail = views.skip(index as int);
        let ghost before = message_views(out@);
        let role = messages[index].role.clone();
        assert(tail[0] == messages@[index as int]@);
        if !contains_text(roles, role.as_str()) {
            out.push(messages[index].clone());
            index += 1;
            proof {
                assert(tail.skip(1) =~= views.skip(index as int));
                assert(before + (seq![tail[0]] + merged_runs(tail.skip(1), names))
                    =~= before.push(tail[0]) + merged_runs(tail.skip(1), names));
            }
        } else {
            let ghost start = index as int;
            let mut parts: Vec<String> = Vec::new();
            let mut tool_calls: Vec<ChatToolCall> = Vec::new();
            let mut reasoning: Option<PendingReasoning> = None;
            assert(texts(parts@) =~= run_texts(tail.take(0)));
            assert(call_views(tool_calls@) =~= run_calls(tail.take(0)));
            while index < messages.len() && same_text(messages[index].role.as_str(), role.as_str())
                invariant
                    0 <= start <= index <= messages.len(),
                    views == message_views(messages@),
                    tail == views.skip(start),
                    forall|i: int| 0 <= i < index - start ==> (#[trigger] tail[i]).role == role@,
                    texts(parts@) == run_texts(tail.take(index - start)),
                    call_views(tool_calls@) == run_calls(tail.take(index - start)),
                    pending_view(reasoning) == run_reasoning(tail.take(index - start)),
                    forall|i: int|
                        0 <= i < index && names.contains((#[trigger] views[i]).role)
                            && has_something(views[i]) ==> carries_something(views[i]),
                decreases messages.len() - index,
            {
                let message = &messages[index];
                proof {
                    let at = index - start;
                    assert(tail[at] == message@);
                    run_texts_push(tail.take(at), message@);
                    assert(tail.take(at + 1) =~= tail.take(at).push(message@));
                    assert(tail.take(at + 1).drop_last() =~= tail.take(at));
                    assert(tail.take(at + 1).last() == message@);
                }
                collect_text(&mut parts, message);
                match &message.tool_calls {
                    Some(calls) => {
                        extend_calls(&mut tool_calls, calls);
                    },
                    None => {
                        assert(run_calls(tail.take(index - start)) + message_calls(message@)
                            =~= run_calls(tail.take(index - start)));
                    },
                }
                if message.reasoning_content.is_some() || message.thinking.is_some() {
                    let carried = reasoning_of(message);
                    reasoning =
                    match reasoning {
                        Some(existing) => {
                            let mut existing = existing;
                            existing.append(carried.text, carried.signature);
                            Some(existing)
                        },
                        None => Some(carried),
                    };
                }
                index += 1;
            }
            let ghost len = index - start;
            proof {
                if len < tail.len() {
                    assert(tail[len] == messages@[index as int]@);
                }
                role_run_is(tail, role@, len as nat);
                assert(tail.skip(len) =~= views.skip(index as int));
            }
            if !parts.is_empty() || !tool_calls.is_empty() || reasoning.is_some() {
                let (reasoning_content, thinking) = optional_into_chat_parts(reasoning);
                out.push(
                    ChatMessage {
                        role,
                        content: if parts.is_empty() {
                            None
                        } else {
                            Some(Json::Text(join(&parts, "\n\n")))
                        },
                        tool_call_id: None,
                        name: None,
                        reasoning_content,
                        thinking,
                        tool_calls: if tool_calls.is_empty() {
                            None
                        } else {
                            Some(number_calls(tool_calls))
                        },
                    },
                );
            }
            proof {
                let merged = merged_run(tail[0].role, tail.take(len));
                assert(message_views(out@) =~= before + optional_message(merged));
                assert(before + (optional_message(merged) + merged_runs(tail.skip(len), names))
                    =~= (before + optional_message(merged)) + merged_runs(tail.skip(len), names));
            }
        }
    }
    assert(merged_runs(views.skip(index as int), names) =~= Seq::<MessageView>::empty());
    assert(message_views(out@) =~= merged_runs(views, names));
    proof {
        if merged_have_something(views, names) {
            merged_runs_have_no_neighbours(views, names);
            merged_runs_idempotent(views, names);
        }
    }
    *messages = out;
}

/// The messages that a role policy leaves, or why the request is refused:
/// first every message by its rule, then the runs of the roles to merge.
pub open spec fn role_shaped(messages: Seq<MessageView>, config: RolesConfig) -> Result<
    Seq<MessageView>,
    Seq<char>,
> {
    match shaped(messages, config) {
        Ok(out) => Ok(merged_runs(out, texts(config.merge_adjacent@))),
        Err(message) => Err(message),
    }
}

/// Without a role to merge nothing is merged.
pub proof fn merged_runs_without_roles(messages: Seq<MessageView>)
    ensures
        merged_runs(messages, Seq::empty()) == messages,
    decreases messages.len(),
{
    if messages.len() > 0 {
        merged_runs_without_roles(messages.skip(1));
        assert(seq![messages[0]] + messages.skip(1) =~= messages);
    }
    assert(merged_runs(messages, Seq::empty()) =~= messages);
}

proof fn shaped_error_stays(messages: Seq<MessageView>, config: RolesConfig, upto: int)
    requires
        0 <= upto <= messages.len(),
        shaped(messages.take(upto), config) is Err,
    ensures
        shaped(messages, config) == shaped(messages.take(upto), config),
    decreases messages.len() - upto,
{
    if upto < messages.len() {
        assert(messages.take(upto + 1).drop_last() =~= messages.take(upto));
        shaped_error_stays(messages, config, upto + 1);
    } else {
        assert(messages.take(upto) =~= messages);
    }
}

/// Applies a role policy, where there is one, to messages. A refusal leaves
/// none of them.
pub fn apply_role_rules(messages: &mut Vec<ChatMessage>, roles: Option<&RolesConfig>) -> (
outcome: AppResult<()>)
    ensures
        match (roles, outcome) {
            (None, Ok(_)) => final(messages)@ == old(messages)@,
            (None, Err(_)) => false,
            (Some(roles), Ok(_)) => role_shaped(message_views(old(messages)@), *roles) == Ok::<
                Seq<MessageView>,
                Seq<char>,
            >(message_views(final(messages)@)),
            (Some(roles), Err(error)) => {
                &&& role_shaped(message_views(old(messages)@), *roles) == Err::<
                    Seq<MessageView>,
                    Seq<char>,
                >(error@)
                &&& final(messages)@.len() == 0
            },
        },
{
    let config = match roles {
        Some(config) => config,
        None => {
            return Ok(());
        },
    };
    let ghost views = message_views(messages@);
    let mut drained: Vec<ChatMessage> = Vec::new();
    std::mem::swap(messages, &mut drained);
    let mut out: Vec<ChatMessage> = Vec::new();
    let count: usize = drained.len();
    let mut index: usize = 0;
    assert(message_views(out@) =~= Seq::<MessageView>::empty());
    for message in iter: drained
        invariant
            roles == Some(config),
            iter.seq() == drained@,
            count == drained@.len(),
            views == message_views(drained@),
            views == message_views(old(messages)@),
            messages@.len() == 0,
            index == iter.index(),
            shaped(views.take(index as int), *config) == Ok::<Seq<MessageView>, Seq<char>>(
                message_views(out@),
            ),
    {
        proof {
            assert(views.take(index + 1).drop_last() =~= views.take(index as int));
            assert(views.take(index + 1).last() == message@);
        }
        match shape_message(message, index, config) {
            Err(error) => {
                proof {
                    shaped_error_stays(views, *config, index + 1);
                }
                return Err(error);
            },
            Ok(None) => {},
            Ok(Some(message)) => {
                out.push(message);
            },
        }
        index += 1;
    }
    assert(views.take(views.len() as int) =~= views);
    *messages = out;
    if config.merge_adjacent.is_empty() {
        proof {
            assert(texts(config.merge_adjacent@) =~= Seq::<Seq<char>>::empty());
            merged_runs_without_roles(message_views(messages@));
        }
    } else {
        merge_adjacent_role_runs(messages, config.merge_adjacent.as_slice());
    }
    Ok(())
}

/// The value of an attribute neither ends it nor opens a tag.
pub proof fn escaped_stays_inside(text: Seq<char>)
    ensures
        !escaped(text).contains('"'),
        !escaped(text).contains('<'),
    decreases text.len(),
{
    if text.len() > 0 {
        let rest = escaped(text.drop_last());
        let last = escaped_char(text.last());
        escaped_stays_inside(text.drop_last());
        reveal_strlit("&amp;");
        reveal_strlit("&quot;");
        reveal_strlit("&lt;");
        assert(!last.contains('"'));
        assert(!last.contains('<'));
        assert forall|i: int| 0 <= i < escaped(text).len() implies escaped(text)[i] != '"'
            && escaped(text)[i] != '<' by {
            if i < rest.len() {
                assert(escaped(text)[i] == rest[i]);
                assert(rest.contains(rest[i]));
            } else {
                assert(escaped(text)[i] == last[i - rest.len()]);
                assert(last.contains(last[i - rest.len()]));
            }
        }
    }
}

/// Tool calls without their numbers.
pub open spec fn unnumbered(calls: Seq<ToolCallView>) -> Seq<ToolCallView> {
    calls.map_values(|call: ToolCallView| ToolCallView { index: None, ..call })
}

/// The tool calls of two parts of a conversation are those of the first, then
/// those of the second.
pub proof fn run_calls_of_parts(first: Seq<MessageView>, second: Seq<MessageView>)
    ensures
        run_calls(first + second) == run_calls(first) + run_calls(second),
    decreases second.len(),
{
    if second.len() == 0 {
        assert(first + second =~= first);
        assert(run_calls(first) + run_calls(second) =~= run_calls(first));
    } else {
        run_calls_of_parts(first, second.drop_last());
        assert((first + second).drop_last() =~= first + second.drop_last());
        assert((first + second).last() == second.last());
        assert(run_calls(first + second) =~= run_calls(first) + run_calls(second));
    }
}

/// The message that stands for a run carries the tool calls and the reasoning
/// of the run.
pub proof fn merged_run_carries(role: Seq<char>, run: Seq<MessageView>)
    ensures
        unnumbered(run_calls(optional_message(merged_run(role, run)))) == unnumbered(
            run_calls(run),
        ),
        all_reasoning(optional_message(merged_run(role, run))) == all_reasoning(run),
{
    reveal_with_fuel(run_calls, 2);
    reveal_with_fuel(all_reasoning, 2);
    run_reasoning_is_all(run);
    let merged = optional_message(merged_run(role, run));
    if let Some(message) = merged_run(role, run) {
        assert(merged.drop_last() =~= Seq::<MessageView>::empty());
        chat_parts_carry(message, run_reasoning(run));
        no_reasoning_neutral(all_reasoning(run));
        assert(run_calls(merged) =~= message_calls(message));
    }
    assert(unnumbered(run_calls(merged)) =~= unnumbered(run_calls(run)));
}

proof fn run_reasoning_is_all(messages: Seq<MessageView>)
    ensures
        reasoning_or_none(run_reasoning(messages)) == all_reasoning(messages),
    decreases messages.len(),
{
    if messages.len() > 0 {
        run_reasoning_is_all(messages.drop_last());
        no_reasoning_neutral(all_reasoning(messages.drop_last()));
        no_reasoning_neutral(carried_reasoning(messages.last()));
        if message_reasoning(messages.last()) is None {
            assert(carried_reasoning(messages.last()) =~= no_reasoning());
        }
    }
}

/// Merging runs loses no tool call and no reasoning, and keeps the order of
/// both.
pub proof fn merged_runs_keep(messages: Seq<MessageView>, roles: Seq<Seq<char>>)
    ensures
        unnumbered(run_calls(merged_runs(messages, roles))) == unnumbered(run_calls(messages)),
        all_reasoning(merged_runs(messages, roles)) == all_reasoning(messages),
    decreases messages.len(),
{
    if messages.len() > 0 {
        let role = messages[0].role;
        role_run_extent(messages, role);
        let len = if roles.contains(role) {
            role_run(messages, role) as int
        } else {
            1
        };
        let run = messages.take(len);
        let rest = messages.skip(len);
        let merged = if roles.contains(role) {
            optional_message(merged_run(role, run))
        } else {
            seq![messages[0]]
        };
        assert(run + rest =~= messages);
        if roles.contains(role) {
            merged_run_carries(role, run);
        } else {
            assert(run =~= merged);
        }
        merged_runs_keep(rest, roles);
        run_calls_of_parts(run, rest);
        run_calls_of_parts(merged, merged_runs(rest, roles));
        all_reasoning_of_parts(run, rest);
        all_reasoning_of_parts(merged, merged_runs(rest, roles));
        assert(unnumbered(run_calls(merged) + run_calls(merged_runs(rest, roles))) =~= unnumbered(
            run_calls(merged),
        ) + unnumbered(run_calls(merged_runs(rest, roles))));
        assert(unnumbered(run_calls(run) + run_calls(rest)) =~= unnumbered(run_calls(run))
            + unnumbered(run_calls(rest)));
    }
}

/// A role policy that drops none of the messages loses no tool call and no
/// reasoning, and keeps the order of both.
pub proof fn role_shaped_keeps(messages: Seq<MessageView>, config: RolesConfig)
    requires
        role_shaped(messages, config) is Ok,
        forall|i: int|
            0 <= i < messages.len() ==> shaped_message(#[trigger] messages[i], i as nat, config)
                != Ok::<Option<MessageView>, Seq<char>>(None),
    ensures
        unnumbered(run_calls(role_shaped(messages, config)->Ok_0)) == unnumbered(
            run_calls(messages),
        ),
        all_reasoning(role_shaped(messages, config)->Ok_0) == all_reasoning(messages),
{
    shaped_keeps(messages, config);
    merged_runs_keep(shaped(messages, config)->Ok_0, texts(config.merge_adjacent@));
}

proof fn shaped_keeps(messages: Seq<MessageView>, config: RolesConfig)
    requires
        shaped(messages, config) is Ok,
        forall|i: int|
            0 <= i < messages.len() ==> shaped_message(#[trigger] messages[i], i as nat, config)
                != Ok::<Option<MessageView>, Seq<char>>(None),
    ensures
        run_calls(shaped(messages, config)->Ok_0) == run_calls(messages),
        all_reasoning(shaped(messages, config)->Ok_0) == all_reasoning(messages),
    decreases messages.len(),
{
    if messages.len() > 0 {
        let rest = messages.drop_last();
        let last = messages.len() - 1;
        assert forall|i: int| 0 <= i < rest.len() implies shaped_message(
            #[trigger] rest[i],
            i as nat,
            config,
        ) != Ok::<Option<MessageView>, Seq<char>>(None) by {
            assert(rest[i] == messages[i]);
        }
        shaped_keeps(rest, config);
        let after = shaped(messages, config)->Ok_0;
        assert(shaped_message(messages[last], last as nat, config) != Ok::<
            Option<MessageView>,
            Seq<char>,
        >(None));
        assert(after.drop_last() =~= shaped(rest, config)->Ok_0);
        assert(carried_reasoning(after.last()) =~= carried_reasoning(messages.last()));
    }
}

/// Whether a message carries a text, a tool call or reasoning.
pub open spec fn carries_something(message: MessageView) -> bool {
    ||| message_text(message).len() > 0
    ||| message_calls(message).len() > 0
    ||| message_reasoning(message) is Some
}

/// Whether every message of one of the roles carries something.
pub open spec fn merged_carry_something(
    messages: Seq<MessageView>,
    roles: Seq<Seq<char>>,
) -> bool {
    forall|i: int|
        0 <= i < messages.len() && roles.contains((#[trigger] messages[i]).role)
            ==> carries_something(messages[i])
}

/// Whether no two neighbours have the same one of the roles.
pub open spec fn no_neighbours(messages: Seq<MessageView>, roles: Seq<Seq<char>>) -> bool {
    forall|i: int|
        0 <= i < messages.len() - 1 && roles.contains((#[trigger] messages[i]).role)
            ==> messages[i].role != messages[i + 1].role
}

proof fn merged_runs_first_role(messages: Seq<MessageView>, roles: Seq<Seq<char>>)
    requires
        merged_carry_something(messages, roles),
        messages.len() > 0,
    ensures
        merged_runs(messages, roles).len() > 0,
        merged_runs(messages, roles)[0].role == messages[0].role,
{
    let role = messages[0].role;
    role_run_extent(messages, role);
    if roles.contains(role) {
        merged_run_is_there(role, messages.take(role_run(messages, role) as int));
    }
}

proof fn merged_run_is_there(role: Seq<char>, run: Seq<MessageView>)
    requires
        run.len() > 0,
        carries_something(run.last()),
    ensures
        merged_run(role, run) is Some,
{
    assert(run =~= run.drop_last().push(run.last()));
    run_texts_push(run.drop_last(), run.last());
}

/// Where every message of one of the roles that are merged carries something,
/// no two neighbours have the same one of those roles afterwards.
pub proof fn merged_runs_have_no_neighbours(messages: Seq<MessageView>, roles: Seq<Seq<char>>)
    requires
        merged_carry_something(messages, roles),
    ensures
        no_neighbours(merged_runs(messages, roles), roles),
    decreases messages.len(),
{
    if messages.len() > 0 {
        let role = messages[0].role;
        let result = merged_runs(messages, roles);
        role_run_extent(messages, role);
        let len = if roles.contains(role) {
            role_run(messages, role) as int
        } else {
            1
        };
        let rest = messages.skip(len);
        let after = merged_runs(rest, roles);
        assert(merged_carry_something(rest, roles));
        merged_runs_have_no_neighbours(rest, roles);
        merged_runs_first_role(messages, roles);
        if rest.len() > 0 {
            merged_runs_first_role(rest, roles);
        }
        assert forall|i: int|
            0 <= i < result.len() - 1 && roles.contains((#[trigger] result[i]).role) implies result[
        i].role != result[i + 1].role by {
            assert(result[i + 1] == after[i]);
            if i > 0 {
                assert(result[i] == after[i - 1]);
            }
        }
    }
}

/// The message that stands for a run stands for itself as a run of one.
proof fn merged_run_again(role: Seq<char>, run: Seq<MessageView>)
    requires
        merged_run(role, run) is Some,
    ensures
        merged_run(role, seq![merged_run(role, run)->Some_0]) == merged_run(role, run),
{
    reveal_with_fuel(run_calls, 2);
    reveal_with_fuel(run_reasoning, 2);
    let message = merged_run(role, run)->Some_0;
    let alone = seq![message];
    let empty = Seq::<MessageView>::empty();
    assert(alone.drop_last() =~= empty);
    assert(alone =~= empty.push(message));
    run_texts_push(empty, message);
    assert(run_texts(empty) =~= Seq::<Seq<char>>::empty());
    if run_texts(run).len() > 0 {
        run_texts_joined_not_empty(run, "\n\n"@);
        assert(run_texts(alone) =~= seq![joined(run_texts(run), "\n\n"@)]);
    }
    assert(run_calls(alone) =~= message_calls(message));
    assert(numbered(numbered(run_calls(run))) =~= numbered(run_calls(run)));
    assert(merged_run(role, alone)->Some_0 =~= message);
}

/// Where every message of one of the roles that are merged carries something,
/// merging a second time changes nothing.
pub proof fn merged_runs_idempotent(messages: Seq<MessageView>, roles: Seq<Seq<char>>)
    requires
        merged_carry_something(messages, roles),
    ensures
        merged_runs(merged_runs(messages, roles), roles) == merged_runs(messages, roles),
    decreases messages.len(),
{
    if messages.len() > 0 {
        let role = messages[0].role;
        let result = merged_runs(messages, roles);
        role_run_extent(messages, role);
        let len = if roles.contains(role) {
            role_run(messages, role) as int
        } else {
            1
        };
        let rest = messages.skip(len);
        let after = merged_runs(rest, roles);
        assert(merged_carry_something(rest, roles));
        merged_runs_idempotent(rest, roles);
        merged_runs_first_role(messages, roles);
        assert(result.skip(1) =~= after);
        if roles.contains(role) {
            let run = messages.take(len);
            merged_run_again(role, run);
            if rest.len() > 0 {
                merged_runs_first_role(rest, roles);
                assert(result[1] == after[0]);
            }
            role_run_is(result, role, 1);
            assert(result.take(1) =~= seq![result[0]]);
        }
        assert(merged_runs(result, roles) =~= result);
    }
}

/// Whether a message has content other than an empty text, a tool call, or
/// reasoning.
pub open spec fn has_something(message: MessageView) -> bool {
    ||| has_content(message)
    ||| message_calls(message).len() > 0
    ||| message.reasoning_content is Some
    ||| message.thinking is Some
}

/// Whether every message of one of the roles has something.
pub open spec fn merged_have_something(
    messages: Seq<MessageView>,
    roles: Seq<Seq<char>>,
) -> bool {
    forall|i: int|
        0 <= i < messages.len() && roles.contains((#[trigger] messages[i]).role) ==> has_something(
            messages[i],
        )
}

} // verus!

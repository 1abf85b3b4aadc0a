//! What a role policy makes of each message, and what becomes of messages that
//! are made one.
use crate::chat::{MessageView, ToolCallView};
use crate::config::{RoleRule, RolesConfig, When};
use crate::json::JsonTree;
use crate::laws::conversation::signed_whole;
use crate::laws::texts::{all_words, lines_of, run_texts_hold_words, stands_at, words_of};
use crate::messages::{hoisted, role_run, role_run_extent, run_texts};
use crate::reasoning::{all_reasoning, carried_reasoning, ReasoningView};
use crate::roles::{
    applying_rule, attributes_text, escaped, escaped_char, merged_run, merged_run_carries,
    merged_runs, message_calls, message_reasoning, numbered, optional_message, role_shaped,
    rule_applies, run_calls, run_reasoning, shaped, shaped_message, tagged_text, unnumbered,
};
use crate::text::{decimal, texts};
use vstd::prelude::*;

verus! {

/// Whether a rule is for a position among the new messages.
pub open spec fn fits(rule: RoleRule, index: int) -> bool {
    match rule.when {
        None | Some(When::Always) => true,
        Some(When::Leading) => index == 0,
        Some(When::Inline) => index > 0,
    }
}

/// The rules for a role: its own where it has a list of them, and those of `*`
/// where it has none.
pub open spec fn rules_of(config: RolesConfig, role: Seq<char>) -> Option<Seq<RoleRule>> {
    if config.rules@.contains_key(role) {
        Some(config.rules@[role]@)
    } else if config.rules@.contains_key("*"@) {
        Some(config.rules@["*"@]@)
    } else {
        None
    }
}

/// Whether a rule is the first of the rules for a role that fits a position.
pub open spec fn governs(
    config: RolesConfig,
    role: Seq<char>,
    index: int,
    rule: RoleRule,
) -> bool {
    exists|k: int|
        {
            &&& rules_of(config, role) is Some
            &&& 0 <= k < rules_of(config, role)->Some_0.len()
            &&& #[trigger] rules_of(config, role)->Some_0[k] == rule
            &&& fits(rule, index)
            &&& forall|j: int|
                0 <= j < k ==> !fits(#[trigger] rules_of(config, role)->Some_0[j], index)
        }
}

/// An attribute as it stands in a tag.
pub open spec fn attribute_piece(attribute: (String, String)) -> Seq<char> {
    " "@ + attribute.0@ + "=\""@ + escaped(attribute.1@) + "\""@
}

/// Whether a text is the attributes one behind the other, in their order.
pub open spec fn attributes_at(
    text: Seq<char>,
    attributes: Seq<(String, String)>,
    at: Seq<int>,
) -> bool {
    &&& at.len() == attributes.len() + 1
    &&& at[0] == 0
    &&& at[attributes.len() as int] == text.len()
    &&& forall|i: int|
        0 <= i < attributes.len() ==> {
            &&& stands_at(text, attribute_piece(#[trigger] attributes[i]), at[i])
            &&& at[i + 1] == at[i] + attribute_piece(attributes[i]).len()
        }
}

/// Whether a text is words inside a tag: it starts with the name of the tag,
/// has the attributes behind it, then the words, and ends with the closing tag.
pub open spec fn wraps(
    text: Seq<char>,
    tag: Seq<char>,
    attributes: Seq<(String, String)>,
    words: Seq<char>,
) -> bool {
    exists|inside: Seq<char>, at: Seq<int>|
        {
            &&& #[trigger] attributes_at(inside, attributes, at)
            &&& stands_at(text, "<"@ + tag, 0)
            &&& stands_at(text, inside, 1int + tag.len())
            &&& text[1int + tag.len() + inside.len()] == '>'
            &&& stands_at(text, words, 2int + tag.len() + inside.len())
            &&& stands_at(text, "</"@ + tag + ">"@, 2int + tag.len() + inside.len() + words.len())
            &&& text.len() == 2 + tag.len() + inside.len() + words.len() + 3 + tag.len()
        }
}

/// Whether a message is what a rule that lets it through leaves of it. An
/// accepting rule keeps its role and a rewriting rule gives it the target role,
/// where it has one; either writes its tag round the content, where there are
/// both; nothing else changes.
pub open spec fn let_through_as(message: MessageView, rule: RoleRule, after: MessageView) -> bool {
    &&& rule.action is Accept || rule.action is Rewrite
    &&& after.role == if rule.action is Rewrite && rule.target_role is Some {
        rule.target_role->Some_0@
    } else {
        message.role
    }
    &&& match (rule.tag, message.content) {
        (Some(tag), Some(_)) => after.content matches Some(JsonTree::Text(text)) && wraps(
            text,
            tag@,
            rule.tag_attributes.entries(),
            words_of(message),
        ),
        _ => after.content == message.content,
    }
    &&& after.tool_call_id == message.tool_call_id
    &&& after.name == message.name
    &&& after.reasoning_content == message.reasoning_content
    &&& after.thinking == message.thinking
    &&& after.tool_calls == message.tool_calls
}

proof fn attributes_text_at(attributes: Seq<(String, String)>) -> (at: Seq<int>)
    ensures
        attributes_at(attributes_text(attributes), attributes, at),
    decreases attributes.len(),
{
    if attributes.len() == 0 {
        seq![0int]
    } else {
        let rest = attributes.drop_last();
        let earlier = attributes_text_at(rest);
        let before = attributes_text(rest);
        let text = attributes_text(attributes);
        let piece = attribute_piece(attributes.last());
        assert(text =~= before + piece);
        let at = earlier.push(text.len() as int);
        assert forall|i: int| 0 <= i < attributes.len() implies {
            &&& stands_at(text, attribute_piece(#[trigger] attributes[i]), at[i])
            &&& at[i + 1] == at[i] + attribute_piece(attributes[i]).len()
        } by {
            if i < rest.len() {
                assert(rest[i] == attributes[i]);
                assert(stands_at(before, attribute_piece(rest[i]), earlier[i]));
                assert forall|k: int| 0 <= k < attribute_piece(attributes[i]).len() implies text[at[i]
                    + k] == #[trigger] attribute_piece(attributes[i])[k] by {
                    assert(before[earlier[i] + k] == attribute_piece(rest[i])[k]);
                }
            }
        }
        at
    }
}

/// A text inside a tag is the words inside the tag with its attributes.
pub proof fn tagged_text_wraps(tag: Seq<char>, attributes: Seq<(String, String)>, words: Seq<char>)
    ensures
        wraps(tagged_text(tag, attributes, words), tag, attributes, words),
{
    reveal_strlit("<");
    reveal_strlit("</");
    reveal_strlit(">");
    let inside = attributes_text(attributes);
    let at = attributes_text_at(attributes);
    let text = tagged_text(tag, attributes, words);
    assert(attributes_at(inside, attributes, at));
    let opening = "<"@ + tag;
    let closing = "</"@ + tag + ">"@;
    assert(text =~= opening + inside + ">"@ + words + closing);
}

/// The value of an attribute is escaped character by character: an ampersand, a
/// quote and an angle bracket become their entities and every other character
/// stays.
pub proof fn escaped_character_by_character(first: Seq<char>, second: Seq<char>, c: char)
    ensures
        escaped(first + second) == escaped(first) + escaped(second),
        escaped(seq![c]) == if c == '&' {
            "&amp;"@
        } else if c == '"' {
            "&quot;"@
        } else if c == '<' {
            "&lt;"@
        } else {
            seq![c]
        },
    decreases second.len(),
{
    reveal_with_fuel(escaped, 2);
    assert(seq![c].drop_last() =~= Seq::<char>::empty());
    assert(escaped(seq![c]) =~= escaped_char(c));
    if second.len() == 0 {
        assert(first + second =~= first);
        assert(escaped(first) + escaped(second) =~= escaped(first));
    } else {
        escaped_character_by_character(first, second.drop_last(), c);
        assert((first + second).drop_last() =~= first + second.drop_last());
        assert((first + second).last() == second.last());
        assert(escaped(first + second) =~= escaped(first) + escaped(second));
    }
}

proof fn applying_rule_fits(rules: Seq<RoleRule>, index: int) -> (k: int)
    ensures
        match applying_rule(rules, index) {
            Some(rule) => {
                &&& 0 <= k < rules.len()
                &&& rules[k] == rule
                &&& fits(rule, index)
                &&& forall|j: int| 0 <= j < k ==> !fits(#[trigger] rules[j], index)
            },
            None => forall|j: int| 0 <= j < rules.len() ==> !fits(#[trigger] rules[j], index),
        },
    decreases rules.len(),
{
    if rules.len() == 0 {
        0
    } else if rule_applies(rules[0], index) {
        0
    } else {
        let rest = rules.drop_first();
        let k = applying_rule_fits(rest, index);
        assert forall|j: int|
            0 <= j < rules.len() && (applying_rule(rules, index) is None || j < k + 1) implies !fits(
            #[trigger] rules[j],
            index,
        ) by {
            if j > 0 {
                assert(rest[j - 1] == rules[j]);
            }
        }
        k + 1
    }
}

/// Whether words say why a role policy refuses a message at a position: there
/// are no rules for its role, none of them fits the position, or the one that
/// governs it rejects it.
pub open spec fn refused_with(
    config: RolesConfig,
    message: MessageView,
    index: nat,
    words: Seq<char>,
) -> bool {
    match rules_of(config, message.role) {
        None => words == "role \""@ + message.role
            + "\" is not permitted by the model profile roles config"@,
        Some(rules) => if forall|k: int| 0 <= k < rules.len() ==> !fits(#[trigger] rules[k], index as int) {
            words == "role \""@ + message.role + "\" at index "@ + decimal(index)
                + " matches no rule in the model profile roles config"@
        } else {
            &&& words == "role \""@ + message.role
                + "\" is rejected by the model profile roles config"@
            &&& exists|rule: RoleRule| #[trigger]
                governs(config, message.role, index as int, rule) && rule.action is Reject
        },
    }
}

/// A message is dropped, let through or refused as the rule that governs it
/// says: the first rule for its role that fits its position.
pub proof fn message_is_governed(message: MessageView, index: nat, config: RolesConfig)
    ensures
        match shaped_message(message, index, config) {
            Ok(Some(after)) => exists|rule: RoleRule| #[trigger]
                governs(config, message.role, index as int, rule) && let_through_as(
                    message,
                    rule,
                    after,
                ),
            Ok(None) => exists|rule: RoleRule| #[trigger]
                governs(config, message.role, index as int, rule) && rule.action is Drop,
            Err(words) => refused_with(config, message, index, words),
        },
{
    assert(crate::config::role_rules(config, message.role) == rules_of(config, message.role));
    if let Some(rules) = rules_of(config, message.role) {
        let k = applying_rule_fits(rules, index as int);
        if let Some(rule) = applying_rule(rules, index as int) {
            assert(rules_of(config, message.role)->Some_0[k] == rule);
            assert(governs(config, message.role, index as int, rule));
            if rule.tag is Some && message.content is Some {
                tagged_text_wraps(
                    rule.tag->Some_0@,
                    rule.tag_attributes.entries(),
                    words_of(message),
                );
            }
        }
    }
}

/// Two rules that govern one position are the same, so that a rule decides each
/// message alone.
pub proof fn one_rule_governs(
    config: RolesConfig,
    role: Seq<char>,
    index: int,
    one: RoleRule,
    other: RoleRule,
)
    requires
        governs(config, role, index, one),
        governs(config, role, index, other),
    ensures
        one == other,
{
    let rules = rules_of(config, role)->Some_0;
    let k = choose|k: int|
        0 <= k < rules.len() && #[trigger] rules[k] == one && forall|j: int|
            0 <= j < k ==> !fits(#[trigger] rules[j], index);
    let n = choose|n: int|
        0 <= n < rules.len() && #[trigger] rules[n] == other && forall|j: int|
            0 <= j < n ==> !fits(#[trigger] rules[j], index);
    if k < n {
        assert(!fits(rules[k], index));
    } else if n < k {
        assert(!fits(rules[n], index));
    }
}

/// Whether messages are what the rules of a policy leave of others: each message
/// is dropped or let through as the rule that governs it says, in the order of
/// the messages, and nothing is added.
pub open spec fn governed_as(
    messages: Seq<MessageView>,
    config: RolesConfig,
    out: Seq<MessageView>,
    at: Seq<int>,
) -> bool {
    &&& at.len() == messages.len()
    &&& forall|i: int|
        0 <= i < messages.len() ==> governed_at(#[trigger] messages[i], i, config, out, at[i])
    &&& forall|i: int, j: int|
        #![trigger at[i], at[j]]
        0 <= i < j < messages.len() && at[i] >= 0 && at[j] >= 0 ==> at[i] < at[j]
    &&& forall|k: int| 0 <= k < out.len() ==> #[trigger] at.contains(k)
}

/// Whether a message is dropped, or let through to a place, as the rule that
/// governs it says.
pub open spec fn governed_at(
    message: MessageView,
    index: int,
    config: RolesConfig,
    out: Seq<MessageView>,
    at: int,
) -> bool {
    exists|rule: RoleRule|
        {
            &&& #[trigger] governs(config, message.role, index, rule)
            &&& if rule.action is Drop {
                at < 0
            } else {
                0 <= at < out.len() && let_through_as(message, rule, out[at])
            }
        }
}

proof fn shaped_is_governed(messages: Seq<MessageView>, config: RolesConfig) -> (at: Seq<int>)
    requires
        shaped(messages, config) is Ok,
    ensures
        governed_as(messages, config, shaped(messages, config)->Ok_0, at),
    decreases messages.len(),
{
    if messages.len() == 0 {
        Seq::empty()
    } else {
        let rest = messages.drop_last();
        let last = messages.len() - 1;
        let earlier = shaped_is_governed(rest, config);
        let before = shaped(rest, config)->Ok_0;
        let out = shaped(messages, config)->Ok_0;
        message_is_governed(messages[last], last as nat, config);
        let place: int = if shaped_message(messages[last], last as nat, config)->Ok_0 is Some {
            before.len() as int
        } else {
            -1
        };
        let at = earlier.push(place);
        assert forall|i: int| 0 <= i < messages.len() implies governed_at(
            #[trigger] messages[i],
            i,
            config,
            out,
            at[i],
        ) by {
            if i < last {
                assert(rest[i] == messages[i]);
                assert(governed_at(rest[i], i, config, before, earlier[i]));
                let rule = choose|rule: RoleRule|
                    {
                        &&& #[trigger] governs(config, rest[i].role, i, rule)
                        &&& if rule.action is Drop {
                            earlier[i] < 0
                        } else {
                            0 <= earlier[i] < before.len() && let_through_as(
                                rest[i],
                                rule,
                                before[earlier[i]],
                            )
                        }
                    };
                assert(governs(config, messages[i].role, i, rule));
                if !(rule.action is Drop) {
                    assert(out[at[i]] == before[earlier[i]]);
                }
            } else {
                assert(messages[i] == messages.last());
                if place >= 0 {
                    assert(out[place] == shaped_message(messages[last], last as nat, config)->Ok_0->Some_0);
                }
            }
        }
        assert forall|i: int, j: int|
            #![trigger at[i], at[j]]
            0 <= i < j < messages.len() && at[i] >= 0 && at[j] >= 0 implies at[i] < at[j] by {
            assert(at[i] == earlier[i]);
            assert(governed_at(rest[i], i, config, before, earlier[i]));
            if j < last {
                assert(at[j] == earlier[j]);
            }
        }
        assert forall|k: int| 0 <= k < out.len() implies #[trigger] at.contains(k) by {
            if k < before.len() {
                assert(earlier.contains(k));
                let i = choose|i: int| 0 <= i < earlier.len() && earlier[i] == k;
                assert(at[i] == k);
            } else {
                assert(at[last] == k);
            }
        }
        at
    }
}

/// Whether a message says nothing, calls nothing and carries no reasoning.
pub open spec fn says_nothing(message: MessageView) -> bool {
    &&& words_of(message).len() == 0
    &&& message.tool_calls is None || message.tool_calls->Some_0.len() == 0
    &&& message.reasoning_content is None
    &&& message.thinking is None
}

/// Whether a message stands for a run of messages: one message alone where its
/// role is not one of those that are merged, and otherwise the role of them
/// all, what each of them says on lines of its own, their tool calls numbered
/// from zero, and their reasoning.
pub open spec fn stands_for(
    run: Seq<MessageView>,
    roles: Seq<Seq<char>>,
    message: MessageView,
) -> bool {
    &&& run.len() > 0
    &&& if !roles.contains(run[0].role) {
        run.len() == 1 && message == run[0]
    } else {
        &&& forall|i: int| 0 <= i < run.len() ==> (#[trigger] run[i]).role == message.role
        &&& message.tool_call_id is None
        &&& message.name is None
        &&& match message.content {
            Some(JsonTree::Text(text)) => text.len() > 0 && lines_of(text, all_words(run)),
            Some(_) => false,
            None => forall|i: int|
                0 <= i < run.len() ==> words_of(#[trigger] run[i]).len() == 0,
        }
        &&& message.tool_calls is Some ==> message.tool_calls->Some_0.len() > 0
        &&& unnumbered(message_calls(message)) == unnumbered(run_calls(run))
        &&& forall|c: int|
            0 <= c < message_calls(message).len() ==> (#[trigger] message_calls(message)[c]).index
                == Some(c as usize)
        &&& carried_reasoning(message) == all_reasoning(run)
        &&& signed_whole(message)
        &&& message.reasoning_content is None ==> forall|i: int|
            0 <= i < run.len() ==> (#[trigger] run[i]).reasoning_content is None
                && run[i].thinking is None
    }
}

/// Whether messages are others with each run of one of the roles as one: the
/// runs stand in their order, each is as long as it can be, and what is in none
/// of them says nothing.
pub open spec fn merged_as(
    messages: Seq<MessageView>,
    roles: Seq<Seq<char>>,
    out: Seq<MessageView>,
    from: Seq<int>,
    upto: Seq<int>,
) -> bool {
    &&& from.len() == out.len()
    &&& upto.len() == out.len()
    &&& forall|k: int|
        0 <= k < out.len() ==> whole_run(messages, roles, #[trigger] out[k], from[k], upto[k])
    &&& forall|k: int, l: int|
        #![trigger upto[k], from[l]]
        0 <= k < l < out.len() ==> upto[k] <= from[l]
    &&& forall|i: int|
        0 <= i < messages.len() ==> in_a_run(i, from, upto) || (roles.contains(
            (#[trigger] messages[i]).role,
        ) && says_nothing(messages[i]))
}

/// Whether a message stands for the messages between two positions, which end
/// where the role ends.
pub open spec fn whole_run(
    messages: Seq<MessageView>,
    roles: Seq<Seq<char>>,
    message: MessageView,
    from: int,
    upto: int,
) -> bool {
    &&& 0 <= from < upto <= messages.len()
    &&& stands_for(messages.subrange(from, upto), roles, message)
    &&& roles.contains(messages[from].role) && upto < messages.len() ==> messages[upto].role
        != messages[from].role
}

/// Whether a position is in one of the runs.
pub open spec fn in_a_run(i: int, from: Seq<int>, upto: Seq<int>) -> bool {
    exists|k: int| 0 <= k < from.len() && #[trigger] from[k] <= i < upto[k]
}

proof fn merged_run_stands_for(
    role: Seq<char>,
    run: Seq<MessageView>,
    roles: Seq<Seq<char>>,
)
    requires
        run.len() > 0,
        roles.contains(role),
        forall|i: int| 0 <= i < run.len() ==> (#[trigger] run[i]).role == role,
    ensures
        match merged_run(role, run) {
            Some(message) => stands_for(run, roles, message),
            None => forall|i: int| 0 <= i < run.len() ==> says_nothing(#[trigger] run[i]),
        },
{
    run_texts_hold_words(run);
    run_has_calls(run);
    run_has_reasoning(run);
    match merged_run(role, run) {
        Some(message) => {
            merged_run_carries(role, run);
            let alone = seq![message];
            assert(alone =~= optional_message(merged_run(role, run)));
            assert(alone.drop_last() =~= Seq::<MessageView>::empty());
            reveal_with_fuel(run_calls, 2);
            reveal_with_fuel(all_reasoning, 2);
            assert(run_calls(alone) =~= message_calls(message));
            crate::reasoning::no_reasoning_neutral(carried_reasoning(message));
            if run_texts(run).len() > 0 {
                crate::messages::run_texts_joined_not_empty(run, "\n\n"@);
            }
            assert(stands_for(run, roles, message));
        },
        None => {},
    }
}

proof fn run_has_calls(run: Seq<MessageView>)
    ensures
        run_calls(run).len() == 0 ==> forall|i: int|
            0 <= i < run.len() ==> message_calls(#[trigger] run[i]).len() == 0,
    decreases run.len(),
{
    if run.len() > 0 {
        let rest = run.drop_last();
        run_has_calls(rest);
        if run_calls(run).len() == 0 {
            assert forall|i: int| 0 <= i < run.len() implies message_calls(
                #[trigger] run[i],
            ).len() == 0 by {
                if i < rest.len() {
                    assert(rest[i] == run[i]);
                }
            }
        }
    }
}

proof fn run_has_reasoning(run: Seq<MessageView>)
    ensures
        run_reasoning(run) is None ==> forall|i: int|
            0 <= i < run.len() ==> (#[trigger] run[i]).reasoning_content is None
                && run[i].thinking is None,
    decreases run.len(),
{
    if run.len() > 0 {
        let rest = run.drop_last();
        run_has_reasoning(rest);
        if run_reasoning(run) is None {
            assert forall|i: int| 0 <= i < run.len() implies (
            #[trigger] run[i]).reasoning_content is None && run[i].thinking is None by {
                if i < rest.len() {
                    assert(rest[i] == run[i]);
                }
            }
        }
    }
}

/// Merging makes one message of each run of one of the roles, which stands for
/// the run, and leaves every other message as it is; what is gone says nothing.
pub proof fn merged_runs_stand_for(messages: Seq<MessageView>, roles: Seq<Seq<char>>)
    ensures
        exists|from: Seq<int>, upto: Seq<int>| #[trigger]
            merged_as(messages, roles, merged_runs(messages, roles), from, upto),
{
    let runs = runs_of(messages, roles);
}

proof fn runs_of(messages: Seq<MessageView>, roles: Seq<Seq<char>>) -> (runs: (Seq<int>, Seq<int>))
    ensures
        merged_as(messages, roles, merged_runs(messages, roles), runs.0, runs.1),
    decreases messages.len(),
{
    if messages.len() == 0 {
        (Seq::empty(), Seq::empty())
    } else {
        let role = messages[0].role;
        role_run_extent(messages, role);
        let listed = roles.contains(role);
        let len = if listed {
            role_run(messages, role) as int
        } else {
            1
        };
        let run = messages.take(len);
        let rest = messages.skip(len);
        let (later_from, later_upto) = runs_of(rest, roles);
        let after = merged_runs(rest, roles);
        let out = merged_runs(messages, roles);
        let first = if listed {
            merged_run_stands_for(role, run, roles);
            merged_run(role, run)
        } else {
            Some(messages[0])
        };
        let n: int = if first is Some {
            1
        } else {
            0
        };
        let from = Seq::new(
            (n + later_from.len()) as nat,
            |k: int|
                if k < n {
                    0
                } else {
                    later_from[k - n] + len
                },
        );
        let upto = Seq::new(
            (n + later_upto.len()) as nat,
            |k: int|
                if k < n {
                    len
                } else {
                    later_upto[k - n] + len
                },
        );
        assert(out =~= optional_message(first) + after);
        assert forall|k: int| 0 <= k < out.len() implies whole_run(
            messages,
            roles,
            #[trigger] out[k],
            from[k],
            upto[k],
        ) by {
            if k < n {
                assert(messages.subrange(0, len) =~= run);
                assert(stands_for(run, roles, out[k]));
            } else {
                assert(out[k] == after[k - n]);
                assert(whole_run(
                    rest,
                    roles,
                    after[k - n],
                    later_from[k - n],
                    later_upto[k - n],
                ));
                assert(messages.subrange(from[k], upto[k]) =~= rest.subrange(
                    later_from[k - n],
                    later_upto[k - n],
                ));
                assert(messages[from[k]] == rest[later_from[k - n]]);
                if upto[k] < messages.len() {
                    assert(messages[upto[k]] == rest[later_upto[k - n]]);
                }
            }
        }
        assert forall|k: int, l: int|
            #![trigger upto[k], from[l]]
            0 <= k < l < out.len() implies upto[k] <= from[l] by {
            if k >= n {
                assert(later_upto[k - n] <= later_from[l - n]);
            } else {
                assert(whole_run(
                    rest,
                    roles,
                    after[l - n],
                    later_from[l - n],
                    later_upto[l - n],
                ));
            }
        }
        assert forall|i: int| 0 <= i < messages.len() implies in_a_run(i, from, upto) || (
        roles.contains((#[trigger] messages[i]).role) && says_nothing(messages[i])) by {
            if i < len {
                if n == 1 {
                    assert(from[0] <= i < upto[0]);
                } else {
                    assert(run[i] == messages[i]);
                }
            } else {
                assert(rest[i - len] == messages[i]);
                if in_a_run(i - len, later_from, later_upto) {
                    let k = choose|k: int|
                        0 <= k < later_from.len() && #[trigger] later_from[k] <= i - len
                            < later_upto[k];
                    assert(from[k + n] <= i < upto[k + n]);
                }
            }
        }
        (from, upto)
    }
}

/// What a policy leaves of messages is what its rules leave of them one by one,
/// with each run of the roles to merge as one; where it refuses, the first
/// message that no rule lets through is the reason, and the words say why.
pub proof fn policy_governs(messages: Seq<MessageView>, config: RolesConfig)
    ensures
        match role_shaped(messages, config) {
            Ok(out) => exists|ruled: Seq<MessageView>, at: Seq<int>, from: Seq<int>, upto: Seq<int>|
                #[trigger] governed_as(messages, config, ruled, at) && #[trigger] merged_as(
                    ruled,
                    texts(config.merge_adjacent@),
                    out,
                    from,
                    upto,
                ),
            Err(words) => exists|i: int|
                {
                    &&& 0 <= i < messages.len()
                    &&& #[trigger] refused_with(config, messages[i], i as nat, words)
                    &&& shaped(messages.take(i), config) is Ok
                },
        },
{
    match shaped(messages, config) {
        Ok(ruled) => {
            let at = shaped_is_governed(messages, config);
            let (from, upto) = runs_of(ruled, texts(config.merge_adjacent@));
            assert(governed_as(messages, config, ruled, at));
            assert(merged_as(
                ruled,
                texts(config.merge_adjacent@),
                role_shaped(messages, config)->Ok_0,
                from,
                upto,
            ));
        },
        Err(words) => {
            first_refusal(messages, config);
        },
    }
}

proof fn first_refusal(messages: Seq<MessageView>, config: RolesConfig)
    requires
        shaped(messages, config) is Err,
    ensures
        exists|i: int|
            {
                &&& 0 <= i < messages.len()
                &&& #[trigger] refused_with(
                    config,
                    messages[i],
                    i as nat,
                    shaped(messages, config)->Err_0,
                )
                &&& shaped(messages.take(i), config) is Ok
            },
    decreases messages.len(),
{
    let rest = messages.drop_last();
    let last = messages.len() - 1;
    if shaped(rest, config) is Err {
        first_refusal(rest, config);
        let words = shaped(rest, config)->Err_0;
        let i = choose|i: int|
            {
                &&& 0 <= i < rest.len()
                &&& #[trigger] refused_with(config, rest[i], i as nat, words)
                &&& shaped(rest.take(i), config) is Ok
            };
        assert(rest.take(i) =~= messages.take(i));
        assert(rest[i] == messages[i]);
        assert(shaped(messages, config)->Err_0 == words);
        assert(refused_with(config, messages[i], i as nat, shaped(messages, config)->Err_0));
    } else {
        message_is_governed(messages[last], last as nat, config);
        assert(messages.take(last) =~= rest);
        assert(messages[last] == messages.last());
        assert(refused_with(
            config,
            messages[last],
            last as nat,
            shaped(messages, config)->Err_0,
        ));
    }
}

/// Whether messages are others with the system messages at the front as one,
/// which says what each of them says on lines of its own, and which is not there
/// where they say nothing.
pub open spec fn front_is_one(messages: Seq<MessageView>, n: int, out: Seq<MessageView>) -> bool {
    let front = messages.take(n);
    let rest = messages.skip(n);
    &&& 0 <= n <= messages.len()
    &&& forall|i: int| 0 <= i < n ==> (#[trigger] messages[i]).role == "system"@
    &&& n < messages.len() ==> messages[n].role != "system"@
    &&& if forall|i: int| 0 <= i < n ==> words_of(#[trigger] messages[i]).len() == 0 {
        out == rest
    } else {
        &&& out.len() == rest.len() + 1
        &&& out.skip(1) == rest
        &&& out[0].role == "system"@
        &&& out[0].content matches Some(JsonTree::Text(text)) && lines_of(text, all_words(front))
        &&& out[0].tool_call_id is None
        &&& out[0].name is None
        &&& out[0].reasoning_content is None
        &&& out[0].thinking is None
        &&& out[0].tool_calls is None
    }
}

/// Hoisting makes one of the system messages at the front, which says what each
/// of them says, and leaves every other message as it is.
pub proof fn hoisted_front_is_one(messages: Seq<MessageView>)
    ensures
        exists|n: int| #[trigger] front_is_one(messages, n, hoisted(messages)),
{
    let n = role_run(messages, "system"@) as int;
    role_run_extent(messages, "system"@);
    let front = messages.take(n);
    let rest = messages.skip(n);
    run_texts_hold_words(front);
    assert forall|i: int| 0 <= i < n implies front[i] == messages[i] by {}
    if run_texts(front).len() == 0 {
        assert forall|i: int| 0 <= i < n implies words_of(#[trigger] messages[i]).len() == 0 by {
            assert(words_of(front[i]).len() == 0);
        }
        assert(hoisted(messages) =~= rest);
    } else {
        let i = choose|i: int| 0 <= i < front.len() && words_of(#[trigger] front[i]).len() != 0;
        assert(words_of(messages[i]).len() != 0);
        assert(hoisted(messages).skip(1) =~= rest);
    }
    assert(front_is_one(messages, n, hoisted(messages)));
}

/// The tool calls of one message are those that it has, and numbering them
/// changes nothing but their numbers, which count from zero.
pub proof fn calls_of_one(message: MessageView, calls: Seq<ToolCallView>)
    ensures
        run_calls(seq![message]) == match message.tool_calls {
            Some(calls) => calls,
            None => Seq::empty(),
        },
        numbered(calls).len() == calls.len(),
        forall|i: int|
            0 <= i < calls.len() ==> #[trigger] numbered(calls)[i] == (ToolCallView {
                index: Some(i as usize),
                ..calls[i]
            }),
        unnumbered(calls).len() == calls.len(),
        forall|i: int|
            0 <= i < calls.len() ==> #[trigger] unnumbered(calls)[i] == (ToolCallView {
                index: None,
                ..calls[i]
            }),
{
    reveal_with_fuel(run_calls, 2);
    assert(seq![message].drop_last() =~= Seq::<MessageView>::empty());
    assert(run_calls(seq![message]) =~= message_calls(message));
}

/// The reasoning of one message is the text and the signature that it carries.
pub proof fn reasoning_of_one(message: MessageView)
    ensures
        carried_reasoning(message) == (ReasoningView {
            text: match message.reasoning_content {
                Some(text) => text,
                None => Seq::empty(),
            },
            signature: match message.thinking {
                Some(thinking) => thinking.signature,
                None => None,
            },
        }),
        all_reasoning(seq![message]) == carried_reasoning(message),
        message_reasoning(message) is None <==> message.reasoning_content is None
            && message.thinking is None,
{
    reveal_with_fuel(all_reasoning, 2);
    assert(seq![message].drop_last() =~= Seq::<MessageView>::empty());
    crate::reasoning::no_reasoning_neutral(carried_reasoning(message));
}

} // verus!

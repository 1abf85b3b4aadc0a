//! Runs of messages with one role, and the texts they hold.
use crate::chat::{message_views, plain_message, ChatMessage, MessageView};
use crate::content::{content_as_text, content_to_text};
use crate::json::{Json, JsonTree};
use crate::text::{join, joined, push_nonempty, same_text, texts, without_empty};
use vstd::prelude::*;

verus! {

broadcast use crate::text::without_empty_push, crate::chat::message_views_push;

/// How many messages at the front have a role.
pub open spec fn role_run(messages: Seq<MessageView>, role: Seq<char>) -> nat
    decreases messages.len(),
{
    if messages.len() > 0 && messages[0].role == role {
        1 + role_run(messages.drop_first(), role)
    } else {
        0
    }
}

/// The front run consists of messages with the role and ends before one with
/// another.
pub proof fn role_run_extent(messages: Seq<MessageView>, role: Seq<char>)
    ensures
        role_run(messages, role) <= messages.len(),
        forall|i: int| 0 <= i < role_run(messages, role) ==> (#[trigger] messages[i]).role == role,
        role_run(messages, role) < messages.len() ==> messages[role_run(messages, role) as int].role
            != role,
    decreases messages.len(),
{
    if messages.len() > 0 && messages[0].role == role {
        let rest = messages.drop_first();
        role_run_extent(rest, role);
        assert forall|i: int| 0 <= i < role_run(messages, role) implies (#[trigger] messages[i]).role
            == role by {
            if i > 0 {
                assert(messages[i] == rest[i - 1]);
            }
        }
    }
}

/// A front run is known by its extent.
pub proof fn role_run_is(messages: Seq<MessageView>, role: Seq<char>, len: nat)
    requires
        len <= messages.len(),
        forall|i: int| 0 <= i < len ==> (#[trigger] messages[i]).role == role,
        len < messages.len() ==> messages[len as int].role != role,
    ensures
        role_run(messages, role) == len,
    decreases len,
{
    if len > 0 {
        assert(messages[0].role == role);
        let rest = messages.drop_first();
        assert forall|i: int| 0 <= i < len - 1 implies (#[trigger] rest[i]).role == role by {
            assert(rest[i] == messages[i + 1]);
        }
        role_run_is(rest, role, (len - 1) as nat);
    }
}

/// The text of the content of a message, empty where it has none.
pub open spec fn message_text(message: MessageView) -> Seq<char> {
    match message.content {
        Some(content) => content_as_text(content),
        None => Seq::empty(),
    }
}

/// Whether a message has content other than an empty text.
pub open spec fn has_content(message: MessageView) -> bool {
    match message.content {
        Some(JsonTree::Text(text)) => text.len() > 0,
        Some(_) => true,
        None => false,
    }
}

/// The texts of messages that are not empty.
pub open spec fn run_texts(messages: Seq<MessageView>) -> Seq<Seq<char>> {
    without_empty(messages.map_values(|message: MessageView| message_text(message)))
}

/// One message more is one text more, where it is not empty.
pub proof fn run_texts_push(messages: Seq<MessageView>, message: MessageView)
    ensures
        run_texts(messages.push(message)) == if message_text(message).len() == 0 {
            run_texts(messages)
        } else {
            run_texts(messages).push(message_text(message))
        },
{
    assert(messages.push(message).map_values(|message: MessageView| message_text(message))
        =~= messages.map_values(|message: MessageView| message_text(message)).push(
        message_text(message),
    ));
}

/// Adds the text of a message to others where it is not empty; that of content
/// other than an empty text never is.
pub fn collect_text(parts: &mut Vec<String>, message: &ChatMessage)
    ensures
        texts(final(parts)@) == if message_text(message@).len() == 0 {
            texts(old(parts)@)
        } else {
            texts(old(parts)@).push(message_text(message@))
        },
        has_content(message@) ==> message_text(message@).len() > 0,
{
    if let Some(content) = &message.content {
        let words = content_to_text(content);
        push_nonempty(parts, &words);
    }
}

/// Messages with the system messages at the front as one: their texts that are
/// not empty, with blank lines between them. Where there is no such text the
/// system messages at the front are gone.
pub open spec fn hoisted(messages: Seq<MessageView>) -> Seq<MessageView> {
    let len = role_run(messages, "system"@);
    let words = run_texts(messages.take(len as int));
    if len == 0 {
        messages
    } else if words.len() == 0 {
        messages.skip(len as int)
    } else {
        seq![plain_message("system"@, Some(JsonTree::Text(joined(words, "\n\n"@))))]
            + messages.skip(len as int)
    }
}

/// Makes one of the system messages at the front and leaves every other
/// message as it is.
pub fn hoist_system_messages(messages: &mut Vec<ChatMessage>)
    ensures
        message_views(final(messages)@) == hoisted(message_views(old(messages)@)),
{
    let ghost views = message_views(messages@);
    let mut prefix_end: usize = 0;
    let mut system_texts: Vec<String> = Vec::new();
    assert(texts(system_texts@) =~= run_texts(views.take(0)));
    while prefix_end < messages.len() && same_text(messages[prefix_end].role.as_str(), "system")
        invariant
            prefix_end <= messages.len(),
            views == message_views(messages@),
            forall|i: int| 0 <= i < prefix_end ==> (#[trigger] views[i]).role == "system"@,
            texts(system_texts@) == run_texts(views.take(prefix_end as int)),
        decreases messages.len() - prefix_end,
    {
        collect_text(&mut system_texts, &messages[prefix_end]);
        proof {
            run_texts_push(views.take(prefix_end as int), views[prefix_end as int]);
            assert(views.take(prefix_end + 1) =~= views.take(prefix_end as int).push(
                views[prefix_end as int],
            ));
        }
        prefix_end += 1;
    }
    proof {
        role_run_is(views, "system"@, prefix_end as nat);
    }
    if prefix_end == 0 {
        return;
    }
    let mut rest = messages.split_off(prefix_end);
    let ghost kept = rest@;
    assert(message_views(kept) =~= views.skip(prefix_end as int));
    messages.clear();
    if !system_texts.is_empty() {
        let words = join(&system_texts, "\n\n");
        messages.push(ChatMessage::plain("system", Some(Json::Text(words))));
    }
    let ghost front = message_views(messages@);
    messages.append(&mut rest);
    assert(message_views(messages@) =~= front + message_views(kept));
    assert(message_views(messages@) =~= hoisted(views));
}

/// Making one of the system messages at the front leaves every message behind
/// them as it is, system messages among them, and at most one before it.
pub proof fn hoisted_keeps_the_rest(messages: Seq<MessageView>)
    ensures
        ({
            let rest = messages.skip(role_run(messages, "system"@) as int);
            ||| hoisted(messages) == rest
            ||| hoisted(messages).len() == rest.len() + 1 && hoisted(messages)[0].role == "system"@
                && hoisted(messages).skip(1) == rest
        }),
{
    let len = role_run(messages, "system"@) as int;
    role_run_extent(messages, "system"@);
    let rest = messages.skip(len);
    if len == 0 {
        assert(rest =~= messages);
    } else if hoisted(messages).len() > rest.len() {
        assert(hoisted(messages).skip(1) =~= rest);
    }
}

/// Making one of the system messages at the front a second time changes
/// nothing.
pub proof fn hoisted_idempotent(messages: Seq<MessageView>)
    ensures
        hoisted(hoisted(messages)) == hoisted(messages),
{
    let len = role_run(messages, "system"@) as int;
    role_run_extent(messages, "system"@);
    let words = run_texts(messages.take(len));
    let once = hoisted(messages);
    if len > 0 {
        if words.len() == 0 {
            role_run_is(once, "system"@, 0);
        } else {
            let first = plain_message(
                "system"@,
                Some(JsonTree::Text(joined(words, "\n\n"@))),
            );
            if once.len() > 1 {
                assert(once[1] == messages[len]);
            }
            role_run_is(once, "system"@, 1);
            run_texts_joined_not_empty(messages.take(len), "\n\n"@);
            assert(once.take(1) =~= Seq::<MessageView>::empty().push(first));
            run_texts_push(Seq::empty(), first);
            assert(run_texts(Seq::empty()) =~= Seq::<Seq<char>>::empty());
            assert(run_texts(once.take(1)) =~= seq![joined(words, "\n\n"@)]);
            assert(hoisted(once) =~= once);
        }
    }
}

/// The texts of messages that are not empty, joined, are no empty text.
pub proof fn run_texts_joined_not_empty(messages: Seq<MessageView>, separator: Seq<char>)
    requires
        run_texts(messages).len() > 0,
    ensures
        joined(run_texts(messages), separator).len() > 0,
{
    without_empty_parts(messages.map_values(|message: MessageView| message_text(message)));
    joined_not_empty(run_texts(messages), separator);
}

proof fn without_empty_parts(parts: Seq<Seq<char>>)
    ensures
        forall|i: int|
            0 <= i < without_empty(parts).len() ==> (#[trigger] without_empty(parts)[i]).len() > 0,
    decreases parts.len(),
{
    if parts.len() > 0 {
        let rest = without_empty(parts.drop_last());
        without_empty_parts(parts.drop_last());
        assert forall|i: int| 0 <= i < without_empty(parts).len() implies (
        #[trigger] without_empty(parts)[i]).len() > 0 by {
            if i < rest.len() {
                assert(without_empty(parts)[i] == rest[i]);
            }
        }
    }
}

proof fn joined_not_empty(parts: Seq<Seq<char>>, separator: Seq<char>)
    requires
        parts.len() > 0,
        forall|i: int| 0 <= i < parts.len() ==> (#[trigger] parts[i]).len() > 0,
    ensures
        joined(parts, separator).len() > 0,
{
    assert(parts.last().len() > 0);
}

} // verus!

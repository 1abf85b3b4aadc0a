//! Reasoning that waits for the message it belongs to.
use crate::chat::{thinking_view, ChatMessage, ChatThinking, MessageView, ThinkingView};
use crate::responses::{ReasoningContentItem, ReasoningSummaryItem};
use crate::text::{join, joined, optional_text, push_nonempty, texts, without_empty};
use vstd::prelude::*;

verus! {

broadcast use crate::text::without_empty_push;

/// Reasoning read so far, with the signature that came with it.
#[derive(Debug, Clone)]
pub struct PendingReasoning {
    pub text: String,
    pub signature: Option<String>,
}

/// What `PendingReasoning` holds.
#[verifier::ext_equal]
pub struct ReasoningView {
    pub text: Seq<char>,
    pub signature: Option<Seq<char>>,
}

impl View for PendingReasoning {
    type V = ReasoningView;

    open spec fn view(&self) -> ReasoningView {
        ReasoningView { text: self.text@, signature: optional_text(self.signature) }
    }
}

/// What optional reasoning holds.
pub open spec fn pending_view(pending: Option<PendingReasoning>) -> Option<ReasoningView> {
    match pending {
        Some(reasoning) => Some(reasoning@),
        None => None,
    }
}

/// Two blocks of reasoning as one: the texts with a blank line between them,
/// where neither is empty, and the first signature.
pub open spec fn reasoning_joined(first: ReasoningView, second: ReasoningView) -> ReasoningView {
    ReasoningView {
        text: if first.text.len() == 0 {
            second.text
        } else if second.text.len() == 0 {
            first.text
        } else {
            first.text + "\n\n"@ + second.text
        },
        signature: if first.signature is Some {
            first.signature
        } else {
            second.signature
        },
    }
}

/// Optional blocks of reasoning as one.
pub open spec fn reasoning_after(
    first: Option<ReasoningView>,
    second: ReasoningView,
) -> ReasoningView {
    match first {
        Some(first) => reasoning_joined(first, second),
        None => second,
    }
}

/// The fields of a message that carry a block of reasoning: its text, and the
/// signed form where there is a signature.
pub open spec fn chat_parts(reasoning: ReasoningView) -> (
    Option<Seq<char>>,
    Option<ThinkingView>,
) {
    (
        Some(reasoning.text),
        match reasoning.signature {
            Some(signature) => Some(
                ThinkingView { content: reasoning.text, signature: Some(signature) },
            ),
            None => None,
        },
    )
}

/// The fields of a message that carry optional reasoning.
pub open spec fn optional_chat_parts(reasoning: Option<ReasoningView>) -> (
    Option<Seq<char>>,
    Option<ThinkingView>,
) {
    match reasoning {
        Some(reasoning) => chat_parts(reasoning),
        None => (None, None),
    }
}

/// The reasoning that the fields of a message hold.
pub open spec fn carried_reasoning(message: MessageView) -> ReasoningView {
    ReasoningView {
        text: match message.reasoning_content {
            Some(text) => text,
            None => Seq::empty(),
        },
        signature: match message.thinking {
            Some(thinking) => thinking.signature,
            None => None,
        },
    }
}

/// It does not matter which of three consecutive blocks are joined first.
pub proof fn reasoning_joined_associative(a: ReasoningView, b: ReasoningView, c: ReasoningView)
    ensures
        reasoning_joined(reasoning_joined(a, b), c) == reasoning_joined(a, reasoning_joined(b, c)),
{
    reveal_strlit("\n\n");
    assert(reasoning_joined(reasoning_joined(a, b), c) =~= reasoning_joined(
        a,
        reasoning_joined(b, c),
    ));
}

/// The block without text and signature.
pub open spec fn no_reasoning() -> ReasoningView {
    ReasoningView { text: Seq::empty(), signature: None }
}

/// An optional block, empty where there is none.
pub open spec fn reasoning_or_none(reasoning: Option<ReasoningView>) -> ReasoningView {
    match reasoning {
        Some(reasoning) => reasoning,
        None => no_reasoning(),
    }
}

/// The reasoning that messages carry, as one block.
pub open spec fn all_reasoning(messages: Seq<MessageView>) -> ReasoningView
    decreases messages.len(),
{
    if messages.len() == 0 {
        no_reasoning()
    } else {
        reasoning_joined(all_reasoning(messages.drop_last()), carried_reasoning(messages.last()))
    }
}

/// The empty block changes nothing, on either side.
pub proof fn no_reasoning_neutral(reasoning: ReasoningView)
    ensures
        reasoning_joined(no_reasoning(), reasoning) == reasoning,
        reasoning_joined(reasoning, no_reasoning()) == reasoning,
{
    assert(reasoning_joined(no_reasoning(), reasoning) =~= reasoning);
    assert(reasoning_joined(reasoning, no_reasoning()) =~= reasoning);
}

/// The reasoning of two parts of a conversation is that of the first, then that
/// of the second.
pub proof fn all_reasoning_of_parts(first: Seq<MessageView>, second: Seq<MessageView>)
    ensures
        all_reasoning(first + second) == reasoning_joined(
            all_reasoning(first),
            all_reasoning(second),
        ),
    decreases second.len(),
{
    if second.len() == 0 {
        assert(first + second =~= first);
        no_reasoning_neutral(all_reasoning(first));
    } else {
        all_reasoning_of_parts(first, second.drop_last());
        assert((first + second).drop_last() =~= first + second.drop_last());
        assert((first + second).last() == second.last());
        reasoning_joined_associative(
            all_reasoning(first),
            all_reasoning(second.drop_last()),
            carried_reasoning(second.last()),
        );
    }
}

/// A message that carries a block in its fields carries that block.
pub proof fn chat_parts_carry(message: MessageView, reasoning: Option<ReasoningView>)
    requires
        message.reasoning_content == optional_chat_parts(reasoning).0,
        message.thinking == optional_chat_parts(reasoning).1,
    ensures
        carried_reasoning(message) == reasoning_or_none(reasoning),
{
    assert(carried_reasoning(message) =~= reasoning_or_none(reasoning));
}

impl PendingReasoning {
    /// A block of reasoning.
    pub fn from_parts(text: String, signature: Option<String>) -> (reasoning: Self)
        ensures
            reasoning.text == text,
            reasoning.signature == signature,
    {
        PendingReasoning { text, signature }
    }

    /// Joins another block to this one.
    pub fn append(&mut self, text: String, signature: Option<String>)
        ensures
            final(self)@ == reasoning_joined(
                old(self)@,
                (ReasoningView { text: text@, signature: optional_text(signature) }),
            ),
    {
        if !self.text.as_str().is_empty() && !text.as_str().is_empty() {
            self.text.append("\n\n");
            self.text.append(text.as_str());
        } else if self.text.as_str().is_empty() {
            self.text = text;
        }
        if self.signature.is_none() {
            self.signature = signature;
        }
    }

    /// The fields of a message that carry this block.
    pub fn into_chat_parts(self) -> (parts: (Option<String>, Option<ChatThinking>))
        ensures
            (optional_text(parts.0), thinking_view(parts.1)) == chat_parts(self@),
    {
        let thinking = match self.signature {
            Some(signature) => Some(
                ChatThinking { content: self.text.clone(), signature: Some(signature) },
            ),
            None => None,
        };
        (Some(self.text), thinking)
    }
}

/// The fields of a message that carry optional reasoning.
pub fn optional_into_chat_parts(pending: Option<PendingReasoning>) -> (parts: (
    Option<String>,
    Option<ChatThinking>,
))
    ensures
        (optional_text(parts.0), thinking_view(parts.1)) == optional_chat_parts(
            pending_view(pending),
        ),
{
    match pending {
        Some(reasoning) => reasoning.into_chat_parts(),
        None => (None, None),
    }
}

/// The reasoning that the fields of a message hold.
pub fn reasoning_of(message: &ChatMessage) -> (reasoning: PendingReasoning)
    ensures
        reasoning@ == carried_reasoning(message@),
{
    let text = match &message.reasoning_content {
        Some(text) => text.clone(),
        None => String::new(),
    };
    let signature = match &message.thinking {
        Some(thinking) => thinking.signature.clone(),
        None => None,
    };
    PendingReasoning::from_parts(text, signature)
}

/// The text of a piece of a summary.
pub open spec fn summary_text(item: ReasoningSummaryItem) -> Seq<char> {
    match item {
        ReasoningSummaryItem::SummaryText { text } => text@,
    }
}

/// The text of a piece of reasoning content.
pub open spec fn content_text(item: ReasoningContentItem) -> Seq<char> {
    match item {
        ReasoningContentItem::ReasoningText { text } => text@,
        ReasoningContentItem::Text { text } => text@,
    }
}

/// The texts of a reasoning block: those of the summary, then those of the
/// content.
pub open spec fn reasoning_texts(
    summary: Seq<ReasoningSummaryItem>,
    content: Option<Vec<ReasoningContentItem>>,
) -> Seq<Seq<char>> {
    summary.map_values(|item: ReasoningSummaryItem| summary_text(item)) + match content {
        Some(content) => content@.map_values(|item: ReasoningContentItem| content_text(item)),
        None => Seq::empty(),
    }
}

/// The text of a reasoning block: its texts that are not empty, one per line.
pub open spec fn reasoning_block_text(
    summary: Seq<ReasoningSummaryItem>,
    content: Option<Vec<ReasoningContentItem>>,
) -> Seq<char> {
    joined(without_empty(reasoning_texts(summary, content)), "\n"@)
}

/// The text of a reasoning block: its texts that are not empty, one per line.
pub fn reasoning_item_text(
    summary: &[ReasoningSummaryItem],
    content: &Option<Vec<ReasoningContentItem>>,
) -> (block: String)
    ensures
        block@ == reasoning_block_text(summary@, *content),
{
    let mut pieces: Vec<String> = Vec::new();
    let ghost all = reasoning_texts(summary@, *content);
    assert(texts(pieces@) =~= without_empty(all.take(0)));
    let mut i: usize = 0;
    while i < summary.len()
        invariant
            i <= summary.len(),
            all == reasoning_texts(summary@, *content),
            texts(pieces@) == without_empty(all.take(i as int)),
        decreases summary.len() - i,
    {
        assert(all.take(i + 1) =~= all.take(i as int).push(all[i as int]));
        match &summary[i] {
            ReasoningSummaryItem::SummaryText { text } => {
                assert(all[i as int] == text@);
                push_nonempty(&mut pieces, text);
            },
        }
        i += 1;
    }
    if let Some(content) = content {
        let mut j: usize = 0;
        while j < content.len()
            invariant
                j <= content.len(),
                all == reasoning_texts(summary@, Some(*content)),
                texts(pieces@) == without_empty(all.take(summary.len() + j)),
            decreases content.len() - j,
        {
            let ghost at = summary.len() + j;
            assert(all.take(at + 1) =~= all.take(at).push(all[at]));
            match &content[j] {
                ReasoningContentItem::ReasoningText { text } | ReasoningContentItem::Text {
                    text,
                } => {
                    assert(all[at] == text@);
                    push_nonempty(&mut pieces, text);
                },
            }
            j += 1;
        }
    }
    assert(all.take(all.len() as int) =~= all);
    join(&pieces, "\n")
}

} // verus!

//! What holds of texts that are put together from others.
use crate::messages::{message_text, run_texts};
use crate::reasoning::{reasoning_block_text, reasoning_joined, ReasoningView};
use crate::responses::{ReasoningContentItem, ReasoningSummaryItem};
use crate::text::{joined, lowercased, trimmed, trimmed_end, trimmed_start, without_empty};
use crate::chat::MessageView;
use vstd::prelude::*;

verus! {

/// Whether a piece stands in a text at a position, character for character.
pub open spec fn stands_at(text: Seq<char>, piece: Seq<char>, at: int) -> bool {
    &&& 0 <= at
    &&& at + piece.len() <= text.len()
    &&& forall|k: int| 0 <= k < piece.len() ==> text[at + k] == #[trigger] piece[k]
}

/// Whether pieces stand in a text at positions, each behind the end of those
/// before it, and one character at least between two that are not empty.
pub open spec fn stand_in_order(
    text: Seq<char>,
    pieces: Seq<Seq<char>>,
    at: Seq<int>,
) -> bool {
    &&& at.len() == pieces.len()
    &&& forall|i: int|
        0 <= i < pieces.len() ==> stands_at(text, #[trigger] pieces[i], at[i])
    &&& forall|i: int, j: int|
        #![trigger pieces[i], at[j]]
        0 <= i < j < pieces.len() ==> at[i] + pieces[i].len() <= at[j]
    &&& forall|i: int, j: int|
        #![trigger pieces[i], pieces[j]]
        0 <= i < j < pieces.len() && pieces[i].len() > 0 && pieces[j].len() > 0 ==> at[i]
            + pieces[i].len() < at[j]
}

/// Whether a character of a text belongs to one of the pieces.
pub open spec fn in_a_piece(pieces: Seq<Seq<char>>, at: Seq<int>, k: int) -> bool {
    exists|i: int| 0 <= i < pieces.len() && at[i] <= k < at[i] + (#[trigger] pieces[i]).len()
}

/// Whether a text is made of pieces in their order, with nothing but line
/// breaks between those that are not empty, and none at its ends.
pub open spec fn made_of_lines(text: Seq<char>, pieces: Seq<Seq<char>>, at: Seq<int>) -> bool {
    &&& stand_in_order(text, pieces, at)
    &&& forall|k: int|
        0 <= k < text.len() && !in_a_piece(pieces, at, k) ==> #[trigger] text[k] == '\n'
    &&& text.len() > 0 ==> in_a_piece(pieces, at, 0) && in_a_piece(pieces, at, text.len() - 1)
}

/// Whether a text is made of pieces in their order and of line breaks between
/// them.
pub open spec fn lines_of(text: Seq<char>, pieces: Seq<Seq<char>>) -> bool {
    exists|at: Seq<int>| #[trigger] made_of_lines(text, pieces, at)
}

spec fn breaks(separator: Seq<char>) -> bool {
    &&& separator.len() > 0
    &&& forall|k: int| 0 <= k < separator.len() ==> #[trigger] separator[k] == '\n'
}

/// Joining texts that are not empty with line breaks keeps every text whole, in
/// its order, and adds line breaks between them only.
proof fn joined_lines(parts: Seq<Seq<char>>, separator: Seq<char>) -> (at: Seq<int>)
    requires
        breaks(separator),
    ensures
        made_of_lines(joined(without_empty(parts), separator), parts, at),
        joined(without_empty(parts), separator).len() == 0 <==> without_empty(parts).len() == 0,
    decreases parts.len(),
{
    let text = joined(without_empty(parts), separator);
    if parts.len() == 0 {
        Seq::empty()
    } else {
        let rest = parts.drop_last();
        let last = parts.last();
        let before = joined(without_empty(rest), separator);
        let earlier = joined_lines(rest, separator);
        let kept = without_empty(parts);
        if last.len() > 0 {
            assert(kept.drop_last() =~= without_empty(rest));
            assert(kept.last() == last);
        }
        let start = text.len() - last.len();
        let at = earlier.push(start);
        if last.len() > 0 && without_empty(rest).len() > 0 {
            assert(text =~= before + separator + last);
        } else if last.len() > 0 {
            assert(text =~= last);
            assert(before.len() == 0);
        } else {
            assert(text =~= before);
        }
        assert forall|i: int| 0 <= i < parts.len() implies stands_at(
            text,
            #[trigger] parts[i],
            at[i],
        ) by {
            if i < rest.len() {
                assert(parts[i] == rest[i]);
                assert(stands_at(before, rest[i], earlier[i]));
                assert forall|k: int| 0 <= k < parts[i].len() implies text[at[i] + k]
                    == #[trigger] parts[i][k] by {
                    assert(before[earlier[i] + k] == rest[i][k]);
                }
            }
        }
        assert forall|i: int, j: int|
            #![trigger parts[i], at[j]]
            0 <= i < j < parts.len() implies at[i] + parts[i].len() <= at[j] by {
            assert(parts[i] == rest[i]);
            assert(stands_at(before, rest[i], earlier[i]));
            if j < rest.len() {
                assert(parts[j] == rest[j]);
            }
        }
        assert forall|i: int, j: int|
            #![trigger parts[i], parts[j]]
            0 <= i < j < parts.len() && parts[i].len() > 0 && parts[j].len() > 0 implies at[i]
            + parts[i].len() < at[j] by {
            assert(parts[i] == rest[i]);
            assert(stands_at(before, rest[i], earlier[i]));
            if j < rest.len() {
                assert(parts[j] == rest[j]);
            }
        }
        assert forall|k: int| in_a_piece(rest, earlier, k) implies in_a_piece(parts, at, k) by {
            let i = choose|i: int|
                0 <= i < rest.len() && earlier[i] <= k < earlier[i] + (#[trigger] rest[i]).len();
            assert(parts[i] == rest[i]);
            assert(at[i] == earlier[i]);
        }
        assert forall|k: int| 0 <= k < text.len() && start <= k implies in_a_piece(parts, at, k) by {
            assert(parts[parts.len() - 1] == last);
            assert(at[parts.len() - 1] == start);
        }
        assert forall|k: int| 0 <= k < text.len() && !in_a_piece(parts, at, k) implies #[trigger] text[k]
            == '\n' by {
            if k < before.len() {
                assert(text[k] == before[k]);
                assert(!in_a_piece(rest, earlier, k));
            } else if k < start {
                assert(text[k] == separator[k - before.len()]);
            }
        }
        if text.len() > 0 {
            if before.len() > 0 {
                assert(in_a_piece(rest, earlier, 0));
                assert(in_a_piece(rest, earlier, before.len() - 1));
            }
        }
        at
    }
}

/// The text of a piece of a summary, and of a piece of reasoning content, in
/// the order in which a reasoning item has them.
pub open spec fn reasoning_pieces(
    summary: Seq<ReasoningSummaryItem>,
    content: Option<Vec<ReasoningContentItem>>,
) -> Seq<Seq<char>> {
    let told = match content {
        Some(content) => content@,
        None => Seq::empty(),
    };
    Seq::new(
        summary.len() + told.len(),
        |i: int|
            if i < summary.len() {
                summary[i]->SummaryText_text@
            } else {
                match told[i - summary.len()] {
                    ReasoningContentItem::ReasoningText { text } => text@,
                    ReasoningContentItem::Text { text } => text@,
                }
            },
    )
}

/// The text of a reasoning block holds the text of each piece of its summary
/// and of its content, in their order, on lines of its own, and nothing else.
pub proof fn reasoning_block_holds_pieces(
    summary: Seq<ReasoningSummaryItem>,
    content: Option<Vec<ReasoningContentItem>>,
)
    ensures
        lines_of(reasoning_block_text(summary, content), reasoning_pieces(summary, content)),
{
    reveal_strlit("\n");
    let pieces = reasoning_pieces(summary, content);
    assert(pieces =~= crate::reasoning::reasoning_texts(summary, content));
    let at = joined_lines(pieces, "\n"@);
}

/// The text that a message says: its content where that is a text, and the
/// content as it displays where it is any other value.
pub open spec fn words_of(message: MessageView) -> Seq<char> {
    match message.content {
        Some(crate::json::JsonTree::Text(text)) => text,
        Some(content) => crate::codec::display_text(content),
        None => Seq::empty(),
    }
}

/// What each of the messages says.
pub open spec fn all_words(messages: Seq<MessageView>) -> Seq<Seq<char>> {
    Seq::new(messages.len(), |i: int| words_of(messages[i]))
}

/// The texts of a run of messages, joined with blank lines, hold what each of
/// the messages says, in their order, and nothing else.
pub proof fn run_texts_hold_words(messages: Seq<MessageView>)
    ensures
        lines_of(joined(run_texts(messages), "\n\n"@), all_words(messages)),
        run_texts(messages).len() == 0 <==> forall|i: int|
            0 <= i < messages.len() ==> words_of(#[trigger] messages[i]).len() == 0,
{
    reveal_strlit("\n\n");
    let words = all_words(messages);
    assert(words =~= messages.map_values(|message: MessageView| message_text(message)));
    let at = joined_lines(words, "\n\n"@);
    if run_texts(messages).len() == 0 {
        assert forall|i: int| 0 <= i < messages.len() implies words_of(
            #[trigger] messages[i],
        ).len() == 0 by {
            assert(stands_at(joined(run_texts(messages), "\n\n"@), words[i], at[i]));
        }
    } else {
        let text = joined(run_texts(messages), "\n\n"@);
        assert(in_a_piece(words, at, 0));
        let i = choose|i: int|
            0 <= i < words.len() && at[i] <= 0 < at[i] + (#[trigger] words[i]).len();
        assert(words_of(messages[i]).len() > 0);
    }
}

/// Two blocks of reasoning as one hold both texts in their order, with a blank
/// line between them where neither is empty and nothing else, and the signature
/// of the first block that has one.
pub proof fn reasoning_joined_holds_both(first: ReasoningView, second: ReasoningView)
    ensures
        ({
            let both = reasoning_joined(first, second);
            let gap: int = if first.text.len() > 0 && second.text.len() > 0 {
                2
            } else {
                0
            };
            &&& both.text.len() == first.text.len() + gap + second.text.len()
            &&& stands_at(both.text, first.text, 0)
            &&& stands_at(both.text, second.text, first.text.len() + gap)
            &&& forall|k: int|
                first.text.len() <= k < first.text.len() + gap ==> #[trigger] both.text[k] == '\n'
            &&& first.signature is Some ==> both.signature == first.signature
            &&& first.signature is None ==> both.signature == second.signature
        }),
{
    reveal_strlit("\n\n");
}

/// The lower case of a text has each ASCII capital letter replaced by its small
/// letter and every other character in its place.
pub proof fn lowercased_letter_by_letter(text: Seq<char>)
    ensures
        lowercased(text).len() == text.len(),
        forall|k: int|
            0 <= k < text.len() ==> {
                let lower = #[trigger] lowercased(text)[k];
                if 'A' <= text[k] <= 'Z' {
                    lower as int - text[k] as int == 'a' as int - 'A' as int
                } else {
                    lower == text[k]
                }
            },
{
}

/// A trimmed text stands in the text, with white space alone before and behind
/// it, and neither begins nor ends with white space.
pub proof fn trimmed_takes_white_space_only(text: Seq<char>)
    ensures
        exists|at: int| #[trigger] trimmed_at(text, at),
{
    let at = trimmed_start_at(text);
    let front = trimmed_start(text);
    trimmed_end_at(front);
    assert(trimmed(text).len() > 0 ==> trimmed(text)[0] == front[0]);
    assert forall|k: int| 0 <= k < trimmed(text).len() implies text[at + k] == #[trigger] trimmed(
        text,
    )[k] by {
        assert(front[k] == trimmed(text)[k]);
    }
    assert forall|k: int|
        at + trimmed(text).len() <= k < text.len() implies crate::text::white_space(
        #[trigger] text[k],
    ) by {
        assert(front[k - at] == text[k]);
    }
    assert(trimmed_at(text, at));
}

/// Whether the trimmed text stands at a position and white space alone was
/// taken from around it.
pub open spec fn trimmed_at(text: Seq<char>, at: int) -> bool {
    let core = trimmed(text);
    &&& stands_at(text, core, at)
    &&& forall|k: int| 0 <= k < at ==> crate::text::white_space(#[trigger] text[k])
    &&& forall|k: int|
        at + core.len() <= k < text.len() ==> crate::text::white_space(#[trigger] text[k])
    &&& core.len() > 0 ==> !crate::text::white_space(core[0]) && !crate::text::white_space(
        core.last(),
    )
}

proof fn trimmed_start_at(text: Seq<char>) -> (at: int)
    ensures
        0 <= at <= text.len(),
        trimmed_start(text) == text.skip(at),
        forall|k: int| 0 <= k < at ==> crate::text::white_space(#[trigger] text[k]),
        at < text.len() ==> !crate::text::white_space(text[at]),
    decreases text.len(),
{
    if text.len() > 0 && crate::text::white_space(text[0]) {
        let rest = text.drop_first();
        let at = trimmed_start_at(rest);
        assert(rest.skip(at) =~= text.skip(at + 1));
        assert forall|k: int| 0 <= k < at + 1 implies crate::text::white_space(
            #[trigger] text[k],
        ) by {
            if k > 0 {
                assert(rest[k - 1] == text[k]);
            }
        }
        at + 1
    } else {
        assert(text.skip(0) =~= text);
        0
    }
}

proof fn trimmed_end_at(text: Seq<char>)
    ensures
        trimmed_end(text).len() <= text.len(),
        trimmed_end(text) == text.take(trimmed_end(text).len() as int),
        forall|k: int|
            trimmed_end(text).len() <= k < text.len() ==> crate::text::white_space(
                #[trigger] text[k],
            ),
        trimmed_end(text).len() > 0 ==> !crate::text::white_space(trimmed_end(text).last()),
    decreases text.len(),
{
    if text.len() > 0 && crate::text::white_space(text.last()) {
        let rest = text.drop_last();
        trimmed_end_at(rest);
        assert(rest.take(trimmed_end(rest).len() as int) =~= text.take(
            trimmed_end(rest).len() as int,
        ));
        assert forall|k: int|
            trimmed_end(text).len() <= k < text.len() implies crate::text::white_space(
            #[trigger] text[k],
        ) by {
            if k < rest.len() {
                assert(rest[k] == text[k]);
            }
        }
    } else {
        assert(text.take(text.len() as int) =~= text);
    }
}

} // verus!

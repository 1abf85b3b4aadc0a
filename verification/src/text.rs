//! Text over `Seq<char>`: order, ASCII case, trimming, joining and decimals.
use vstd::prelude::*;

verus! {

/// `String::push`: the character is appended at the end of the string, and
/// nothing else changes.
pub assume_specification[ String::push ](string: &mut String, c: char)
    ensures
        final(string)@ == old(string)@.push(c),
;

/// What an optional string holds.
pub open spec fn optional_text(text: Option<String>) -> Option<Seq<char>> {
    match text {
        Some(text) => Some(text@),
        None => None,
    }
}

/// What each string of a sequence holds.
pub open spec fn texts(strings: Seq<String>) -> Seq<Seq<char>> {
    strings.map_values(|string: String| string@)
}

/// The order of texts: the first differing character decides, and a proper
/// prefix comes first.
pub open spec fn text_before(a: Seq<char>, b: Seq<char>) -> bool
    decreases a.len(),
{
    if b.len() == 0 {
        false
    } else if a.len() == 0 {
        true
    } else if a[0] != b[0] {
        a[0] < b[0]
    } else {
        text_before(a.drop_first(), b.drop_first())
    }
}

/// No text comes before itself.
pub proof fn text_before_irreflexive(a: Seq<char>)
    ensures
        !text_before(a, a),
    decreases a.len(),
{
    if a.len() > 0 {
        text_before_irreflexive(a.drop_first());
    }
}

/// Of two different texts, exactly one comes before the other.
pub proof fn text_before_total(a: Seq<char>, b: Seq<char>)
    ensures
        a != b ==> (text_before(a, b) <==> !text_before(b, a)),
    decreases a.len(),
{
    if a.len() > 0 && b.len() > 0 && a[0] == b[0] {
        text_before_total(a.drop_first(), b.drop_first());
        if a.drop_first() == b.drop_first() {
            assert(a =~= seq![a[0]] + a.drop_first());
            assert(b =~= seq![b[0]] + b.drop_first());
        }
    } else if a.len() == 0 && b.len() == 0 {
        assert(a =~= b);
    }
}

/// The order of texts is transitive.
pub proof fn text_before_transitive(a: Seq<char>, b: Seq<char>, c: Seq<char>)
    requires
        text_before(a, b),
        text_before(b, c),
    ensures
        text_before(a, c),
    decreases a.len(),
{
    if a.len() > 0 && a[0] == b[0] && b[0] == c[0] {
        text_before_transitive(a.drop_first(), b.drop_first(), c.drop_first());
    }
}

/// The characters of a text, one by one.
pub fn characters(text: &str) -> (chars: Vec<char>)
    ensures
        chars@ == text@,
{
    let mut chars: Vec<char> = Vec::new();
    for c in iter: text.chars()
        invariant
            iter.seq() == text@,
            chars@ == iter.seq().take(iter.index() as int),
    {
        chars.push(c);
    }
    chars
}

/// Whether two texts are the same.
pub fn same_text(a: &str, b: &str) -> (same: bool)
    ensures
        same == (a@ == b@),
{
    a.to_owned() == b.to_owned()
}

/// Whether one text comes before another.
pub fn precedes(a: &str, b: &str) -> (before: bool)
    ensures
        before == text_before(a@, b@),
{
    let left = characters(a);
    let right = characters(b);
    let mut i: usize = 0;
    assert(a@.skip(0) =~= a@);
    assert(b@.skip(0) =~= b@);
    while i < left.len() && i < right.len()
        invariant
            left@ == a@,
            right@ == b@,
            i <= left.len(),
            i <= right.len(),
            text_before(a@, b@) == text_before(a@.skip(i as int), b@.skip(i as int)),
        decreases left.len() - i,
    {
        if left[i] != right[i] {
            return left[i] < right[i];
        }
        assert(a@.skip(i as int).drop_first() =~= a@.skip(i + 1));
        assert(b@.skip(i as int).drop_first() =~= b@.skip(i + 1));
        i += 1;
    }
    i < right.len()
}

/// A character with ASCII upper case mapped to lower case.
pub open spec fn ascii_lower(c: char) -> char {
    if 'A' <= c <= 'Z' {
        (c as u32 + 32) as char
    } else {
        c
    }
}

/// A text with every ASCII upper-case letter in lower case.
pub open spec fn lowercased(text: Seq<char>) -> Seq<char> {
    text.map_values(|c: char| ascii_lower(c))
}

/// Maps ASCII upper case to lower case and leaves every other character.
pub fn ascii_lowercase(text: &str) -> (lower: String)
    ensures
        lower@ == lowercased(text@),
{
    let mut lower = String::new();
    for c in iter: text.chars()
        invariant
            iter.seq() == text@,
            lower@ == lowercased(iter.seq().take(iter.index() as int)),
    {
        if 'A' <= c && c <= 'Z' {
            lower.push((c as u8 + 32) as char);
        } else {
            lower.push(c);
        }
        assert(lower@ =~= lowercased(iter.seq().take(iter.index() + 1)));
    }
    assert(text@.take(text@.len() as int) =~= text@);
    lower
}

/// Lower case stays as it is.
pub proof fn lowercased_idempotent(text: Seq<char>)
    ensures
        lowercased(lowercased(text)) == lowercased(text),
{
    assert(lowercased(lowercased(text)) =~= lowercased(text));
}

/// The characters with the Unicode property `White_Space`.
pub open spec fn white_space(c: char) -> bool {
    ||| '\u{9}' <= c <= '\u{d}'
    ||| c == ' '
    ||| c == '\u{85}'
    ||| c == '\u{a0}'
    ||| c == '\u{1680}'
    ||| '\u{2000}' <= c <= '\u{200a}'
    ||| c == '\u{2028}'
    ||| c == '\u{2029}'
    ||| c == '\u{202f}'
    ||| c == '\u{205f}'
    ||| c == '\u{3000}'
}

/// Whether a character has the Unicode property `White_Space`.
pub fn is_white_space(c: char) -> (space: bool)
    ensures
        space == white_space(c),
{
    ('\u{9}' <= c && c <= '\u{d}') || c == ' ' || c == '\u{85}' || c == '\u{a0}' || c == '\u{1680}'
        || ('\u{2000}' <= c && c <= '\u{200a}') || c == '\u{2028}' || c == '\u{2029}' || c
        == '\u{202f}' || c == '\u{205f}' || c == '\u{3000}'
}

/// A text without its leading white space.
pub open spec fn trimmed_start(text: Seq<char>) -> Seq<char>
    decreases text.len(),
{
    if text.len() > 0 && white_space(text[0]) {
        trimmed_start(text.drop_first())
    } else {
        text
    }
}

/// A text without its trailing white space.
pub open spec fn trimmed_end(text: Seq<char>) -> Seq<char>
    decreases text.len(),
{
    if text.len() > 0 && white_space(text.last()) {
        trimmed_end(text.drop_last())
    } else {
        text
    }
}

/// A text without its leading and trailing white space.
pub open spec fn trimmed(text: Seq<char>) -> Seq<char> {
    trimmed_end(trimmed_start(text))
}

/// A text without its leading and trailing white space.
pub fn trim(text: &str) -> (core: String)
    ensures
        core@ == trimmed(text@),
{
    let chars = characters(text);
    let mut start: usize = 0;
    assert(chars@.skip(0) =~= chars@);
    while start < chars.len() && is_white_space(chars[start])
        invariant
            start <= chars.len(),
            trimmed_start(chars@) == trimmed_start(chars@.skip(start as int)),
        decreases chars.len() - start,
    {
        assert(chars@.skip(start as int).drop_first() =~= chars@.skip(start + 1));
        start += 1;
    }
    let mut end: usize = chars.len();
    assert(chars@.subrange(start as int, end as int) =~= chars@.skip(start as int));
    while start < end && is_white_space(chars[end - 1])
        invariant
            start <= end <= chars.len(),
            trimmed_end(chars@.skip(start as int)) == trimmed_end(
                chars@.subrange(start as int, end as int),
            ),
        decreases end,
    {
        assert(chars@.subrange(start as int, end as int).drop_last() =~= chars@.subrange(
            start as int,
            end - 1,
        ));
        end -= 1;
    }
    let mut core = String::new();
    let mut i: usize = start;
    while i < end
        invariant
            start <= i <= end <= chars.len(),
            core@ == chars@.subrange(start as int, i as int),
        decreases end - i,
    {
        core.push(chars[i]);
        i += 1;
        assert(core@ =~= chars@.subrange(start as int, i as int));
    }
    core
}

/// Trimming a trimmed text changes nothing.
pub proof fn trimmed_idempotent(text: Seq<char>)
    ensures
        trimmed(trimmed(text)) == trimmed(text),
{
    trimmed_start_stops(text);
    trimmed_end_stops(trimmed_start(text));
    let core = trimmed(text);
    if core.len() > 0 {
        assert(core[0] == trimmed_start(text)[0]);
    }
}

proof fn trimmed_start_stops(text: Seq<char>)
    ensures
        trimmed_start(text).len() > 0 ==> !white_space(trimmed_start(text)[0]),
    decreases text.len(),
{
    if text.len() > 0 && white_space(text[0]) {
        trimmed_start_stops(text.drop_first());
    }
}

proof fn trimmed_end_stops(text: Seq<char>)
    ensures
        trimmed_end(text).len() > 0 ==> !white_space(trimmed_end(text).last()),
        trimmed_end(text).len() <= text.len(),
        trimmed_end(text) == text.take(trimmed_end(text).len() as int),
    decreases text.len(),
{
    if text.len() > 0 && white_space(text.last()) {
        trimmed_end_stops(text.drop_last());
        assert(text.drop_last().take(trimmed_end(text).len() as int) =~= text.take(
            trimmed_end(text).len() as int,
        ));
    } else {
        assert(text.take(text.len() as int) =~= text);
    }
}

/// Texts in a row, with a separator between neighbours.
pub open spec fn joined(parts: Seq<Seq<char>>, separator: Seq<char>) -> Seq<char>
    decreases parts.len(),
{
    if parts.len() == 0 {
        Seq::empty()
    } else if parts.len() == 1 {
        parts[0]
    } else {
        joined(parts.drop_last(), separator) + separator + parts.last()
    }
}

/// Joins texts with a separator between neighbours.
pub fn join(parts: &Vec<String>, separator: &str) -> (all: String)
    ensures
        all@ == joined(texts(parts@), separator@),
{
    let mut all = String::new();
    let mut i: usize = 0;
    while i < parts.len()
        invariant
            i <= parts.len(),
            all@ == joined(texts(parts@.take(i as int)), separator@),
        decreases parts.len() - i,
    {
        if i > 0 {
            all.append(separator);
        }
        all.append(parts[i].as_str());
        proof {
            let upto = texts(parts@.take(i + 1));
            assert(upto.drop_last() =~= texts(parts@.take(i as int)));
            assert(upto.last() == parts@[i as int]@);
            if i == 0 {
                assert(all@ =~= parts@[0]@);
            }
        }
        i += 1;
    }
    assert(parts@.take(parts@.len() as int) =~= parts@);
    all
}

/// Texts without those that are empty.
pub open spec fn without_empty(parts: Seq<Seq<char>>) -> Seq<Seq<char>>
    decreases parts.len(),
{
    if parts.len() == 0 {
        Seq::empty()
    } else if parts.last().len() == 0 {
        without_empty(parts.drop_last())
    } else {
        without_empty(parts.drop_last()).push(parts.last())
    }
}

/// One text more counts where it is not empty.
pub broadcast proof fn without_empty_push(parts: Seq<Seq<char>>, part: Seq<char>)
    ensures
        #[trigger] without_empty(parts.push(part)) == if part.len() == 0 {
            without_empty(parts)
        } else {
            without_empty(parts).push(part)
        },
{
    assert(parts.push(part).drop_last() =~= parts);
}

/// Adds a text to others where it is not empty.
pub fn push_nonempty(parts: &mut Vec<String>, part: &String)
    ensures
        texts(final(parts)@) == if part@.len() == 0 {
            texts(old(parts)@)
        } else {
            texts(old(parts)@).push(part@)
        },
{
    if !part.as_str().is_empty() {
        parts.push(part.clone());
        assert(texts(parts@) =~= texts(old(parts)@).push(part@));
    }
}

/// The character of a decimal digit.
pub open spec fn digit(value: nat) -> char {
    ('0' as u32 + value) as char
}

/// A number in decimal notation.
pub open spec fn decimal(value: nat) -> Seq<char>
    decreases value,
{
    if value < 10 {
        seq![digit(value)]
    } else {
        decimal(value / 10).push(digit(value % 10))
    }
}

/// Writes a number in decimal notation.
pub fn decimal_text(value: usize) -> (text: String)
    ensures
        text@ == decimal(value as nat),
    decreases value,
{
    let mut text = if value < 10 {
        String::new()
    } else {
        decimal_text(value / 10)
    };
    text.push(('0' as u8 + (value % 10) as u8) as char);
    assert(text@ =~= decimal(value as nat));
    text
}

} // verus!

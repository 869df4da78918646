//! Text as a sequence of characters: comparison, search, trimming and lines.
use vstd::prelude::*;
use vstd::string::*;
use vstd::utf8::*;

use crate::order::same_bytes;
use crate::outside::lossy_text_of;
use crate::views;

verus! {

/// `String::push` appends one character to the end of the string.
pub assume_specification[ String::push ](string: &mut String, c: char)
    ensures
        final(string)@ == old(string)@.push(c),
;

/// The characters of a text, in order.
pub fn chars_of(text: &str) -> (chars: Vec<char>)
    ensures
        chars@ == text@,
{
    let mut chars: Vec<char> = Vec::new();
    for c in it: text.chars()
        invariant
            chars@ == it.seq().take(it.index() as int),
            it.seq() == text@,
    {
        chars.push(c);
    }
    chars
}

/// The text made of `chars[from..to]`.
pub fn text_between(chars: &Vec<char>, from: usize, to: usize) -> (text: String)
    requires
        from <= to <= chars@.len(),
    ensures
        text@ == chars@.subrange(from as int, to as int),
{
    let mut text = String::new();
    let mut i: usize = from;
    while i < to
        invariant
            from <= i <= to <= chars@.len(),
            text@ == chars@.subrange(from as int, i as int),
        decreases to - i,
    {
        text.push(chars[i]);
        i += 1;
    }
    text
}

/// Whether two texts hold the same characters.
pub fn same_text(left: &str, right: &str) -> (same: bool)
    ensures
        same == (left@ == right@),
{
    broadcast use encode_utf8_decode_utf8;

    proof {
        assert(decode_utf8(encode_utf8(left@)) == left@);
        assert(decode_utf8(encode_utf8(right@)) == right@);
    }
    same_bytes(left.as_bytes(), right.as_bytes())
}

/// The text that bytes encode in UTF-8, where they do.
pub open spec fn decoded(bytes: Seq<u8>) -> Option<Seq<char>> {
    if valid_utf8(bytes) {
        Some(decode_utf8(bytes))
    } else {
        None
    }
}

/// The text that bytes encode in UTF-8, where they do.
pub fn decode_text(bytes: &[u8]) -> (text: Option<String>)
    ensures
        views::option_view(text) == decoded(bytes@),
{
    broadcast use {encode_utf8_valid_utf8, encode_utf8_decode_utf8, decode_utf8_encode_utf8};

    let text = lossy_text_of(bytes);
    proof {
        assert(valid_utf8(encode_utf8(text@)));
        assert(decode_utf8(encode_utf8(text@)) == text@);
    }
    if same_bytes(text.as_str().as_bytes(), bytes) {
        Some(text)
    } else {
        None
    }
}

/// Whether `needle` stands in `hay` at position `at`.
pub open spec fn occurs_at(hay: Seq<char>, needle: Seq<char>, at: int) -> bool {
    &&& 0 <= at
    &&& at + needle.len() <= hay.len()
    &&& hay.subrange(at, at + needle.len()) == needle
}

/// The first position, from `from` on, at which `needle` stands in `hay`.
pub open spec fn find_from(hay: Seq<char>, needle: Seq<char>, from: int) -> Option<int>
    decreases hay.len() - from + 1,
{
    if from < 0 || from + needle.len() > hay.len() {
        None
    } else if occurs_at(hay, needle, from) {
        Some(from)
    } else {
        find_from(hay, needle, from + 1)
    }
}

/// Whether `needle` stands anywhere in `hay`.
pub open spec fn contains_text(hay: Seq<char>, needle: Seq<char>) -> bool {
    exists|at: int| occurs_at(hay, needle, at)
}

/// What stands before and after the first `separator` in `text`.
pub open spec fn split_once(text: Seq<char>, separator: Seq<char>) -> Option<
    (Seq<char>, Seq<char>),
> {
    match find_from(text, separator, 0) {
        Some(at) => Some((text.take(at), text.skip(at + separator.len()))),
        None => None,
    }
}

/// `find_from` finds the least position at which the needle occurs.
pub proof fn lemma_find_from(hay: Seq<char>, needle: Seq<char>, from: int)
    requires
        0 <= from,
    ensures
        match find_from(hay, needle, from) {
            Some(at) => from <= at && occurs_at(hay, needle, at) && (forall|j: int|
                from <= j < at ==> !occurs_at(hay, needle, j)),
            None => forall|j: int| from <= j ==> !occurs_at(hay, needle, j),
        },
    decreases hay.len() - from + 1,
{
    if from + needle.len() <= hay.len() && !occurs_at(hay, needle, from) {
        lemma_find_from(hay, needle, from + 1);
    }
}

/// The least position of an occurrence is what `find_from` finds.
pub proof fn lemma_find_first(hay: Seq<char>, needle: Seq<char>, from: int, at: int)
    requires
        0 <= from <= at,
        occurs_at(hay, needle, at),
        forall|j: int| from <= j < at ==> !occurs_at(hay, needle, j),
    ensures
        find_from(hay, needle, from) == Some(at),
{
    lemma_find_from(hay, needle, from);
    let found = find_from(hay, needle, from);
    if found is Some {
        let k = found->0;
        if k < at {
            assert(!occurs_at(hay, needle, k));
        }
    }
}

/// A needle occurs somewhere exactly when the search from the start finds it.
pub proof fn lemma_contains_text(hay: Seq<char>, needle: Seq<char>)
    ensures
        contains_text(hay, needle) == (find_from(hay, needle, 0) is Some),
{
    lemma_find_from(hay, needle, 0);
}

fn matches_at(hay: &Vec<char>, needle: &Vec<char>, at: usize) -> (found: bool)
    requires
        at + needle@.len() <= hay@.len(),
    ensures
        found == occurs_at(hay@, needle@, at as int),
{
    let mut i: usize = 0;
    while i < needle.len()
        invariant
            i <= needle@.len(),
            at + needle@.len() <= hay.len(),
            forall|j: int| 0 <= j < i ==> hay@[at + j] == needle@[j],
        decreases needle@.len() - i,
    {
        if hay[at + i] != needle[i] {
            assert(hay@.subrange(at as int, at + needle@.len())[i as int] != needle@[i as int]);
            return false;
        }
        i += 1;
    }
    assert(hay@.subrange(at as int, at + needle@.len()) =~= needle@);
    true
}

/// The first position at which `needle` stands in `hay`.
pub fn find_text(hay: &Vec<char>, needle: &Vec<char>) -> (found: Option<usize>)
    ensures
        match found {
            Some(at) => find_from(hay@, needle@, 0) == Some(at as int),
            None => find_from(hay@, needle@, 0) is None,
        },
{
    if needle.len() > hay.len() {
        return None;
    }
    let last: usize = hay.len() - needle.len();
    let mut i: usize = 0;
    while i <= last
        invariant
            i <= last + 1,
            last + needle@.len() == hay@.len(),
            find_from(hay@, needle@, 0) == find_from(hay@, needle@, i as int),
        decreases last + 1 - i,
    {
        if matches_at(hay, needle, i) {
            return Some(i);
        }
        if i == last {
            return None;
        }
        i += 1;
    }
    None
}

/// Whether `text` contains `part`.
pub fn text_contains(text: &str, part: &str) -> (found: bool)
    ensures
        found == contains_text(text@, part@),
{
    proof {
        lemma_contains_text(text@, part@);
    }
    find_text(&chars_of(text), &chars_of(part)).is_some()
}

/// Splits a text at the first `separator`, which neither half keeps.
pub fn split_text_once(text: &str, separator: &str) -> (halves: Option<(String, String)>)
    ensures
        match halves {
            Some((before, after)) => split_once(text@, separator@) == Some((before@, after@)),
            None => split_once(text@, separator@) is None,
        },
{
    let chars = chars_of(text);
    let needle = chars_of(separator);
    proof {
        lemma_find_from(text@, separator@, 0);
    }
    match find_text(&chars, &needle) {
        Some(at) => {
            let size: usize = chars.len();
            let before = text_between(&chars, 0, at);
            let after = text_between(&chars, at + needle.len(), size);
            Some((before, after))
        },
        None => None,
    }
}

/// Removes `prefix` from the front of `text`, where `text` starts with it.
pub open spec fn strip_prefix(text: Seq<char>, prefix: Seq<char>) -> Option<Seq<char>> {
    if occurs_at(text, prefix, 0) {
        Some(text.skip(prefix.len() as int))
    } else {
        None
    }
}

/// Removes `prefix` from the front of `text`; `None` where `text` does not
/// start with it.
pub fn strip_text_prefix(text: &str, prefix: &str) -> (rest: Option<String>)
    ensures
        match rest {
            Some(rest) => strip_prefix(text@, prefix@) == Some(rest@),
            None => strip_prefix(text@, prefix@) is None,
        },
{
    let chars = chars_of(text);
    let head = chars_of(prefix);
    if head.len() <= chars.len() && matches_at(&chars, &head, 0) {
        Some(text_between(&chars, head.len(), chars.len()))
    } else {
        None
    }
}

/// The Unicode White_Space property.
pub open spec fn is_white_space(c: char) -> bool {
    ||| '\u{9}' <= c <= '\u{d}'
    ||| c == ' '
    ||| c == '\u{85}'
    ||| c == '\u{a0}'
    ||| c == '\u{1680}'
    ||| '\u{2000}' <= c <= '\u{200a}'
    ||| c == '\u{2028}'
    ||| c == '\u{2029}'
    ||| c == '\u{202f}'
    ||| c == '\u{205f}'
    ||| c == '\u{3000}'
}

/// Whether a character has the Unicode White_Space property.
pub fn white_space(c: char) -> (white: bool)
    ensures
        white == is_white_space(c),
{
    ('\u{9}' <= c && c <= '\u{d}') || c == ' ' || c == '\u{85}' || c == '\u{a0}' || c == '\u{1680}'
        || ('\u{2000}' <= c && c <= '\u{200a}') || c == '\u{2028}' || c == '\u{2029}'
        || c == '\u{202f}' || c == '\u{205f}' || c == '\u{3000}'
}

/// The control characters of Unicode (general category Cc).
pub open spec fn is_control_char(c: char) -> bool {
    ||| c <= '\u{1f}'
    ||| '\u{7f}' <= c <= '\u{9f}'
}

/// Whether a character is a control character.
pub fn control_char(c: char) -> (control: bool)
    ensures
        control == is_control_char(c),
{
    c <= '\u{1f}' || ('\u{7f}' <= c && c <= '\u{9f}')
}

/// A text without its leading white space.
pub open spec fn trim_start(text: Seq<char>) -> Seq<char>
    decreases text.len(),
{
    if text.len() > 0 && is_white_space(text[0]) {
        trim_start(text.skip(1))
    } else {
        text
    }
}

/// A text without its trailing white space.
pub open spec fn trim_end(text: Seq<char>) -> Seq<char>
    decreases text.len(),
{
    if text.len() > 0 && is_white_space(text.last()) {
        trim_end(text.drop_last())
    } else {
        text
    }
}

/// A text without the white space around it.
pub open spec fn trim(text: Seq<char>) -> Seq<char> {
    trim_end(trim_start(text))
}

/// Removes the white space around a text.
pub fn trim_text(text: &str) -> (trimmed: String)
    ensures
        trimmed@ == trim(text@),
{
    let chars = chars_of(text);
    let mut from: usize = 0;
    assert(chars@.skip(0) =~= chars@);
    while from < chars.len() && white_space(chars[from])
        invariant
            from <= chars@.len(),
            trim_start(chars@) == trim_start(chars@.skip(from as int)),
        decreases chars@.len() - from,
    {
        assert(chars@.skip(from as int).skip(1) =~= chars@.skip(from + 1));
        from += 1;
    }
    assert(trim_start(chars@) == chars@.skip(from as int));
    let mut to: usize = chars.len();
    assert(chars@.skip(from as int) =~= chars@.subrange(from as int, to as int));
    while from < to && white_space(chars[to - 1])
        invariant
            from <= to <= chars@.len(),
            trim(chars@) == trim_end(chars@.subrange(from as int, to as int)),
        decreases to - from,
    {
        assert(chars@.subrange(from as int, to as int).drop_last() =~= chars@.subrange(
            from as int,
            to - 1,
        ));
        to -= 1;
    }
    text_between(&chars, from, to)
}

/// The position of the first line feed from `from` on, or the length of the
/// text where there is none.
pub open spec fn line_end(text: Seq<char>, from: int) -> int
    decreases text.len() - from,
{
    if from >= text.len() {
        text.len() as int
    } else if text[from] == '\n' {
        from
    } else {
        line_end(text, from + 1)
    }
}

/// A line without the carriage return that stands before its line feed.
pub open spec fn without_carriage_return(line: Seq<char>) -> Seq<char> {
    if line.len() > 0 && line.last() == '\r' {
        line.drop_last()
    } else {
        line
    }
}

/// The lines of a text: each ends at a line feed, which it does not keep, nor a
/// carriage return just before it; the last line feed is optional.
pub open spec fn lines(text: Seq<char>) -> Seq<Seq<char>>
    decreases text.len(),
{
    if text.len() == 0 {
        Seq::empty()
    } else {
        let end = line_end(text, 0);
        if !(0 <= end < text.len()) {
            seq![text]
        } else {
            seq![without_carriage_return(text.take(end))] + lines(text.skip(end + 1))
        }
    }
}

/// Where `line_end` stops: at the first line feed, or at the end.
pub proof fn lemma_line_end(text: Seq<char>, from: int)
    requires
        0 <= from <= text.len(),
    ensures
        from <= line_end(text, from) <= text.len(),
        line_end(text, from) < text.len() ==> text[line_end(text, from)] == '\n',
        forall|j: int| from <= j < line_end(text, from) ==> text[j] != '\n',
    decreases text.len() - from,
{
    if from < text.len() && text[from] != '\n' {
        lemma_line_end(text, from + 1);
    }
}

/// The first line feed of a text is where `line_end` stops.
pub proof fn lemma_line_end_is(text: Seq<char>, from: int, at: int)
    requires
        0 <= from <= at < text.len(),
        text[at] == '\n',
        forall|j: int| from <= j < at ==> text[j] != '\n',
    ensures
        line_end(text, from) == at,
    decreases at - from,
{
    if from < at {
        lemma_line_end_is(text, from + 1, at);
    }
}

/// Where `line_end` stops does not depend on what stands before `from`.
proof fn lemma_line_end_skip(text: Seq<char>, start: int, from: int)
    requires
        0 <= start <= from <= text.len(),
    ensures
        line_end(text.skip(start), from - start) == line_end(text, from) - start,
    decreases text.len() - from,
{
    if from < text.len() && text[from] != '\n' {
        lemma_line_end_skip(text, start, from + 1);
    }
}

/// The lines of a text.
pub fn text_lines(text: &str) -> (all: Vec<String>)
    ensures
        views::views(all@) == lines(text@),
{
    let chars = chars_of(text);
    let size: usize = chars.len();
    let mut all: Vec<String> = Vec::new();
    let mut start: usize = 0;
    assert(chars@.skip(0) =~= chars@);
    assert(views::views(all@) + lines(chars@) =~= lines(chars@));
    while start < size
        invariant
            start <= size,
            size == chars@.len(),
            views::views(all@) + lines(chars@.skip(start as int)) == lines(chars@),
        decreases size - start,
    {
        let mut end: usize = start;
        while end < size && chars[end] != '\n'
            invariant
                start <= end <= size,
                size == chars@.len(),
                line_end(chars@, start as int) == line_end(chars@, end as int),
            decreases size - end,
        {
            end += 1;
        }
        let ghost before = all@;
        let ghost rest = chars@.skip(start as int);
        proof {
            lemma_line_end_skip(chars@, start as int, start as int);
        }
        if end == size {
            let line = text_between(&chars, start, size);
            assert(line@ =~= rest);
            all.push(line);
            assert(views::views(all@) =~= views::views(before) + seq![rest]);
            start = size;
            assert(lines(chars@.skip(start as int)) =~= Seq::empty());
            assert(views::views(all@) + lines(chars@.skip(start as int)) =~= views::views(before)
                + lines(rest));
        } else {
            let stop: usize = if end > start && chars[end - 1] == '\r' {
                end - 1
            } else {
                end
            };
            let line = text_between(&chars, start, stop);
            let ghost full = rest.take(end - start);
            assert(full =~= chars@.subrange(start as int, end as int));
            assert(line@ =~= without_carriage_return(full));
            all.push(line);
            assert(rest.skip(end - start + 1) =~= chars@.skip(end + 1));
            assert(views::views(all@) =~= views::views(before) + seq![without_carriage_return(full)]);
            start = end + 1;
            assert(views::views(all@) + lines(chars@.skip(start as int)) =~= views::views(before)
                + lines(rest));
        }
    }
    assert(lines(chars@.skip(start as int)) =~= Seq::empty());
    assert(views::views(all@) =~= lines(chars@));
    all
}

/// A text is found in another exactly where the other is made of something, the
/// text, and something more.
pub proof fn law_contains_text(hay: Seq<char>, needle: Seq<char>)
    ensures
        contains_text(hay, needle) <==> exists|before: Seq<char>, after: Seq<char>|
            hay == #[trigger] (before + needle + after),
{
    if contains_text(hay, needle) {
        let at = choose|at: int| occurs_at(hay, needle, at);
        assert(hay =~= hay.take(at) + needle + hay.skip(at + needle.len()));
    }
    if exists|before: Seq<char>, after: Seq<char>| hay == #[trigger] (before + needle + after) {
        let (before, after) = choose|before: Seq<char>, after: Seq<char>|
            hay == #[trigger] (before + needle + after);
        let at = before.len() as int;
        assert(hay.subrange(at, at + needle.len()) =~= needle);
        assert(occurs_at(hay, needle, at));
    }
}

/// A text is split at the first separator: what stands before it holds none, not
/// even one that reaches into it. A text without the separator is not split.
pub proof fn law_split_once(text: Seq<char>, separator: Seq<char>)
    ensures
        match split_once(text, separator) {
            Some((before, after)) => text == before + separator + after && forall|
                left: Seq<char>,
                right: Seq<char>,
            |
                text == #[trigger] (left + separator + right) ==> before.len() <= left.len(),
            None => forall|left: Seq<char>, right: Seq<char>|
                text != #[trigger] (left + separator + right),
        },
{
    lemma_find_from(text, separator, 0);
    assert forall|left: Seq<char>, right: Seq<char>|
        text == #[trigger] (left + separator + right) implies occurs_at(
        text,
        separator,
        left.len() as int,
    ) by {
        let at = left.len() as int;
        assert(text.subrange(at, at + separator.len()) =~= separator);
    }
    match split_once(text, separator) {
        Some((before, after)) => {
            assert(text =~= before + separator + after);
            assert forall|left: Seq<char>, right: Seq<char>|
                text == #[trigger] (left + separator + right) implies before.len()
                <= left.len() by {
                assert(occurs_at(text, separator, left.len() as int));
            }
        },
        None => {
            assert forall|left: Seq<char>, right: Seq<char>|
                text != #[trigger] (left + separator + right) by {
                if text == left + separator + right {
                    assert(occurs_at(text, separator, left.len() as int));
                }
            }
        },
    }
}

/// What is left of a text without a prefix is what stands behind the prefix; a
/// text that does not start with the prefix has no such rest.
pub proof fn law_strip_prefix(text: Seq<char>, prefix: Seq<char>)
    ensures
        match strip_prefix(text, prefix) {
            Some(rest) => text == prefix + rest,
            None => forall|rest: Seq<char>| text != #[trigger] (prefix + rest),
        },
{
    if strip_prefix(text, prefix) is Some {
        assert(text =~= prefix + strip_prefix(text, prefix)->0);
    } else {
        assert forall|rest: Seq<char>| text != #[trigger] (prefix + rest) by {
            if text == prefix + rest {
                assert(text.subrange(0, prefix.len() as int) =~= prefix);
                assert(occurs_at(text, prefix, 0));
            }
        }
    }
}

/// The characters that count as white space, by their numbers in Unicode.
pub proof fn law_white_space(c: char)
    ensures
        is_white_space(c) <==> set![
            0x9u32, 0xa, 0xb, 0xc, 0xd, 0x20, 0x85, 0xa0, 0x1680, 0x2000, 0x2001, 0x2002, 0x2003,
            0x2004, 0x2005, 0x2006, 0x2007, 0x2008, 0x2009, 0x200a, 0x2028, 0x2029, 0x202f, 0x205f,
            0x3000
        ].contains(c as u32),
{
}

/// The control characters, by their numbers in Unicode.
pub proof fn law_control_char(c: char)
    ensures
        is_control_char(c) <==> (c as u32) < 0x20 || 0x7f <= c as u32 && (c as u32) < 0xa0,
{
}

proof fn lemma_trim_start(before: Seq<char>, rest: Seq<char>)
    requires
        forall|i: int| 0 <= i < before.len() ==> is_white_space(#[trigger] before[i]),
        rest.len() > 0 ==> !is_white_space(rest[0]),
    ensures
        trim_start(before + rest) == rest,
    decreases before.len(),
{
    if before.len() == 0 {
        assert(before + rest =~= rest);
    } else {
        assert((before + rest)[0] == before[0]);
        assert((before + rest).skip(1) =~= before.skip(1) + rest);
        assert forall|i: int| 0 <= i < before.skip(1).len() implies is_white_space(
            #[trigger] before.skip(1)[i],
        ) by {
            assert(before.skip(1)[i] == before[i + 1]);
        }
        lemma_trim_start(before.skip(1), rest);
    }
}

proof fn lemma_trim_end(rest: Seq<char>, after: Seq<char>)
    requires
        forall|i: int| 0 <= i < after.len() ==> is_white_space(#[trigger] after[i]),
        rest.len() > 0 ==> !is_white_space(rest.last()),
    ensures
        trim_end(rest + after) == rest,
    decreases after.len(),
{
    if after.len() == 0 {
        assert(rest + after =~= rest);
    } else {
        assert((rest + after).last() == after.last());
        assert((rest + after).drop_last() =~= rest + after.drop_last());
        lemma_trim_end(rest, after.drop_last());
    }
}

/// Trimming removes all white space around a text, and nothing else: between white
/// space, what starts and ends with something else is kept as it is, and of
/// nothing but white space nothing is left.
pub proof fn law_trim(before: Seq<char>, inner: Seq<char>, after: Seq<char>)
    requires
        forall|i: int| 0 <= i < before.len() ==> is_white_space(#[trigger] before[i]),
        forall|i: int| 0 <= i < after.len() ==> is_white_space(#[trigger] after[i]),
        inner.len() > 0 ==> !is_white_space(inner[0]) && !is_white_space(inner.last()),
    ensures
        trim(before + inner + after) == inner,
{
    if inner.len() == 0 {
        let all = before + after;
        assert(before + inner + after =~= all + inner);
        assert forall|i: int| 0 <= i < all.len() implies is_white_space(#[trigger] all[i]) by {
            if i < before.len() {
                assert(all[i] == before[i]);
            } else {
                assert(all[i] == after[i - before.len()]);
            }
        }
        lemma_trim_start(all, inner);
        assert(trim_end(inner) == inner);
    } else {
        assert(before + inner + after =~= before + (inner + after));
        lemma_trim_start(before, inner + after);
        lemma_trim_end(inner, after);
    }
}

/// The lines of a text are what stands between its line feeds: the first line ends
/// at the first one, which it does not keep, nor a carriage return before it, and
/// the others are those of what follows. What is left without a line feed is a
/// line as it is, unless it is empty.
pub proof fn law_lines(line: Seq<char>, rest: Seq<char>)
    requires
        !line.contains('\n'),
    ensures
        line.len() == 0 ==> lines(line) == Seq::<Seq<char>>::empty(),
        line.len() > 0 ==> lines(line) == seq![line],
        line.len() == 0 || line.last() != '\r' ==> lines(line + seq!['\n'] + rest) == seq![line]
            + lines(rest),
        lines(line + seq!['\r', '\n'] + rest) == seq![line] + lines(rest),
{
    assert forall|j: int| 0 <= j < line.len() implies #[trigger] line[j] != '\n' by {
        assert(line.contains(line[j]));
    }
    lemma_line_end(line, 0);
    let plain = line + seq!['\n'] + rest;
    let end = line.len() as int;
    assert forall|j: int| 0 <= j < end implies plain[j] != '\n' by {
        assert(plain[j] == line[j]);
    }
    lemma_line_end_is(plain, 0, end);
    assert(plain.take(end) =~= line);
    assert(plain.skip(end + 1) =~= rest);
    let returned = line + seq!['\r', '\n'] + rest;
    assert forall|j: int| 0 <= j < end + 1 implies returned[j] != '\n' by {
        if j < end {
            assert(returned[j] == line[j]);
        }
    }
    lemma_line_end_is(returned, 0, end + 1);
    assert(returned.take(end + 1) =~= line.push('\r'));
    assert(line.push('\r').drop_last() =~= line);
    assert(returned.skip(end + 2) =~= rest);
}

proof fn lemma_trim_start_keeps(text: Seq<char>, i: int)
    requires
        0 <= i < text.len(),
        !is_white_space(text[i]),
    ensures
        trim_start(text).len() > 0,
        !is_white_space(trim_start(text)[0]),
    decreases text.len(),
{
    if is_white_space(text[0]) {
        assert(text.skip(1)[i - 1] == text[i]);
        lemma_trim_start_keeps(text.skip(1), i - 1);
    }
}

proof fn lemma_trim_end_keeps(text: Seq<char>)
    requires
        text.len() > 0,
        !is_white_space(text[0]),
    ensures
        trim_end(text).len() > 0,
    decreases text.len(),
{
    if is_white_space(text.last()) {
        assert(text.drop_last()[0] == text[0]);
        lemma_trim_end_keeps(text.drop_last());
    }
}

/// Of a text nothing is left by trimming exactly where it holds nothing but white
/// space.
pub proof fn law_blank(text: Seq<char>)
    ensures
        trim(text).len() == 0 <==> forall|i: int|
            0 <= i < text.len() ==> is_white_space(#[trigger] text[i]),
{
    if forall|i: int| 0 <= i < text.len() ==> is_white_space(#[trigger] text[i]) {
        law_trim(text, Seq::empty(), Seq::empty());
        assert(text + Seq::<char>::empty() + Seq::<char>::empty() =~= text);
    } else {
        let i = choose|i: int| 0 <= i < text.len() && !is_white_space(#[trigger] text[i]);
        lemma_trim_start_keeps(text, i);
        lemma_trim_end_keeps(trim_start(text));
    }
}

} // verus!

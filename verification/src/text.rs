//! Searching and trimming text, character by character.

use vstd::prelude::*;
use vstd::string::*;

verus! {

/// The index of the first `wanted` in `text`, or the length of `text` if there is none.
pub open spec fn position(text: Seq<char>, wanted: char) -> int
    decreases text.len(),
{
    if text.len() == 0 || text[0] == wanted {
        0
    } else {
        1 + position(text.drop_first(), wanted)
    }
}

/// `position` is the index before which `wanted` does not occur, and at which it does.
pub proof fn lemma_position(text: Seq<char>, wanted: char, at: int)
    requires
        0 <= at <= text.len(),
        forall|i: int| 0 <= i < at ==> text[i] != wanted,
        at < text.len() ==> text[at] == wanted,
    ensures
        position(text, wanted) == at,
    decreases text.len(),
{
    if at > 0 {
        lemma_position(text.drop_first(), wanted, at - 1);
    }
}

/// What `position` says of the characters before and at it.
pub proof fn lemma_position_characters(text: Seq<char>, wanted: char)
    ensures
        0 <= position(text, wanted) <= text.len(),
        forall|i: int| 0 <= i < position(text, wanted) ==> text[i] != wanted,
        position(text, wanted) < text.len() ==> text[position(text, wanted)] == wanted,
    decreases text.len(),
{
    if text.len() > 0 && text[0] != wanted {
        let rest = text.drop_first();
        lemma_position_characters(rest, wanted);
        assert forall|i: int| 0 <= i < position(text, wanted) implies text[i] != wanted by {
            if i > 0 {
                assert(rest[i - 1] == text[i]);
            }
        }
    }
}

/// Whether `c` has the Unicode property `White_Space`.
pub open spec fn is_white_space(c: char) -> bool {
    let code = c as u32;
    ||| 0x9 <= code <= 0xd
    ||| code == 0x20
    ||| code == 0x85
    ||| code == 0xa0
    ||| code == 0x1680
    ||| 0x2000 <= code <= 0x200a
    ||| 0x2028 <= code <= 0x2029
    ||| code == 0x202f
    ||| code == 0x205f
    ||| code == 0x3000
}

/// `text` without the white space at its start.
pub open spec fn trimmed_start(text: Seq<char>) -> Seq<char>
    decreases text.len(),
{
    if text.len() > 0 && is_white_space(text[0]) {
        trimmed_start(text.drop_first())
    } else {
        text
    }
}

/// `text` without the white space at its end.
pub open spec fn trimmed_end(text: Seq<char>) -> Seq<char>
    decreases text.len(),
{
    if text.len() > 0 && is_white_space(text.last()) {
        trimmed_end(text.drop_last())
    } else {
        text
    }
}

/// `text` without the white space at both ends.
pub open spec fn trimmed(text: Seq<char>) -> Seq<char> {
    trimmed_end(trimmed_start(text))
}

/// The characters of `text`.
pub fn characters(text: &str) -> (chars: Vec<char>)
    ensures
        chars@ == text@,
{
    let mut chars: Vec<char> = Vec::new();
    for c in it: text.chars()
        invariant
            it.seq() == text@,
            chars@ == text@.take(it.index()),
    {
        chars.push(c);
        assert(text@.take(it.index() + 1) == text@.take(it.index()).push(c));
    }
    assert(text@.take(text@.len() as int) == text@);
    chars
}

/// The index of the first `wanted` in `chars` at or after `from`, or the length of `chars`.
pub fn find(chars: &Vec<char>, from: usize, wanted: char) -> (at: usize)
    requires
        from <= chars@.len(),
    ensures
        at == from + position(chars@.skip(from as int), wanted),
        from <= at <= chars@.len(),
        at < chars@.len() ==> chars@[at as int] == wanted,
{
    let mut at: usize = from;
    while at < chars.len() && chars[at] != wanted
        invariant
            from <= at <= chars@.len(),
            forall|i: int| from <= i < at ==> chars@[i] != wanted,
        decreases chars@.len() - at,
    {
        at = at + 1;
    }
    proof {
        lemma_position(chars@.skip(from as int), wanted, at - from);
    }
    at
}

/// Whether `c` is white space, as Unicode defines it.
pub fn white_space(c: char) -> (yes: bool)
    ensures
        yes == is_white_space(c),
{
    let code: u32 = c as u32;
    (0x9 <= code && code <= 0xd) || code == 0x20 || code == 0x85 || code == 0xa0 || code == 0x1680
        || (0x2000 <= code && code <= 0x200a) || (0x2028 <= code && code <= 0x2029) || code == 0x202f
        || code == 0x205f || code == 0x3000
}

/// `text` without the white space at both ends.
pub fn trim(text: &str) -> (inner: &str)
    ensures
        inner@ == trimmed(text@),
{
    let chars = characters(text);
    let mut start: usize = 0;
    assert(text@.skip(0) == text@);
    while start < chars.len() && white_space(chars[start])
        invariant
            chars@ == text@,
            start <= chars@.len(),
            trimmed_start(text@.skip(start as int)) == trimmed_start(text@),
        decreases chars@.len() - start,
    {
        assert(text@.skip(start as int).drop_first() == text@.skip(start + 1));
        start = start + 1;
    }
    let mut end: usize = chars.len();
    assert(text@.subrange(start as int, end as int) == text@.skip(start as int));
    assert(trimmed_start(text@) == text@.skip(start as int));
    while start < end && white_space(chars[end - 1])
        invariant
            chars@ == text@,
            start <= end <= chars@.len(),
            trimmed_end(text@.subrange(start as int, end as int)) == trimmed(text@),
        decreases end,
    {
        assert(text@.subrange(start as int, end as int).drop_last() == text@.subrange(
            start as int,
            end - 1,
        ));
        end = end - 1;
    }
    text.substring_char(start, end)
}

/// Whether the two texts are the same.
pub fn same(left: &str, right: &str) -> (yes: bool)
    ensures
        yes == (left@ == right@),
{
    left.to_owned() == right.to_owned()
}

/// White space around a text is taken off, and nothing of a text that neither starts nor ends with
/// white space.
pub proof fn law_white_space_is_taken_off(before: Seq<char>, inner: Seq<char>, after: Seq<char>)
    requires
        forall|i: int| 0 <= i < before.len() ==> is_white_space(#[trigger] before[i]),
        forall|i: int| 0 <= i < after.len() ==> is_white_space(#[trigger] after[i]),
        inner.len() > 0 ==> !is_white_space(inner[0]) && !is_white_space(inner.last()),
    ensures
        trimmed(before + inner + after) == inner,
    decreases before.len() + after.len(),
{
    let text = before + inner + after;
    if before.len() > 0 {
        let rest = before.drop_first();
        assert(is_white_space(before[0]));
        assert(text.drop_first() == rest + inner + after);
        assert forall|i: int| 0 <= i < rest.len() implies is_white_space(#[trigger] rest[i]) by {
            assert(rest[i] == before[i + 1]);
        }
        law_white_space_is_taken_off(rest, inner, after);
    } else if inner.len() == 0 {
        if after.len() > 0 {
            let rest = after.drop_first();
            assert(is_white_space(after[0]));
            assert(text.drop_first() == before + inner + rest);
            assert forall|i: int| 0 <= i < rest.len() implies is_white_space(#[trigger] rest[i]) by {
                assert(rest[i] == after[i + 1]);
            }
            law_white_space_is_taken_off(before, inner, rest);
        } else {
            assert(text == inner);
        }
    } else {
        assert(text == inner + after);
        assert(trimmed_start(text) == text);
        if after.len() > 0 {
            let rest = after.drop_last();
            assert(is_white_space(after.last()));
            assert(text.drop_last() == before + inner + rest);
            assert forall|i: int| 0 <= i < rest.len() implies is_white_space(#[trigger] rest[i]) by {
                assert(rest[i] == after[i]);
            }
            law_white_space_is_taken_off(before, inner, rest);
            assert(trimmed_start(before + inner + rest) == before + inner + rest);
        } else {
            assert(text == inner);
        }
    }
}

} // verus!

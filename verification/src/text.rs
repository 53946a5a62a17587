//! Strings and their characters.

use vstd::prelude::*;

verus! {

/// `String::push` of the standard library appends one character to the end of
/// the string. Taken from its documentation, not proved.
pub assume_specification[ String::push ](s: &mut String, c: char)
    ensures
        final(s)@ == old(s)@.push(c),
;

/// The first place at or after `from` that holds `c`, or the end of the text.
pub open spec fn find(s: Seq<char>, from: int, c: char) -> int
    decreases s.len() - from,
{
    if from < 0 || from >= s.len() || s[from] == c {
        from
    } else {
        find(s, from + 1, c)
    }
}

/// The end of the line that `from` lies in: the place of the next line
/// break, or the end of the text.
pub open spec fn line_end(s: Seq<char>, from: int) -> int {
    find(s, from, '\n')
}

/// The place behind a closing mark of `width` characters that stands at
/// `end`; the end of the text where `end` is the end of the text.
pub open spec fn past(s: Seq<char>, end: int, width: int) -> int {
    if end + width <= s.len() {
        end + width
    } else {
        s.len() as int
    }
}

/// Where a search ends: not before `from`, not behind the end of the text,
/// and behind `from` where `from` does not hold the character.
pub proof fn lemma_find_bounds(s: Seq<char>, from: int, c: char)
    requires
        0 <= from <= s.len(),
    ensures
        from <= find(s, from, c) <= s.len(),
        from < s.len() && s[from] != c ==> from < find(s, from, c),
    decreases s.len() - from,
{
    if from < s.len() {
        lemma_find_bounds(s, from + 1, c);
    }
}

/// The line that starts at `pos`, without its line break, and without a
/// carriage return in front of the line break.
pub open spec fn line_at(s: Seq<char>, pos: int) -> Seq<char> {
    let end = line_end(s, pos);
    let raw = s.subrange(pos, end);
    if end < s.len() && raw.len() > 0 && raw.last() == '\r' {
        raw.drop_last()
    } else {
        raw
    }
}

/// White space as Unicode has it.
pub open spec fn is_space(c: char) -> bool {
    ('\u{9}' <= c && c <= '\u{d}') || c == ' ' || c == '\u{85}' || c == '\u{a0}' || c
        == '\u{1680}' || ('\u{2000}' <= c && c <= '\u{200a}') || c == '\u{2028}' || c
        == '\u{2029}' || c == '\u{202f}' || c == '\u{205f}' || c == '\u{3000}'
}

/// A text without the white space at its front.
pub open spec fn trim_front(text: Seq<char>) -> Seq<char>
    decreases text.len(),
{
    if text.len() > 0 && is_space(text[0]) {
        trim_front(text.drop_first())
    } else {
        text
    }
}

/// A text without the white space at its back.
pub open spec fn trim_back(text: Seq<char>) -> Seq<char>
    decreases text.len(),
{
    if text.len() > 0 && is_space(text.last()) {
        trim_back(text.drop_last())
    } else {
        text
    }
}

/// A text without the white space around it.
pub open spec fn trim(text: Seq<char>) -> Seq<char> {
    trim_back(trim_front(text))
}

/// The characters of a string, in order.
pub fn chars_of(text: &str) -> (chars: Vec<char>)
    ensures
        chars@ == text@,
{
    let mut chars: Vec<char> = Vec::new();
    for c in it: text.chars()
        invariant
            it.seq() == text@,
            chars@ == text@.take(it.index() as int),
    {
        chars.push(c);
        assert(text@.take(it.index() + 1) =~= text@.take(it.index() as int).push(c));
    }
    assert(text@.take(text@.len() as int) =~= text@);
    chars
}

/// The characters of `chars` from `from` up to `to`, as a string.
pub fn string_of(chars: &Vec<char>, from: usize, to: usize) -> (text: String)
    requires
        from <= to <= chars.len(),
    ensures
        text@ == chars@.subrange(from as int, to as int),
{
    let mut text = String::new();
    let mut i: usize = from;
    assert(text@ =~= chars@.subrange(from as int, i as int));
    while i < to
        invariant
            from <= i <= to <= chars.len(),
            text@ == chars@.subrange(from as int, i as int),
        decreases to - i,
    {
        text.push(chars[i]);
        i += 1;
        assert(text@ =~= chars@.subrange(from as int, i as int));
    }
    text
}

/// The first place at or after `from` that holds `stop`, or the end.
pub fn find_char(chars: &Vec<char>, from: usize, stop: char) -> (end: usize)
    requires
        from <= chars.len(),
    ensures
        end == find(chars@, from as int, stop),
        from <= end <= chars.len(),
{
    let mut end: usize = from;
    while end < chars.len() && chars[end] != stop
        invariant
            from <= end <= chars.len(),
            find(chars@, from as int, stop) == find(chars@, end as int, stop),
        decreases chars.len() - end,
    {
        end += 1;
    }
    end
}

/// Whether the characters of `chars` from `from` up to `to` start with
/// `prefix`.
pub fn has_prefix(chars: &Vec<char>, from: usize, to: usize, prefix: &Vec<char>) -> (found: bool)
    requires
        from <= to <= chars.len(),
    ensures
        found == prefix@.is_prefix_of(chars@.subrange(from as int, to as int)),
{
    let ghost part = chars@.subrange(from as int, to as int);
    if prefix.len() > to - from {
        return false;
    }
    let mut i: usize = 0;
    while i < prefix.len()
        invariant
            i <= prefix.len() <= to - from,
            to <= chars.len(),
            part == chars@.subrange(from as int, to as int),
            forall|k: int| 0 <= k < i ==> prefix@[k] == part[k],
        decreases prefix.len() - i,
    {
        if prefix[i] != chars[from + i] {
            proof {
                let head = part.subrange(0, prefix@.len() as int);
                assert(head[i as int] == part[i as int]);
            }
            return false;
        }
        i += 1;
    }
    assert(prefix@ =~= part.subrange(0, prefix@.len() as int));
    true
}

/// Whether `c` is white space as Unicode has it.
pub fn is_whitespace(c: char) -> (space: bool)
    ensures
        space == is_space(c),
{
    ('\u{9}' <= c && c <= '\u{d}') || c == ' ' || c == '\u{85}' || c == '\u{a0}' || c
        == '\u{1680}' || ('\u{2000}' <= c && c <= '\u{200a}') || c == '\u{2028}' || c
        == '\u{2029}' || c == '\u{202f}' || c == '\u{205f}' || c == '\u{3000}'
}

} // verus!

//! What holds of the inline spans of every line.

use vstd::prelude::*;
use crate::grammar::{find_pair, is_mark, plain_end, spans, spans_from};
use crate::model::Span;
use crate::scanning::lemma_search_behind;
use crate::text::{find, lemma_find_bounds, past};

verus! {

/// Whether a text holds no `c`.
pub open spec fn free_of(text: Seq<char>, c: char) -> bool {
    forall|i: int| 0 <= i < text.len() ==> #[trigger] text[i] != c
}

/// Whether a text holds neither a backtick nor an asterisk.
pub open spec fn unmarked(text: Seq<char>) -> bool {
    forall|i: int| 0 <= i < text.len() ==> !is_mark(#[trigger] text[i])
}

/// The searches for the marks in a text that stands behind another text.
pub proof fn lemma_mark_searches_behind(front: Seq<char>, text: Seq<char>, from: int)
    requires
        0 <= from <= text.len(),
    ensures
        find_pair(front + text, front.len() + from) == front.len() + find_pair(text, from),
        plain_end(front + text, front.len() + from) == front.len() + plain_end(text, from),
    decreases text.len() - from,
{
    if from < text.len() {
        assert((front + text)[front.len() + from] == text[from]);
        if from + 1 < text.len() {
            assert((front + text)[front.len() + from + 1] == text[from + 1]);
        }
        lemma_mark_searches_behind(front, text, from + 1);
    }
}

/// Where the searches for the marks end.
pub proof fn lemma_mark_bounds(s: Seq<char>, from: int)
    requires
        0 <= from <= s.len(),
    ensures
        from <= find_pair(s, from) <= s.len(),
        from <= plain_end(s, from) <= s.len(),
        from < s.len() && !is_mark(s[from]) ==> from < plain_end(s, from),
        find_pair(s, from) < s.len() ==> find_pair(s, from) + 2 <= s.len(),
    decreases s.len() - from,
{
    if from < s.len() {
        lemma_mark_bounds(s, from + 1);
    }
}

/// The spans of a line from a place on are seen from the rest of the line
/// alone: what stands in front of the place does not count.
pub proof fn lemma_spans_behind(front: Seq<char>, text: Seq<char>, from: int)
    requires
        0 <= from <= text.len(),
    ensures
        spans_from(front + text, front.len() + from) == spans_from(text, from),
    decreases text.len() - from,
{
    let s = front + text;
    let n = front.len() as int;
    if from < text.len() {
        assert(s[n + from] == text[from]);
        if from + 1 < text.len() {
            assert(s[n + from + 1] == text[from + 1]);
        }
        lemma_mark_searches_behind(front, text, from);
        lemma_mark_bounds(text, from);
        if from + 1 <= text.len() {
            lemma_search_behind(front, text, from + 1, '`');
            lemma_search_behind(front, text, from + 1, '*');
            lemma_find_bounds(text, from + 1, '`');
            lemma_find_bounds(text, from + 1, '*');
        }
        if from + 2 <= text.len() {
            lemma_mark_searches_behind(front, text, from + 2);
            lemma_mark_bounds(text, from + 2);
        }
        if text[from] == '`' {
            let end = find(text, from + 1, '`');
            assert(s.subrange(n + from + 1, n + end) =~= text.subrange(from + 1, end));
            lemma_spans_behind(front, text, past(text, end, 1));
        } else if text[from] == '*' && from + 1 < text.len() && text[from + 1] == '*' {
            let end = find_pair(text, from + 2);
            assert(s.subrange(n + from + 2, n + end) =~= text.subrange(from + 2, end));
            lemma_spans_behind(front, text, past(text, end, 2));
        } else if text[from] == '*' {
            let end = find(text, from + 1, '*');
            assert(s.subrange(n + from + 1, n + end) =~= text.subrange(from + 1, end));
            lemma_spans_behind(front, text, past(text, end, 1));
        } else {
            let end = plain_end(text, from);
            assert(s.subrange(n + from, n + end) =~= text.subrange(from, end));
            lemma_spans_behind(front, text, end);
        }
    }
}

/// A text without marks, in front of a mark or at the end of the line, is
/// one span of text.
pub proof fn lemma_text_span(text: Seq<char>, rest: Seq<char>)
    requires
        text.len() > 0,
        unmarked(text),
        rest.len() == 0 || is_mark(rest[0]),
    ensures
        spans(text + rest) == seq![Span::Text(text)] + spans(rest),
{
    let s = text + rest;
    assert(s[0] == text[0]);
    lemma_plain_passes(text, rest, 0);
    assert(plain_end(s, 0) == text.len());
    assert(s.subrange(0, text.len() as int) =~= text);
    lemma_spans_behind(text, rest, 0);
}

/// The search for a mark passes over a text without marks and stops behind
/// it, in front of a mark or at the end of the line.
proof fn lemma_plain_passes(text: Seq<char>, rest: Seq<char>, from: int)
    requires
        0 <= from <= text.len(),
        unmarked(text),
        rest.len() == 0 || is_mark(rest[0]),
    ensures
        plain_end(text + rest, from) == text.len(),
    decreases text.len() - from,
{
    if from < text.len() {
        assert((text + rest)[from] == text[from]);
        lemma_plain_passes(text, rest, from + 1);
    } else if rest.len() > 0 {
        assert((text + rest)[from] == rest[0]);
    }
}

/// A text without backticks between two backticks is one span of code,
/// whatever else the text holds.
pub proof fn lemma_code_span(code: Seq<char>, rest: Seq<char>)
    requires
        free_of(code, '`'),
    ensures
        spans(seq!['`'] + code + seq!['`'] + rest) == seq![Span::Code(code)] + spans(rest),
{
    let front = seq!['`'] + code + seq!['`'];
    let s = front + rest;
    let end = (code.len() + 1) as int;
    assert(s[0] == '`');
    assert(s[end] == '`');
    assert forall|i: int| 1 <= i < end implies s[i] != '`' by {
        assert(s[i] == code[i - 1]);
    }
    lemma_find_stops(s, 1, end, '`');
    assert(s.subrange(1, end) =~= code);
    assert(past(s, end, 1) == front.len());
    lemma_spans_behind(front, rest, 0);
}

/// A search stops at the first place that holds the character.
pub proof fn lemma_find_stops(s: Seq<char>, from: int, end: int, c: char)
    requires
        0 <= from <= end < s.len(),
        forall|i: int| from <= i < end ==> s[i] != c,
        s[end] == c,
    ensures
        find(s, from, c) == end,
    decreases end - from,
{
    if from < end {
        lemma_find_stops(s, from + 1, end, c);
    }
}

/// A text without asterisks, and not empty, between two asterisks is one
/// italic span, whatever else the text holds.
pub proof fn lemma_italic_span(text: Seq<char>, rest: Seq<char>)
    requires
        text.len() > 0,
        free_of(text, '*'),
    ensures
        spans(seq!['*'] + text + seq!['*'] + rest) == seq![Span::Italic(text)] + spans(rest),
{
    let front = seq!['*'] + text + seq!['*'];
    let s = front + rest;
    let end = (text.len() + 1) as int;
    assert(s[0] == '*');
    assert(s[1] == text[0]);
    assert(s[end] == '*');
    assert forall|i: int| 1 <= i < end implies s[i] != '*' by {
        assert(s[i] == text[i - 1]);
    }
    lemma_find_stops(s, 1, end, '*');
    assert(s.subrange(1, end) =~= text);
    assert(past(s, end, 1) == front.len());
    lemma_spans_behind(front, rest, 0);
}

/// The search for two asterisks stops at the first place that holds them.
pub proof fn lemma_find_pair_stops(s: Seq<char>, from: int, end: int)
    requires
        0 <= from <= end,
        end + 1 < s.len(),
        forall|i: int| from <= i < end ==> s[i] != '*',
        s[end] == '*',
        s[end + 1] == '*',
    ensures
        find_pair(s, from) == end,
    decreases end - from,
{
    if from < end {
        lemma_find_pair_stops(s, from + 1, end);
    }
}

/// A text without asterisks between two pairs of asterisks is one bold span,
/// whatever else the text holds.
pub proof fn lemma_bold_span(text: Seq<char>, rest: Seq<char>)
    requires
        free_of(text, '*'),
    ensures
        spans(seq!['*', '*'] + text + seq!['*', '*'] + rest) == seq![Span::Bold(text)] + spans(
            rest,
        ),
{
    let front = seq!['*', '*'] + text + seq!['*', '*'];
    let s = front + rest;
    let end = (text.len() + 2) as int;
    assert(s[0] == '*');
    assert(s[1] == '*');
    assert(s[end] == '*');
    assert(s[end + 1] == '*');
    assert forall|i: int| 2 <= i < end implies s[i] != '*' by {
        assert(s[i] == text[i - 2]);
    }
    lemma_find_pair_stops(s, 2, end);
    assert(s.subrange(2, end) =~= text);
    assert(past(s, end, 2) == front.len());
    lemma_spans_behind(front, rest, 0);
}

/// A span that is not closed runs to the end of the line: a backtick and a
/// text without backticks are one span of code.
pub proof fn lemma_open_code_span(code: Seq<char>)
    requires
        free_of(code, '`'),
    ensures
        spans(seq!['`'] + code) == seq![Span::Code(code)],
{
    let s = seq!['`'] + code;
    assert(s[0] == '`');
    assert forall|i: int| 1 <= i < s.len() implies s[i] != '`' by {
        assert(s[i] == code[i - 1]);
    }
    lemma_find_runs_out(s, 1, '`');
    assert(s.subrange(1, s.len() as int) =~= code);
    assert(spans_from(s, s.len() as int) =~= Seq::empty());
}

/// A search that finds nothing ends at the end of the text.
pub proof fn lemma_find_runs_out(s: Seq<char>, from: int, c: char)
    requires
        0 <= from <= s.len(),
        forall|i: int| from <= i < s.len() ==> s[i] != c,
    ensures
        find(s, from, c) == s.len(),
    decreases s.len() - from,
{
    if from < s.len() {
        lemma_find_runs_out(s, from + 1, c);
    }
}

} // verus!

//! What holds of the blocks of every text.

use vstd::prelude::*;
use crate::grammar::{
    State, blocks, fence, heading, heading_level, heading_step, is_blank, item_step,
    lemma_search_bounds, lemma_step_advances, scan, skip_blanks, spans, step, text_step,
};
use crate::lexer::ListTypes;
use crate::markup::renderable;
use crate::model::{Block, Item};
use crate::text::{find, line_end};

verus! {

/// Whether the renderer has markup for each of the blocks.
pub open spec fn all_renderable(out: Seq<Block>) -> bool {
    forall|i: int| 0 <= i < out.len() ==> renderable(#[trigger] out[i])
}

/// A move of the scanner adds no block that the renderer has no markup for.
pub proof fn lemma_step_renderable(s: Seq<char>, st: State)
    requires
        0 <= st.pos < s.len(),
        all_renderable(st.out),
    ensures
        all_renderable(step(s, st).out),
{
    let next = step(s, st).out;
    assert forall|i: int| 0 <= i < next.len() implies renderable(#[trigger] next[i]) by {
        if i < st.out.len() - 1 {
            assert(next[i] == st.out[i]);
        } else if i < st.out.len() && next.len() > st.out.len() {
            assert(next[i] == st.out[i]);
        } else if i < st.out.len() && next[i] != st.out[i] {
            assert(next[i] is Li && next[i]->Li_0.len() > 0);
        } else if i < st.out.len() {
            assert(next[i] == st.out[i]);
        }
    }
}

/// The scanner ends with blocks that the renderer has markup for, if it
/// starts with such.
pub proof fn lemma_scan_renderable(s: Seq<char>, st: State)
    requires
        all_renderable(st.out),
    ensures
        all_renderable(scan(s, st)),
    decreases s.len() - st.pos,
{
    if 0 <= st.pos < s.len() {
        lemma_step_advances(s, st);
        lemma_step_renderable(s, st);
        lemma_scan_renderable(s, step(s, st));
    }
}

/// The renderer has markup for every block of every text: the scanner makes
/// neither a link nor an image, and no list without items.
pub proof fn lemma_blocks_renderable(s: Seq<char>)
    ensures
        all_renderable(blocks(s)),
{
    lemma_scan_renderable(s, State { pos: 0, indent: 0, out: Seq::empty() });
}

/// Whether no two lists stand side by side.
pub open spec fn lists_apart(out: Seq<Block>) -> bool {
    forall|i: int| 0 <= i < out.len() - 1 ==> !((#[trigger] out[i]) is Li && out[i + 1] is Li)
}

/// A move of the scanner puts no list behind a list.
pub proof fn lemma_step_lists_apart(s: Seq<char>, st: State)
    requires
        0 <= st.pos < s.len(),
        lists_apart(st.out),
    ensures
        lists_apart(step(s, st).out),
{
    let next = step(s, st).out;
    assert forall|i: int| 0 <= i < next.len() - 1 implies !((#[trigger] next[i]) is Li && next[i
        + 1] is Li) by {
        if i + 1 < st.out.len() - 1 {
            assert(next[i] == st.out[i]);
            assert(next[i + 1] == st.out[i + 1]);
        } else if next.len() == st.out.len() {
            assert(next[i] == st.out[i]);
            assert(st.out[i + 1] is Li ==> !(st.out[i] is Li));
        } else {
            assert(next[i] == st.out[i]);
        }
    }
}

/// The scanner ends without two lists side by side, if it starts so.
pub proof fn lemma_scan_lists_apart(s: Seq<char>, st: State)
    requires
        lists_apart(st.out),
    ensures
        lists_apart(scan(s, st)),
    decreases s.len() - st.pos,
{
    if 0 <= st.pos < s.len() {
        lemma_step_advances(s, st);
        lemma_step_lists_apart(s, st);
        lemma_scan_lists_apart(s, step(s, st));
    }
}

/// In the blocks of every text no two lists stand side by side: list items
/// that follow one another are one list, as long a one as can be.
pub proof fn lemma_blocks_lists_apart(s: Seq<char>)
    ensures
        lists_apart(blocks(s)),
{
    lemma_scan_lists_apart(s, State { pos: 0, indent: 0, out: Seq::empty() });
}

/// `n` characters `#` side by side.
pub open spec fn hashes(n: nat) -> Seq<char> {
    Seq::new(n, |i: int| '#')
}

/// Whether a text holds no line break.
pub open spec fn one_line(text: Seq<char>) -> bool {
    forall|i: int| 0 <= i < text.len() ==> #[trigger] text[i] != '\n'
}

/// A search in a text that stands behind another text.
pub proof fn lemma_search_behind(front: Seq<char>, text: Seq<char>, from: int, c: char)
    requires
        0 <= from <= text.len(),
    ensures
        find(front + text, front.len() + from, c) == front.len() + find(text, from, c),
        skip_blanks(front + text, front.len() + from) == front.len() + skip_blanks(text, from),
    decreases text.len() - from,
{
    if from < text.len() {
        assert((front + text)[front.len() + from] == text[from]);
        lemma_search_behind(front, text, from + 1, c);
    }
}

/// A line has no end before the end of the text.
pub proof fn lemma_one_line_end(text: Seq<char>, from: int)
    requires
        one_line(text),
        0 <= from <= text.len(),
    ensures
        line_end(text, from) == text.len(),
    decreases text.len() - from,
{
    if from < text.len() {
        lemma_one_line_end(text, from + 1);
    }
}

/// One, two or three `#`, a space and a text of one line are one heading, of
/// the level that the `#` count. Its text is the text without the white
/// space at its front; white space at its end stays.
pub proof fn lemma_heading_line(level: int, text: Seq<char>)
    requires
        1 <= level <= 3,
        one_line(text),
    ensures
        blocks(hashes(level as nat) + seq![' '] + text) == seq![
            heading(level, text.skip(skip_blanks(text, 0))),
        ],
        text.len() > 0 && !is_blank(text[0]) ==> blocks(hashes(level as nat) + seq![' '] + text)
            == seq![heading(level, text)],
{
    let front = hashes(level as nat) + seq![' '];
    let s = front + text;
    let start = State { pos: 0, indent: 0, out: Seq::empty() };
    let from = skip_blanks(s, level);
    let cut = skip_blanks(text, 0);
    assert(front.len() == level + 1);
    assert(s[0] == '#');
    assert(s[level] == ' ');
    assert(level >= 2 ==> s[1] == '#');
    assert(level >= 3 ==> s[2] == '#');
    assert(heading_level(s, 0) == level);
    lemma_search_bounds(text, 0, '\n');
    lemma_search_behind(front, text, 0, '\n');
    assert(skip_blanks(s, level) == skip_blanks(s, level + 1));
    assert(from == level + 1 + cut);
    lemma_search_behind(front, text, cut, '\n');
    lemma_one_line_end(text, cut);
    assert(line_end(s, from) == s.len());
    assert(s.subrange(from, s.len() as int) =~= text.skip(cut));
    let end = step(s, start);
    assert(end == heading_step(s, start));
    assert(end.pos == s.len());
    assert(end.out =~= seq![heading(level, text.skip(cut))]);
    assert(scan(s, start) == scan(s, end));
    if text.len() > 0 && !is_blank(text[0]) {
        assert(text.skip(0) =~= text);
    }
}

/// Whether a text holds nothing but spaces and tabs.
pub open spec fn only_indent(text: Seq<char>) -> bool {
    forall|i: int| 0 <= i < text.len() ==> (#[trigger] text[i]) == ' ' || text[i] == '\t'
}

/// The scanner reads the spaces and tabs at the front of a text one by one
/// and counts them.
pub proof fn lemma_scan_indent(s: Seq<char>, k: int, n: int)
    requires
        0 <= k <= n <= s.len(),
        only_indent(s.take(n)),
    ensures
        scan(s, State { pos: k, indent: k as nat, out: Seq::empty() }) == scan(
            s,
            State { pos: n, indent: n as nat, out: Seq::empty() },
        ),
    decreases n - k,
{
    if k < n {
        let st = State { pos: k, indent: k as nat, out: Seq::empty() };
        assert(s.take(n)[k] == s[k]);
        assert(step(s, st) == State { pos: k + 1, indent: (k + 1) as nat, out: Seq::empty() });
        lemma_scan_indent(s, k + 1, n);
    }
}

/// The marker of a list item: `-` for an unordered list, `1.` for an ordered
/// one.
pub open spec fn marker(kind: ListTypes) -> Seq<char> {
    match kind {
        ListTypes::Ul => seq!['-'],
        ListTypes::Ol => seq!['1', '.'],
    }
}

/// Spaces and tabs, a marker and a text of one line are one list of one
/// item. The item's indent is the number of the spaces and tabs, and its
/// spans are those of the text without the white space at its front.
pub proof fn lemma_item_line(blanks: Seq<char>, kind: ListTypes, text: Seq<char>)
    requires
        only_indent(blanks),
        one_line(text),
    ensures
        blocks(blanks + marker(kind) + text) == seq![
            Block::Li(
                seq![
                    Item {
                        list_type: kind,
                        indent: blanks.len(),
                        contents: spans(text.skip(skip_blanks(text, 0))),
                    },
                ],
            ),
        ],
{
    let n = blanks.len() as int;
    let front = blanks + marker(kind);
    let s = front + text;
    let cut = skip_blanks(text, 0);
    let st = State { pos: n, indent: n as nat, out: Seq::empty() };
    assert(s.take(n) =~= blanks);
    lemma_scan_indent(s, 0, n);
    assert(s[n] == marker(kind)[0]);
    if kind == ListTypes::Ol {
        assert(s[n + 1] == marker(kind)[1]);
    }
    let from = skip_blanks(s, front.len() as int);
    lemma_search_bounds(text, 0, '\n');
    lemma_search_behind(front, text, 0, '\n');
    lemma_search_behind(front, text, cut, '\n');
    lemma_one_line_end(text, cut);
    assert(from == front.len() + cut);
    assert(line_end(s, from) == s.len());
    assert(s.subrange(from, s.len() as int) =~= text.skip(cut));
    let end = step(s, st);
    assert(end == item_step(s, st, kind, marker(kind).len() as int));
    assert(end.pos == s.len());
    assert(scan(s, st) == scan(s, end));
}

/// Spaces and tabs and a text of one line are one paragraph with the spans of
/// the text, if the text starts with a character that opens no other block:
/// not with `#`, `-` or `1`, and not with three backticks.
pub proof fn lemma_paragraph_line(blanks: Seq<char>, text: Seq<char>)
    requires
        only_indent(blanks),
        one_line(text),
        text.len() > 0,
        text[0] != '#' && text[0] != '-' && text[0] != '1' && text[0] != ' ' && text[0] != '\t',
        !fence().is_prefix_of(text),
    ensures
        blocks(blanks + text) == seq![Block::P(spans(text))],
{
    let n = blanks.len() as int;
    let s = blanks + text;
    let st = State { pos: n, indent: n as nat, out: Seq::empty() };
    assert(s.take(n) =~= blanks);
    lemma_scan_indent(s, 0, n);
    assert(s[n] == text[0]);
    lemma_search_behind(blanks, text, 0, '\n');
    lemma_one_line_end(text, 0);
    assert(line_end(s, n) == s.len());
    assert(s.subrange(n, s.len() as int) =~= text);
    let end = step(s, st);
    assert(end == text_step(s, st));
    assert(end.pos == s.len());
    assert(end.out =~= seq![Block::P(spans(text))]);
    assert(scan(s, st) == scan(s, end));
}

} // verus!

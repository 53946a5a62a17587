//! What the tokenizer makes of a text, as functions of specifications.
//!
//! A text is a sequence of characters, and a place in it is an index. The
//! scanner walks the text once from the left; [`State`] is what it knows at
//! a place, [`step`] is one move, and [`blocks`] is where it ends.

use vstd::prelude::*;
use crate::lexer::ListTypes;
use crate::model::{Block, Item, Span};
use crate::text::{find, lemma_find_bounds, line_end, past, trim_back};

verus! {

/// The white space of ASCII: space, tab, line feed, form feed and carriage
/// return.
pub open spec fn is_blank(c: char) -> bool {
    c == ' ' || c == '\t' || c == '\n' || c == '\x0C' || c == '\r'
}

/// The three backticks that open and close a code block.
pub open spec fn fence() -> Seq<char> {
    seq!['`', '`', '`']
}

/// The first place at or after `from` that holds no white space, or the end
/// of the text.
pub open spec fn skip_blanks(s: Seq<char>, from: int) -> int
    decreases s.len() - from,
{
    if from < 0 || from >= s.len() || !is_blank(s[from]) {
        from
    } else {
        skip_blanks(s, from + 1)
    }
}

/// The first place at or after `from` where two asterisks stand side by
/// side, or the end of the text.
pub open spec fn find_pair(s: Seq<char>, from: int) -> int
    decreases s.len() - from,
{
    if from < 0 || from >= s.len() {
        from
    } else if s[from] == '*' && from + 1 < s.len() && s[from + 1] == '*' {
        from
    } else {
        find_pair(s, from + 1)
    }
}

/// Whether `c` opens a styled span.
pub open spec fn is_mark(c: char) -> bool {
    c == '`' || c == '*'
}

/// The first place at or after `from` that holds a backtick or an asterisk,
/// or the end of the text.
pub open spec fn plain_end(s: Seq<char>, from: int) -> int
    decreases s.len() - from,
{
    if from < 0 || from >= s.len() || is_mark(s[from]) {
        from
    } else {
        plain_end(s, from + 1)
    }
}

/// Where the searches end: not before `from`, not behind the end of the text.
pub proof fn lemma_search_bounds(s: Seq<char>, from: int, c: char)
    requires
        0 <= from <= s.len(),
    ensures
        from <= find(s, from, c) <= s.len(),
        from <= skip_blanks(s, from) <= s.len(),
        from <= find_pair(s, from) <= s.len(),
        from <= plain_end(s, from) <= s.len(),
        from < s.len() && !is_mark(s[from]) ==> from < plain_end(s, from),
        from < s.len() && s[from] != c ==> from < find(s, from, c),
    decreases s.len() - from,
{
    lemma_find_bounds(s, from, c);
    if from < s.len() {
        lemma_search_bounds(s, from + 1, c);
    }
}

/// The inline spans of a line from the place `from` on.
///
/// - A backtick opens a code span, which runs to the next backtick.
/// - Two asterisks open a bold span, which runs to the next two asterisks
///   side by side.
/// - One asterisk opens an italic span, which runs to the next asterisk.
/// - Any other character opens a text span, which runs up to the next
///   backtick or asterisk.
///
/// A span that is not closed runs to the end of the line. The marks
/// themselves belong to no span.
pub open spec fn spans_from(s: Seq<char>, from: int) -> Seq<Span>
    decreases s.len() - from,
    via spans_from_decreases
{
    if from < 0 || from >= s.len() {
        Seq::empty()
    } else if s[from] == '`' {
        let end = find(s, from + 1, '`');
        seq![Span::Code(s.subrange(from + 1, end))] + spans_from(s, past(s, end, 1))
    } else if s[from] == '*' && from + 1 < s.len() && s[from + 1] == '*' {
        let end = find_pair(s, from + 2);
        seq![Span::Bold(s.subrange(from + 2, end))] + spans_from(s, past(s, end, 2))
    } else if s[from] == '*' {
        let end = find(s, from + 1, '*');
        seq![Span::Italic(s.subrange(from + 1, end))] + spans_from(s, past(s, end, 1))
    } else {
        let end = plain_end(s, from);
        seq![Span::Text(s.subrange(from, end))] + spans_from(s, end)
    }
}

#[via_fn]
proof fn spans_from_decreases(s: Seq<char>, from: int) {
    if 0 <= from < s.len() {
        lemma_search_bounds(s, from, '`');
        lemma_search_bounds(s, from + 1, '`');
        lemma_search_bounds(s, from + 1, '*');
        if from + 2 <= s.len() {
            lemma_search_bounds(s, from + 2, '*');
        }
    }
}

/// The inline spans of a line.
pub open spec fn spans(line: Seq<char>) -> Seq<Span> {
    spans_from(line, 0)
}

/// What the scanner knows at a place in the text.
pub struct State {
    /// The place: how many characters have been read.
    pub pos: int,
    /// The blanks read since the last line break.
    pub indent: nat,
    /// The blocks made so far.
    pub out: Seq<Block>,
}

/// The level of the heading whose first `#` stands at `pos`: the number of
/// `#` side by side, and 3 where there are more.
pub open spec fn heading_level(s: Seq<char>, pos: int) -> int {
    if pos + 1 < s.len() && s[pos + 1] == '#' {
        if pos + 2 < s.len() && s[pos + 2] == '#' {
            3
        } else {
            2
        }
    } else {
        1
    }
}

/// The heading of the given level.
pub open spec fn heading(level: int, text: Seq<char>) -> Block {
    if level == 1 {
        Block::H1(text)
    } else if level == 2 {
        Block::H2(text)
    } else {
        Block::H3(text)
    }
}

/// A heading: the `#` of its level are left out, then white space, and the
/// rest of the line is its text, as it is. A line break is white space too:
/// where nothing follows the `#` on their line, the text is that of the next
/// line that holds anything.
pub open spec fn heading_step(s: Seq<char>, st: State) -> State {
    let level = heading_level(s, st.pos);
    let from = skip_blanks(s, st.pos + level);
    let end = line_end(s, from);
    State { pos: end, indent: st.indent, out: st.out.push(heading(level, s.subrange(from, end))) }
}

/// The blocks with one more list item: it joins the list that is the last
/// block, or starts a list behind a last block that is no list.
pub open spec fn add_item(out: Seq<Block>, item: Item) -> Seq<Block> {
    if out.len() > 0 && out.last() is Li {
        out.drop_last().push(Block::Li(out.last()->Li_0.push(item)))
    } else {
        out.push(Block::Li(seq![item]))
    }
}

/// A list item behind a marker of `width` characters: the marker is left
/// out, then white space, line breaks too, and the rest of the line is split
/// into spans. The item's indent is the number of blanks in front of the
/// marker.
pub open spec fn item_step(s: Seq<char>, st: State, kind: ListTypes, width: int) -> State {
    let from = skip_blanks(s, st.pos + width);
    let end = line_end(s, from);
    let item = Item { list_type: kind, indent: st.indent, contents: spans(s.subrange(from, end)) };
    State { pos: end, indent: st.indent, out: add_item(st.out, item) }
}

/// A line that starts with `1`: an item of an ordered list where `.`
/// follows, else a paragraph that holds the line as one span of text.
pub open spec fn numbered_step(s: Seq<char>, st: State) -> State {
    if st.pos + 1 < s.len() && s[st.pos + 1] == '.' {
        item_step(s, st, ListTypes::Ol, 2)
    } else {
        let end = line_end(s, st.pos);
        State {
            pos: end,
            indent: st.indent,
            out: st.out.push(Block::P(seq![Span::Text(s.subrange(st.pos, end))])),
        }
    }
}

/// Whether a line closes a code block: it ends with the fence, white space
/// behind the fence left aside. What stands in front of the fence on that
/// line is left out with it.
pub open spec fn closes_fence(row: Seq<char>) -> bool {
    fence().is_suffix_of(trim_back(row))
}

/// The text of a code block whose first line starts at `from`: each line up
/// to the closing one, with a line break behind it. Without a closing line
/// the block runs to the end of the text.
pub open spec fn code_text(s: Seq<char>, from: int) -> Seq<char>
    decreases s.len() - from,
    via code_text_decreases
{
    if from < 0 || from >= s.len() {
        Seq::empty()
    } else {
        let end = line_end(s, from);
        if closes_fence(s.subrange(from, end)) {
            Seq::empty()
        } else {
            s.subrange(from, end).push('\n') + code_text(s, past(s, end, 1))
        }
    }
}

#[via_fn]
proof fn code_text_decreases(s: Seq<char>, from: int) {
    if 0 <= from < s.len() {
        lemma_search_bounds(s, from, '\n');
    }
}

/// The place behind a code block whose first line starts at `from`: behind
/// the closing line and its line break.
pub open spec fn code_end(s: Seq<char>, from: int) -> int
    decreases s.len() - from,
    via code_end_decreases
{
    if from < 0 || from >= s.len() {
        from
    } else {
        let end = line_end(s, from);
        if closes_fence(s.subrange(from, end)) {
            past(s, end, 1)
        } else {
            code_end(s, past(s, end, 1))
        }
    }
}

#[via_fn]
proof fn code_end_decreases(s: Seq<char>, from: int) {
    if 0 <= from < s.len() {
        lemma_search_bounds(s, from, '\n');
    }
}

/// Any other line: a line that starts with the fence opens a code block,
/// and what follows the fence on that line is left out; else the line is a
/// paragraph, split into spans.
pub open spec fn text_step(s: Seq<char>, st: State) -> State {
    let end = line_end(s, st.pos);
    let line = s.subrange(st.pos, end);
    if fence().is_prefix_of(line) {
        let body = past(s, end, 1);
        State { pos: code_end(s, body), indent: 0, out: st.out.push(Block::Pre(code_text(s, body))) }
    } else {
        State { pos: end, indent: st.indent, out: st.out.push(Block::P(spans(line))) }
    }
}

/// One move of the scanner, chosen by the character at its place.
pub open spec fn step(s: Seq<char>, st: State) -> State
    recommends
        0 <= st.pos < s.len(),
{
    let c = s[st.pos];
    if c == '#' {
        heading_step(s, st)
    } else if c == '-' {
        item_step(s, st, ListTypes::Ul, 1)
    } else if c == '1' {
        numbered_step(s, st)
    } else if c == '\t' || c == ' ' {
        State { pos: st.pos + 1, indent: st.indent + 1, out: st.out }
    } else if c == '\n' {
        State { pos: st.pos + 1, indent: 0, out: st.out }
    } else {
        text_step(s, st)
    }
}

/// Where a code block ends: not before its first line, not behind the end of
/// the text.
pub proof fn lemma_code_end_bounds(s: Seq<char>, from: int)
    requires
        0 <= from <= s.len(),
    ensures
        from <= code_end(s, from) <= s.len(),
    decreases s.len() - from,
{
    if from < s.len() {
        let end = line_end(s, from);
        lemma_search_bounds(s, from, '\n');
        lemma_code_end_bounds(s, past(s, end, 1));
    }
}

/// Every move reads at least one character and stays inside the text.
pub proof fn lemma_step_advances(s: Seq<char>, st: State)
    requires
        0 <= st.pos < s.len(),
    ensures
        st.pos < step(s, st).pos <= s.len(),
{
    let level = heading_level(s, st.pos);
    lemma_search_bounds(s, st.pos, '\n');
    lemma_search_bounds(s, st.pos + 1, '\n');
    lemma_search_bounds(s, st.pos + level, '\n');
    lemma_search_bounds(s, skip_blanks(s, st.pos + level), '\n');
    lemma_search_bounds(s, skip_blanks(s, st.pos + 1), '\n');
    if st.pos + 2 <= s.len() {
        lemma_search_bounds(s, st.pos + 2, '\n');
        lemma_search_bounds(s, skip_blanks(s, st.pos + 2), '\n');
    }
    lemma_code_end_bounds(s, past(s, line_end(s, st.pos), 1));
}

/// The blocks that the scanner ends with when it goes on from `st`.
pub open spec fn scan(s: Seq<char>, st: State) -> Seq<Block>
    decreases s.len() - st.pos,
    via scan_decreases
{
    if st.pos < 0 || st.pos >= s.len() {
        st.out
    } else {
        scan(s, step(s, st))
    }
}

#[via_fn]
proof fn scan_decreases(s: Seq<char>, st: State) {
    if 0 <= st.pos < s.len() {
        lemma_step_advances(s, st);
    }
}

/// The blocks of a text.
pub open spec fn blocks(s: Seq<char>) -> Seq<Block> {
    scan(s, State { pos: 0, indent: 0, out: Seq::empty() })
}

} // verus!

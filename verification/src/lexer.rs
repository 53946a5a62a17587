//! The tokenizer: from a text to its block nodes.
//!
//! The nodes hold strings; the specifications speak of their views, which
//! hold sequences of characters ([`Block`], [`Item`], [`Span`]).

use vstd::prelude::*;
use vstd::string::StringExecFns;
use crate::grammar::{
    State, add_item, blocks, closes_fence, code_end, code_text, fence, find_pair, heading_step,
    is_blank, item_step, lemma_search_bounds, lemma_step_advances, numbered_step, plain_end, scan,
    skip_blanks, spans, spans_from, step,
};
use crate::markup::renderable;
use crate::model::{Block, Item, Span, lemma_views_push, views};
use crate::scanning::lemma_blocks_renderable;
use crate::text::{chars_of, find_char, is_whitespace, line_end, past, string_of, trim_back};

verus! {

/// A block node: one top-level unit of a document. A list is one node that
/// holds its items flat, in the order of their lines.
#[derive(Debug, PartialEq)]
pub enum RootTags {
    H1(H1),
    H2(H2),
    H3(H3),
    P(P),
    A(A),
    Img(Img),
    Li(Vec<Li>),
    Pre(Pre),
}

/// A heading of the first level, with its text.
#[derive(Debug, PartialEq)]
pub struct H1(pub String);

/// A heading of the second level, with its text.
#[derive(Debug, PartialEq)]
pub struct H2(pub String);

/// A heading of the third level, with its text.
#[derive(Debug, PartialEq)]
pub struct H3(pub String);

/// A paragraph, with its spans.
#[derive(Debug, PartialEq)]
pub struct P(pub Vec<Contents>);

/// An inline span: a plain or styled run of text. Spans do not nest.
#[derive(Debug, PartialEq)]
pub enum Contents {
    Text(Text),
    Bold(Bold),
    Italic(Italic),
    Code(Code),
}

/// Plain text.
#[derive(Debug, PartialEq)]
pub struct Text(pub String);

/// Text between `**` and `**`.
#[derive(Debug, PartialEq)]
pub struct Bold(pub String);

/// Text between `*` and `*`.
#[derive(Debug, PartialEq)]
pub struct Italic(pub String);

/// Text between backticks.
#[derive(Debug, PartialEq)]
pub struct Code(pub String);

/// A link. No syntax produces it yet.
#[derive(Debug, PartialEq)]
pub struct A {
    href: String,
    text: String,
}

/// An image. No syntax produces it yet.
#[derive(Debug, PartialEq)]
pub struct Img {
    src: String,
    alt: String,
}

/// One item of a list. `indent` counts the blanks in front of the item's
/// marker; the nesting of items is only worked out when a list is rendered.
#[derive(Debug, PartialEq)]
pub struct Li {
    pub list_type: ListTypes,
    pub indent: usize,
    pub contents: Vec<Contents>,
}

/// The two kinds of list: unordered (`ul`) and ordered (`ol`).
#[derive(Debug, PartialEq, Clone, Copy)]
pub enum ListTypes {
    Ul,
    Ol,
}

/// A code block, with its lines as they are, each with its line break.
#[derive(Debug, PartialEq)]
pub struct Pre(pub String);

impl View for Contents {
    type V = Span;

    open spec fn view(&self) -> Span {
        match self {
            Contents::Text(t) => Span::Text(t.0@),
            Contents::Bold(t) => Span::Bold(t.0@),
            Contents::Italic(t) => Span::Italic(t.0@),
            Contents::Code(t) => Span::Code(t.0@),
        }
    }
}

impl View for Li {
    type V = Item;

    open spec fn view(&self) -> Item {
        Item {
            list_type: self.list_type,
            indent: self.indent as nat,
            contents: views(self.contents@),
        }
    }
}

impl View for RootTags {
    type V = Block;

    open spec fn view(&self) -> Block {
        match self {
            RootTags::H1(h) => Block::H1(h.0@),
            RootTags::H2(h) => Block::H2(h.0@),
            RootTags::H3(h) => Block::H3(h.0@),
            RootTags::P(p) => Block::P(views(p.0@)),
            RootTags::A(_) => Block::A,
            RootTags::Img(_) => Block::Img,
            RootTags::Li(items) => Block::Li(views(items@)),
            RootTags::Pre(p) => Block::Pre(p.0@),
        }
    }
}

impl ListTypes {
    /// The name of the container tag of this kind of list.
    pub open spec fn tag_name(self) -> Seq<char> {
        match self {
            ListTypes::Ul => seq!['u', 'l'],
            ListTypes::Ol => seq!['o', 'l'],
        }
    }

    /// The name of the container tag of this kind of list: `ul` or `ol`.
    pub fn to_string(&self) -> (name: &str)
        ensures
            name@ == self.tag_name(),
    {
        match self {
            Self::Ul => {
                proof {
                    reveal_strlit("ul");
                    assert("ul"@ =~= seq!['u', 'l']);
                }
                "ul"
            },
            Self::Ol => {
                proof {
                    reveal_strlit("ol");
                    assert("ol"@ =~= seq!['o', 'l']);
                }
                "ol"
            },
        }
    }
}

/// The first place at or after `from` where two asterisks stand side by
/// side, or the end.
fn find_asterisks(chars: &Vec<char>, from: usize) -> (end: usize)
    requires
        from <= chars.len(),
    ensures
        end == find_pair(chars@, from as int),
        from <= end <= chars.len(),
        end < chars.len() ==> end + 2 <= chars.len(),
{
    let mut end: usize = from;
    while end < chars.len() && !(chars[end] == '*' && end + 1 < chars.len() && chars[end + 1]
        == '*')
        invariant
            from <= end <= chars.len(),
            find_pair(chars@, from as int) == find_pair(chars@, end as int),
        decreases chars.len() - end,
    {
        end += 1;
    }
    end
}

/// The first place at or after `from` that holds a backtick or an asterisk,
/// or the end.
fn find_mark(chars: &Vec<char>, from: usize) -> (end: usize)
    requires
        from <= chars.len(),
    ensures
        end == plain_end(chars@, from as int),
        from <= end <= chars.len(),
{
    let mut end: usize = from;
    while end < chars.len() && chars[end] != '`' && chars[end] != '*'
        invariant
            from <= end <= chars.len(),
            plain_end(chars@, from as int) == plain_end(chars@, end as int),
        decreases chars.len() - end,
    {
        end += 1;
    }
    end
}

/// Splits a line into inline spans.
fn tokenize_contents(text: &str) -> (contents: Vec<Contents>)
    ensures
        views(contents@) == spans(text@),
{
    let chars = chars_of(text);
    let n = chars.len();
    let mut contents = Vec::<Contents>::new();
    let mut i: usize = 0;
    assert(views(contents@) + spans_from(chars@, 0) =~= spans_from(chars@, 0));
    while i < n
        invariant
            i <= n,
            n == chars.len(),
            chars@ == text@,
            spans(text@) == views(contents@) + spans_from(chars@, i as int),
        decreases n - i,
    {
        let ghost before = views(contents@);
        let c = chars[i];
        let next: usize;
        if c == '`' {
            let end = find_char(&chars, i + 1, '`');
            contents.push(Contents::Code(Code(string_of(&chars, i + 1, end))));
            next = if end < n { end + 1 } else { n };
        } else if c == '*' && i + 1 < n && chars[i + 1] == '*' {
            let end = find_asterisks(&chars, i + 2);
            contents.push(Contents::Bold(Bold(string_of(&chars, i + 2, end))));
            next = if end < n { end + 2 } else { n };
        } else if c == '*' {
            let end = find_char(&chars, i + 1, '*');
            contents.push(Contents::Italic(Italic(string_of(&chars, i + 1, end))));
            next = if end < n { end + 1 } else { n };
        } else {
            let end = find_mark(&chars, i);
            contents.push(Contents::Text(Text(string_of(&chars, i, end))));
            proof {
                lemma_search_bounds(chars@, i as int, c);
            }
            next = end;
        }
        proof {
            let span = contents@.last()@;
            lemma_views_push(contents@.drop_last(), contents@.last());
            assert(contents@.drop_last().push(contents@.last()) =~= contents@);
            assert(views(contents@) == before.push(span));
            assert(spans_from(chars@, i as int) == seq![span] + spans_from(chars@, next as int));
            assert(before + (seq![span] + spans_from(chars@, next as int)) =~= before.push(span)
                + spans_from(chars@, next as int));
        }
        i = next;
    }
    assert(views(contents@) + spans_from(chars@, n as int) =~= views(contents@));
    contents
}

/// The scanner: the text, the place in it, the blanks read since the last
/// line break, and the blocks made so far.
pub struct Lexer {
    input: Vec<char>,
    position: usize,
    output: Vec<RootTags>,
    indent: usize,
}

impl View for Lexer {
    type V = State;

    closed spec fn view(&self) -> State {
        State { pos: self.position as int, indent: self.indent as nat, out: views(self.output@) }
    }
}

impl Lexer {
    /// The text that is scanned.
    pub closed spec fn text(&self) -> Seq<char> {
        self.input@
    }

    /// The place is in the text or at its end.
    pub closed spec fn wf(&self) -> bool {
        self.position <= self.input.len()
    }

    /// The character at the place.
    fn current_char(&self) -> (c: char)
        requires
            self.wf(),
            self@.pos < self.text().len(),
        ensures
            c == self.text()[self@.pos],
    {
        self.input[self.position]
    }

    /// The character behind the one at the place, if there is one.
    fn peek_char(&self) -> (c: Option<char>)
        requires
            self.wf(),
        ensures
            c == if self@.pos + 1 < self.text().len() {
                Some(self.text()[self@.pos + 1])
            } else {
                None
            },
    {
        if self.input.len() - self.position <= 1 {
            return None;
        }
        Some(self.input[self.position + 1])
    }

    /// Moves one character on, unless the place is the end of the text, and
    /// gives the character at the new place, if there is one.
    fn next_char(&mut self) -> (c: Option<char>)
        requires
            old(self).wf(),
        ensures
            final(self).wf(),
            final(self).text() == old(self).text(),
            final(self)@ == (State { pos: past(old(self).text(), old(self)@.pos, 1), ..old(self)@ }),
            c == if final(self)@.pos < final(self).text().len() {
                Some(final(self).text()[final(self)@.pos])
            } else {
                None
            },
    {
        if self.position < self.input.len() {
            self.position += 1;
        }
        if self.position >= self.input.len() {
            return None;
        }
        Some(self.current_char())
    }

    /// Moves on to the first character that is no white space.
    fn skip_whitespace(&mut self)
        requires
            old(self).wf(),
        ensures
            final(self).wf(),
            final(self).text() == old(self).text(),
            final(self)@ == (State { pos: skip_blanks(old(self).text(), old(self)@.pos), ..old(self)@ }),
    {
        while self.position < self.input.len() && is_ascii_whitespace(self.current_char())
            invariant
                self.wf(),
                self.text() == old(self).text(),
                self@.out == old(self)@.out,
                self@.indent == old(self)@.indent,
                old(self).position <= self.position,
                skip_blanks(self.input@, old(self).position as int) == skip_blanks(
                    self.input@,
                    self.position as int,
                ),
            decreases self.input.len() - self.position,
        {
            self.next_char();
        }
    }

    /// Reads the rest of the line and stops in front of the line break.
    fn read_to_eol(&mut self) -> (text: String)
        requires
            old(self).wf(),
        ensures
            final(self).wf(),
            final(self).text() == old(self).text(),
            final(self)@ == (State { pos: line_end(old(self).text(), old(self)@.pos), ..old(self)@ }),
            text@ == old(self).text().subrange(old(self)@.pos, final(self)@.pos),
    {
        let mut text = String::new();
        assert(text@ =~= self.input@.subrange(self.position as int, self.position as int));
        while self.position < self.input.len() && self.current_char() != '\n'
            invariant
                self.wf(),
                self.text() == old(self).text(),
                self@.out == old(self)@.out,
                self@.indent == old(self)@.indent,
                old(self).position <= self.position,
                line_end(self.input@, old(self).position as int) == line_end(
                    self.input@,
                    self.position as int,
                ),
                text@ == self.input@.subrange(old(self).position as int, self.position as int),
            decreases self.input.len() - self.position,
        {
            text.push(self.current_char());
            self.next_char();
            assert(text@ =~= self.input@.subrange(
                old(self).position as int,
                self.position as int,
            ));
        }
        text
    }

    /// Adds an item to the list that is the last block, or starts a list.
    fn push_li(&mut self, item: Li)
        requires
            old(self).wf(),
        ensures
            final(self).wf(),
            final(self).text() == old(self).text(),
            final(self)@ == (State { out: add_item(old(self)@.out, item@), ..old(self)@ }),
    {
        let ghost before = views(self.output@);
        match self.output.pop() {
            Some(RootTags::Li(mut lists)) => {
                let ghost items = views(lists@);
                assert(before.last() == Block::Li(items));
                lists.push(item);
                self.output.push(RootTags::Li(lists));
                assert(views(lists@) =~= items.push(item@));
                assert(views(self.output@) =~= add_item(before, item@));
            },
            Some(other) => {
                assert(before.last() == other@);
                self.output.push(other);
                let lists = vec![item];
                assert(views(lists@) =~= seq![item@]);
                self.output.push(RootTags::Li(lists));
                assert(views(self.output@) =~= add_item(before, item@));
            },
            None => {
                let lists = vec![item];
                assert(views(lists@) =~= seq![item@]);
                self.output.push(RootTags::Li(lists));
                assert(views(self.output@) =~= add_item(before, item@));
            },
        }
    }

    /// Adds a block.
    fn push_block(&mut self, block: RootTags)
        requires
            old(self).wf(),
        ensures
            final(self).wf(),
            final(self).text() == old(self).text(),
            final(self)@ == (State { out: old(self)@.out.push(block@), ..old(self)@ }),
    {
        self.output.push(block);
        assert(views(self.output@) =~= views(old(self).output@).push(block@));
    }
}

/// Whether `c` is white space of ASCII.
fn is_ascii_whitespace(c: char) -> (blank: bool)
    ensures
        blank == is_blank(c),
{
    c == ' ' || c == '\t' || c == '\n' || c == '\x0C' || c == '\r'
}

/// Whether a line starts with the fence of a code block.
fn starts_with_fence(line: &str) -> (found: bool)
    ensures
        found == fence().is_prefix_of(line@),
{
    let chars = chars_of(line);
    let found = chars.len() >= 3 && chars[0] == '`' && chars[1] == '`' && chars[2] == '`';
    proof {
        if found {
            assert(fence() =~= line@.subrange(0, 3));
        } else if line@.len() >= 3 {
            let head = line@.subrange(0, 3);
            assert(head[0] == line@[0] && head[1] == line@[1] && head[2] == line@[2]);
            assert(fence()[0] == '`' && fence()[1] == '`' && fence()[2] == '`');
        }
    }
    found
}

/// Whether a line closes a code block.
fn ends_with_fence(row: &str) -> (found: bool)
    ensures
        found == closes_fence(row@),
{
    let chars = chars_of(row);
    let mut end: usize = chars.len();
    assert(chars@.take(end as int) =~= chars@);
    while end > 0 && is_whitespace(chars[end - 1])
        invariant
            end <= chars.len(),
            trim_back(chars@) == trim_back(chars@.take(end as int)),
        decreases end,
    {
        assert(chars@.take(end as int).drop_last() =~= chars@.take(end - 1));
        end -= 1;
    }
    let found = end >= 3 && chars[end - 1] == '`' && chars[end - 2] == '`' && chars[end - 3]
        == '`';
    proof {
        let kept = chars@.take(end as int);
        assert(trim_back(chars@) == kept);
        if found {
            assert(fence() =~= kept.subrange(kept.len() - 3, kept.len() as int));
        } else if end >= 3 {
            let tail = kept.subrange(kept.len() - 3, kept.len() as int);
            assert(tail[0] == chars@[end - 3] && tail[1] == chars@[end - 2] && tail[2]
                == chars@[end - 1]);
            assert(fence()[0] == '`' && fence()[1] == '`' && fence()[2] == '`');
        }
    }
    found
}

/// Reads a heading. The place is at its first `#`.
fn tokenize_heading(lexer: &mut Lexer)
    requires
        old(lexer).wf(),
        old(lexer)@.pos < old(lexer).text().len(),
    ensures
        final(lexer).wf(),
        final(lexer).text() == old(lexer).text(),
        final(lexer)@ == heading_step(old(lexer).text(), old(lexer)@),
{
    if Some('#') == lexer.next_char() {
        if Some('#') == lexer.next_char() {
            lexer.next_char();
            lexer.skip_whitespace();
            let text = lexer.read_to_eol();
            lexer.push_block(RootTags::H3(H3(text)));
        } else {
            lexer.skip_whitespace();
            let text = lexer.read_to_eol();
            lexer.push_block(RootTags::H2(H2(text)));
        }
    } else {
        lexer.skip_whitespace();
        let text = lexer.read_to_eol();
        lexer.push_block(RootTags::H1(H1(text)));
    }
}

/// Reads an item of an unordered list. The place is at its `-`.
fn tokenize_list(lexer: &mut Lexer)
    requires
        old(lexer).wf(),
        old(lexer)@.pos < old(lexer).text().len(),
    ensures
        final(lexer).wf(),
        final(lexer).text() == old(lexer).text(),
        final(lexer)@ == item_step(old(lexer).text(), old(lexer)@, ListTypes::Ul, 1),
{
    lexer.next_char();
    lexer.skip_whitespace();
    let text = lexer.read_to_eol();
    let contents = tokenize_contents(text.as_str());
    let next_li = Li { list_type: ListTypes::Ul, indent: lexer.indent, contents };
    lexer.push_li(next_li);
}

/// Reads a line that starts with `1`: an item of an ordered list where `.`
/// follows, else a paragraph of plain text.
fn tokenize_ordered_list(lexer: &mut Lexer)
    requires
        old(lexer).wf(),
        old(lexer)@.pos < old(lexer).text().len(),
    ensures
        final(lexer).wf(),
        final(lexer).text() == old(lexer).text(),
        final(lexer)@ == numbered_step(old(lexer).text(), old(lexer)@),
{
    if lexer.peek_char() == Some('.') {
        lexer.next_char();
        lexer.next_char();
        lexer.skip_whitespace();
        let text = lexer.read_to_eol();
        let contents = tokenize_contents(text.as_str());
        let next_li = Li { list_type: ListTypes::Ol, indent: lexer.indent, contents };
        lexer.push_li(next_li);
    } else {
        let text = lexer.read_to_eol();
        let ghost line = text@;
        let contents = vec![Contents::Text(Text(text))];
        assert(views(contents@) =~= seq![Span::Text(line)]);
        lexer.push_block(RootTags::P(P(contents)));
    }
}

/// Reads a code block. The place is at the end of the line that opens it.
/// The block ends with its closing line, or with the text.
fn tokenize_codeblock(lexer: &mut Lexer)
    requires
        old(lexer).wf(),
    ensures
        final(lexer).wf(),
        final(lexer).text() == old(lexer).text(),
        final(lexer)@ == (State {
            pos: code_end(old(lexer).text(), past(old(lexer).text(), old(lexer)@.pos, 1)),
            indent: 0,
            out: old(lexer)@.out.push(
                Block::Pre(code_text(old(lexer).text(), past(old(lexer).text(), old(lexer)@.pos, 1))),
            ),
        }),
{
    let mut code = String::new();
    lexer.next_char();
    let ghost s = lexer.text();
    let ghost body = lexer@.pos;
    let mut open = true;
    assert(code@ + code_text(s, body) =~= code_text(s, body));
    while open && lexer.position < lexer.input.len()
        invariant
            lexer.wf(),
            lexer.text() == s,
            s == old(lexer).text(),
            lexer@.out == old(lexer)@.out,
            0 <= lexer@.pos <= s.len(),
            lexer@.pos == lexer.position,
            s.len() == lexer.input.len(),
            open ==> code_text(s, body) == code@ + code_text(s, lexer@.pos),
            open ==> code_end(s, body) == code_end(s, lexer@.pos),
            !open ==> code_text(s, body) == code@,
            !open ==> code_end(s, body) == lexer@.pos,
        decreases s.len() - lexer@.pos,
    {
        let ghost from = lexer@.pos;
        let ghost so_far = code@;
        proof {
            lemma_search_bounds(s, from, '\n');
        }
        let row = lexer.read_to_eol();
        lexer.next_char();
        if ends_with_fence(row.as_str()) {
            open = false;
            assert(so_far + Seq::<char>::empty() =~= so_far);
        } else {
            code.append(row.as_str());
            code.push('\n');
            assert(so_far + (row@.push('\n') + code_text(s, lexer@.pos)) =~= code@ + code_text(
                s,
                lexer@.pos,
            ));
        }
    }
    assert(code@ + Seq::<char>::empty() =~= code@);
    lexer.indent = 0;
    lexer.push_block(RootTags::Pre(Pre(code)));
}

/// Scans a text into block nodes.
///
/// The text is read once, line by line. A line that starts with `#` is a
/// heading, one that starts with `-` or `1.` is a list item, one that
/// starts with three backticks opens a code block, and any other line is a
/// paragraph. Blanks in front of a line are counted and left out. List
/// items that follow one another make one list. No text is refused.
pub fn tokenize(input: &str) -> (output: Vec<RootTags>)
    ensures
        views(output@) == blocks(input@),
        forall|i: int| 0 <= i < output.len() ==> renderable(#[trigger] output[i]@),
{
    let mut lexer = Lexer { input: chars_of(input), position: 0, output: Vec::new(), indent: 0 };
    assert(views(lexer.output@) =~= Seq::empty());
    while lexer.position < lexer.input.len()
        invariant
            lexer.wf(),
            lexer.text() == input@,
            lexer.indent <= lexer.position,
            blocks(input@) == scan(input@, lexer@),
        decreases lexer.input.len() - lexer.position,
    {
        let ghost before = lexer@;
        proof {
            lemma_step_advances(input@, before);
        }
        let c = lexer.current_char();
        match c {
            '#' => tokenize_heading(&mut lexer),
            '-' => tokenize_list(&mut lexer),
            '1' => tokenize_ordered_list(&mut lexer),
            '\t' | ' ' => {
                lexer.indent += 1;
                lexer.next_char();
            },
            '\n' => {
                lexer.indent = 0;
                lexer.next_char();
            },
            _ => {
                let text = lexer.read_to_eol();
                if starts_with_fence(text.as_str()) {
                    tokenize_codeblock(&mut lexer);
                } else {
                    let p_contents = tokenize_contents(text.as_str());
                    lexer.push_block(RootTags::P(P(p_contents)));
                }
            },
        }
        assert(lexer@ == step(input@, before));
    }
    proof {
        lemma_blocks_renderable(input@);
        assert forall|i: int| 0 <= i < lexer.output.len() implies renderable(
            #[trigger] lexer.output[i]@,
        ) by {
            assert(lexer.output[i]@ == blocks(input@)[i]);
        }
    }
    lexer.output
}

} // verus!

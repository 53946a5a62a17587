//! The HTML that the renderer writes, as functions of specifications.
//!
//! A list is first laid out as a sequence of [`Markup`] tokens (container
//! tags, items, and the white space between them) and the tokens are then
//! written out as text. Stating the nesting over tokens keeps it apart from
//! whatever text the items themselves hold.

use vstd::prelude::*;
use crate::lexer::ListTypes;
use crate::model::{Block, Item, Span};

verus! {

/// `<tag>content</tag>`.
pub open spec fn element(tag: Seq<char>, content: Seq<char>) -> Seq<char> {
    "<"@ + tag + ">"@ + content + "</"@ + tag + ">"@
}

/// `n` tab characters.
pub open spec fn tabs(n: nat) -> Seq<char> {
    Seq::new(n, |i: int| '\t')
}

/// The HTML of one inline span. The text of a span is written as it is.
pub open spec fn span_html(span: Span) -> Seq<char> {
    match span {
        Span::Text(text) => text,
        Span::Code(text) => element("code"@, text),
        Span::Bold(text) => element("b"@, text),
        Span::Italic(text) => element("i"@, text),
    }
}

/// The HTML of a run of inline spans: that of each span, in order.
pub open spec fn spans_html(spans: Seq<Span>) -> Seq<char>
    decreases spans.len(),
{
    if spans.len() == 0 {
        Seq::empty()
    } else {
        spans_html(spans.drop_last()) + span_html(spans.last())
    }
}

/// One piece of the markup of a list.
pub enum Markup {
    /// The opening tag of a container, and a line break.
    Open(ListTypes),
    /// The closing tag of a container, and a line break.
    Close(ListTypes),
    /// The opening tag of an item, and the item's contents. The item stays
    /// open, so that a nested container can follow inside it.
    Item(Seq<Span>),
    /// The closing tag of an item, and a line break.
    EndItem,
    /// A line break.
    Newline,
    /// A run of tab characters.
    Tabs(nat),
}

/// The text of one piece of markup.
pub open spec fn markup_text(m: Markup) -> Seq<char> {
    match m {
        Markup::Open(kind) => "<"@ + kind.tag_name() + ">\n"@,
        Markup::Close(kind) => "</"@ + kind.tag_name() + ">\n"@,
        Markup::Item(contents) => "<li>"@ + spans_html(contents),
        Markup::EndItem => "</li>\n"@,
        Markup::Newline => "\n"@,
        Markup::Tabs(n) => tabs(n),
    }
}

/// The text of a sequence of pieces: that of each piece, in order.
pub open spec fn markups_text(ms: Seq<Markup>) -> Seq<char>
    decreases ms.len(),
{
    if ms.len() == 0 {
        Seq::empty()
    } else {
        markups_text(ms.drop_last()) + markup_text(ms.last())
    }
}

/// A container that is open while a list is laid out: the indent of its
/// items and its kind.
pub type Level = (nat, ListTypes);

/// The markup that closes the innermost open container and its last item:
/// the end of the item, then the closing tag behind the container's indent.
pub open spec fn close_level(level: Level) -> Seq<Markup> {
    seq![Markup::EndItem, Markup::Tabs(level.0), Markup::Close(level.1)]
}

/// The markup that leads from the item before to an item of the given indent
/// and kind, with `stack` the open containers, innermost last.
///
/// - The innermost container has this indent: the item before is closed.
/// - It has a smaller indent: one container of the item's own kind is opened
///   inside the item before, however much larger the indent is.
/// - It has a larger indent and is not the only one left: it is closed, and
///   the same is asked of the container around it.
/// - It has a larger indent and is the only one left: the item joins it as if
///   the indents were equal.
pub open spec fn enter(stack: Seq<Level>, indent: nat, kind: ListTypes) -> Seq<Markup>
    recommends
        stack.len() > 0,
    decreases stack.len(),
{
    if stack.len() == 0 {
        Seq::empty()
    } else if stack.last().0 < indent {
        seq![Markup::Newline, Markup::Tabs(indent), Markup::Open(kind)]
    } else if stack.last().0 == indent || stack.len() == 1 {
        seq![Markup::EndItem]
    } else {
        close_level(stack.last()).push(Markup::Tabs(stack[stack.len() - 2].0)) + enter(
            stack.drop_last(),
            indent,
            kind,
        )
    }
}

/// The open containers after [`enter`].
pub open spec fn entered(stack: Seq<Level>, indent: nat, kind: ListTypes) -> Seq<Level>
    recommends
        stack.len() > 0,
    decreases stack.len(),
{
    if stack.len() == 0 {
        stack
    } else if stack.last().0 < indent {
        stack.push((indent, kind))
    } else if stack.last().0 == indent || stack.len() == 1 {
        stack
    } else {
        entered(stack.drop_last(), indent, kind)
    }
}

/// The markup that closes every open container, innermost first.
pub open spec fn unwind(stack: Seq<Level>) -> Seq<Markup>
    decreases stack.len(),
{
    if stack.len() == 0 {
        Seq::empty()
    } else {
        close_level(stack.last()) + unwind(stack.drop_last())
    }
}

/// The markup of the items from index `from` on, and of the end of the list,
/// with `stack` the containers that are open in front of item `from`.
pub open spec fn items_markup(items: Seq<Item>, from: int, stack: Seq<Level>) -> Seq<Markup>
    decreases items.len() - from,
{
    if from < 0 || from >= items.len() {
        unwind(stack)
    } else {
        let item = items[from];
        enter(stack, item.indent, item.list_type) + seq![
            Markup::Tabs(item.indent),
            Markup::Item(item.contents),
        ] + items_markup(items, from + 1, entered(stack, item.indent, item.list_type))
    }
}

/// The markup of a list of at least one item. The first item opens the
/// outermost container, of its own kind.
pub open spec fn list_markup(items: Seq<Item>) -> Seq<Markup>
    recommends
        items.len() > 0,
{
    seq![Markup::Open(items[0].list_type), Markup::Item(items[0].contents)] + items_markup(
        items,
        1,
        seq![(items[0].indent, items[0].list_type)],
    )
}

/// Whether the renderer has markup for this block: it is neither a link nor
/// an image, and if it is a list it has an item.
pub open spec fn renderable(block: Block) -> bool {
    match block {
        Block::A | Block::Img => false,
        Block::Li(items) => items.len() > 0,
        _ => true,
    }
}

/// The HTML of one block. It ends with a line break.
pub open spec fn block_html(block: Block) -> Seq<char> {
    match block {
        Block::H1(text) => element("h1"@, text) + "\n"@,
        Block::H2(text) => element("h2"@, text) + "\n"@,
        Block::H3(text) => element("h3"@, text) + "\n"@,
        Block::P(spans) => element("p"@, spans_html(spans)) + "\n"@,
        Block::Li(items) => markups_text(list_markup(items)),
        Block::Pre(text) => "<pre><code>"@ + text + "</code></pre>\n"@,
        Block::A | Block::Img => Seq::empty(),
    }
}

/// The HTML of a document: that of each block, in order.
pub open spec fn blocks_html(blocks: Seq<Block>) -> Seq<char>
    decreases blocks.len(),
{
    if blocks.len() == 0 {
        Seq::empty()
    } else {
        blocks_html(blocks.drop_last()) + block_html(blocks.last())
    }
}

/// The text of pieces laid end to end is the text of the first run followed
/// by the text of the second.
pub proof fn lemma_markups_text_concat(a: Seq<Markup>, b: Seq<Markup>)
    ensures
        markups_text(a + b) == markups_text(a) + markups_text(b),
    decreases b.len(),
{
    if b.len() == 0 {
        assert(a + b =~= a);
        assert(markups_text(a) + markups_text(b) =~= markups_text(a));
    } else {
        lemma_markups_text_concat(a, b.drop_last());
        assert((a + b).drop_last() =~= a + b.drop_last());
        assert((a + b).last() == b.last());
        assert(markups_text(a + b) =~= markups_text(a) + markups_text(b));
    }
}

/// The text of a run of pieces with one more piece behind it.
pub proof fn lemma_markups_text_push(a: Seq<Markup>, m: Markup)
    ensures
        markups_text(a.push(m)) == markups_text(a) + markup_text(m),
{
    assert(a.push(m).drop_last() =~= a);
}

/// The text that closes a container and its last item.
pub proof fn lemma_close_level_text(level: Level)
    ensures
        markups_text(close_level(level)) == "</li>\n"@ + tabs(level.0) + markup_text(
            Markup::Close(level.1),
        ),
{
    let a = seq![Markup::EndItem];
    let b = seq![Markup::EndItem, Markup::Tabs(level.0)];
    lemma_markups_text_push(Seq::empty(), Markup::EndItem);
    lemma_markups_text_push(a, Markup::Tabs(level.0));
    lemma_markups_text_push(b, Markup::Close(level.1));
    assert(Seq::<Markup>::empty().push(Markup::EndItem) =~= a);
    assert(a.push(Markup::Tabs(level.0)) =~= b);
    assert(b.push(Markup::Close(level.1)) =~= close_level(level));
    assert(markups_text(close_level(level)) =~= "</li>\n"@ + tabs(level.0) + markup_text(
        Markup::Close(level.1),
    ));
}

} // verus!

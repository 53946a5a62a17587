//! The container tags that stand in the text of a rendered list.

use vstd::prelude::*;
use crate::lexer::ListTypes;
use crate::markup::{
    Level, Markup, element, enter, entered, items_markup, lemma_markups_text_concat,
    lemma_markups_text_push, list_markup, markup_text, markups_text, span_html, spans_html,
    unwind,
};
use crate::model::{Item, Span};
use crate::nesting::{
    closed, count, lemma_count_concat, lemma_count_few, lemma_enter_counts,
    lemma_list_tags_balance, opened,
};

verus! {

/// The number of places in `text` at which `pattern` stands.
pub open spec fn occurrences(text: Seq<char>, pattern: Seq<char>) -> nat
    decreases text.len(),
{
    if text.len() == 0 {
        0
    } else {
        occurrences(text.drop_first(), pattern) + if pattern.is_prefix_of(text) {
            1nat
        } else {
            0nat
        }
    }
}

/// The text of a container tag: `<ul>`, `</ul>`, `<ol>` or `</ol>`.
pub open spec fn tag(kind: ListTypes, closing: bool) -> Seq<char> {
    if closing {
        seq!['<', '/'] + kind.tag_name() + seq!['>']
    } else {
        seq!['<'] + kind.tag_name() + seq!['>']
    }
}

/// Whether `c` can stand in a container tag behind its first character.
pub open spec fn inside_tag(c: char) -> bool {
    c == '/' || c == 'u' || c == 'o' || c == 'l' || c == '>'
}

/// Whether `c` can stand in a container tag in front of its last character.
pub open spec fn before_end_of_tag(c: char) -> bool {
    c == '<' || c == '/' || c == 'u' || c == 'o' || c == 'l'
}

/// No tag can go on from this text into another: it is empty, or its last
/// character stands in no tag but as the last.
pub open spec fn ends_clear(text: Seq<char>) -> bool {
    text.len() == 0 || !before_end_of_tag(text.last())
}

/// No tag can go on from another text into this one: it is empty, or its
/// first character stands in no tag but as the first.
pub open spec fn starts_clear(text: Seq<char>) -> bool {
    text.len() == 0 || !inside_tag(text[0])
}

/// The characters of a container tag.
pub proof fn lemma_tag_chars(kind: ListTypes, closing: bool)
    ensures
        tag(kind, closing).len() == if closing {
            5int
        } else {
            4int
        },
        tag(kind, closing)[0] == '<',
        forall|k: int| 1 <= k < tag(kind, closing).len() ==> inside_tag(#[trigger] tag(kind, closing)[k]),
        forall|k: int|
            0 <= k < tag(kind, closing).len() - 1 ==> before_end_of_tag(
                #[trigger] tag(kind, closing)[k],
            ),
{
    let t = tag(kind, closing);
    if closing {
        assert(t =~= seq!['<', '/', kind.tag_name()[0], kind.tag_name()[1], '>']);
    } else {
        assert(t =~= seq!['<', kind.tag_name()[0], kind.tag_name()[1], '>']);
    }
}

/// Whether a tag stands at the front of two texts laid end to end is seen
/// from the first text alone, if no tag can go on from it into the second, or
/// none from the first into the second.
proof fn lemma_prefix_of_concat(x: Seq<char>, rest: Seq<char>, kind: ListTypes, closing: bool)
    requires
        x.len() > 0,
        ends_clear(x) || starts_clear(rest),
    ensures
        tag(kind, closing).is_prefix_of(x + rest) == tag(kind, closing).is_prefix_of(x),
{
    let p = tag(kind, closing);
    lemma_tag_chars(kind, closing);
    if p.len() <= x.len() {
        assert((x + rest).subrange(0, p.len() as int) =~= x.subrange(0, p.len() as int));
    } else if rest.len() == 0 {
        assert(x + rest =~= x);
    } else if p.is_prefix_of(x + rest) {
        let head = (x + rest).subrange(0, p.len() as int);
        assert(p =~= head);
        assert(head[x.len() - 1] == x.last());
        assert(head[x.len() as int] == rest[0]);
        assert(p[x.len() - 1] == x.last());
        assert(p[x.len() as int] == rest[0]);
    }
}

/// The tags in two texts laid end to end are those in the first and those in
/// the second, if no tag can go on from the first into the second.
pub proof fn lemma_occurrences_concat(
    x: Seq<char>,
    rest: Seq<char>,
    kind: ListTypes,
    closing: bool,
)
    requires
        ends_clear(x) || starts_clear(rest),
    ensures
        occurrences(x + rest, tag(kind, closing)) == occurrences(x, tag(kind, closing))
            + occurrences(rest, tag(kind, closing)),
    decreases x.len(),
{
    if x.len() == 0 {
        assert(x + rest =~= rest);
    } else {
        lemma_prefix_of_concat(x, rest, kind, closing);
        assert((x + rest).drop_first() =~= x.drop_first() + rest);
        if x.len() > 1 {
            assert(x.drop_first().last() == x.last());
        }
        lemma_occurrences_concat(x.drop_first(), rest, kind, closing);
    }
}

/// Whether a text holds no `<`.
pub open spec fn plain(text: Seq<char>) -> bool {
    forall|i: int| 0 <= i < text.len() ==> #[trigger] text[i] != '<'
}

/// No tag stands in a text without `<`.
pub proof fn lemma_plain_occurrences(text: Seq<char>, kind: ListTypes, closing: bool)
    requires
        plain(text),
    ensures
        occurrences(text, tag(kind, closing)) == 0,
    decreases text.len(),
{
    if text.len() > 0 {
        let p = tag(kind, closing);
        lemma_tag_chars(kind, closing);
        if p.is_prefix_of(text) {
            assert(text.subrange(0, p.len() as int)[0] == text[0]);
        }
        assert forall|i: int| 0 <= i < text.drop_first().len() implies #[trigger] text.drop_first()[i]
            != '<' by {
            assert(text.drop_first()[i] == text[i + 1]);
        }
        lemma_plain_occurrences(text.drop_first(), kind, closing);
    }
}

/// In a text that is `<` and a text without `<`, a tag stands once if the
/// text starts with it, and else not at all.
pub proof fn lemma_one_tag_occurrences(text: Seq<char>, kind: ListTypes, closing: bool)
    requires
        text.len() > 0,
        plain(text.drop_first()),
    ensures
        occurrences(text, tag(kind, closing)) == if tag(kind, closing).is_prefix_of(text) {
            1nat
        } else {
            0nat
        },
{
    lemma_plain_occurrences(text.drop_first(), kind, closing);
}

/// Whether a piece of markup is the container tag of the given kind.
pub open spec fn is_tag(m: Markup, kind: ListTypes, closing: bool) -> bool {
    if closing {
        m == Markup::Close(kind)
    } else {
        m == Markup::Open(kind)
    }
}

/// The number of container tags of the given kind among the pieces.
pub open spec fn tag_count(ms: Seq<Markup>, kind: ListTypes, closing: bool) -> nat {
    count(ms, |m: Markup| is_tag(m, kind, closing))
}

/// Whether none of the pieces is an item.
pub open spec fn no_items(ms: Seq<Markup>) -> bool {
    forall|i: int| 0 <= i < ms.len() ==> !((#[trigger] ms[i]) is Item)
}

/// The text of a piece that is no item: no tag can go on from it, and a tag
/// stands in it once if the piece is that tag, and else not at all.
pub proof fn lemma_piece_text(m: Markup, kind: ListTypes, closing: bool)
    requires
        !(m is Item),
    ensures
        ends_clear(markup_text(m)),
        occurrences(markup_text(m), tag(kind, closing)) == if is_tag(m, kind, closing) {
            1nat
        } else {
            0nat
        },
        m is EndItem || m is Newline ==> markup_text(m).len() > 0 && starts_clear(markup_text(m)),
{
    let text = markup_text(m);
    let p = tag(kind, closing);
    lemma_tag_chars(kind, closing);
    reveal_strlit("<");
    reveal_strlit("</");
    reveal_strlit(">\n");
    reveal_strlit("</li>\n");
    reveal_strlit("\n");
    match m {
        Markup::Open(k) => {
            let name = k.tag_name();
            assert(text =~= seq!['<', name[0], name[1], '>', '\n']);
            lemma_one_tag_occurrences(text, kind, closing);
            if p.is_prefix_of(text) {
                let head = text.subrange(0, p.len() as int);
                assert(head[1] == text[1]);
                assert(p[1] == text[1]);
            }
            if is_tag(m, kind, closing) {
                assert(p =~= text.subrange(0, p.len() as int));
            }
        },
        Markup::Close(k) => {
            let name = k.tag_name();
            assert(text =~= seq!['<', '/', name[0], name[1], '>', '\n']);
            lemma_one_tag_occurrences(text, kind, closing);
            if p.is_prefix_of(text) {
                let head = text.subrange(0, p.len() as int);
                assert(head[1] == text[1]);
                assert(head[2] == text[2]);
                assert(p[1] == text[1]);
                assert(p[2] == text[2]);
            }
            if is_tag(m, kind, closing) {
                assert(p =~= text.subrange(0, p.len() as int));
            }
        },
        Markup::EndItem => {
            assert(text =~= seq!['<', '/', 'l', 'i', '>', '\n']);
            lemma_one_tag_occurrences(text, kind, closing);
            if p.is_prefix_of(text) {
                let head = text.subrange(0, p.len() as int);
                assert(head[1] == text[1]);
                assert(head[2] == text[2]);
                assert(p[1] == text[1]);
                assert(p[2] == text[2]);
            }
        },
        Markup::Newline => {
            assert(text =~= seq!['\n']);
            lemma_plain_occurrences(text, kind, closing);
        },
        Markup::Tabs(n) => {
            lemma_plain_occurrences(text, kind, closing);
        },
        Markup::Item(_) => {},
    }
}

/// The tags in the text of pieces without items, with any text behind: one
/// for each piece that is the tag, and those of the text behind.
pub proof fn lemma_pieces_text(ms: Seq<Markup>, rest: Seq<char>, kind: ListTypes, closing: bool)
    requires
        no_items(ms),
    ensures
        occurrences(markups_text(ms) + rest, tag(kind, closing)) == tag_count(ms, kind, closing)
            + occurrences(rest, tag(kind, closing)),
    decreases ms.len(),
{
    if ms.len() == 0 {
        assert(markups_text(ms) + rest =~= rest);
    } else {
        let last = markup_text(ms.last());
        assert(!(ms[ms.len() - 1] is Item));
        lemma_piece_text(ms.last(), kind, closing);
        lemma_occurrences_concat(last, rest, kind, closing);
        assert(no_items(ms.drop_last())) by {
            assert forall|i: int| 0 <= i < ms.drop_last().len() implies !((
            #[trigger] ms.drop_last()[i]) is Item) by {
                assert(ms.drop_last()[i] == ms[i]);
            }
        }
        lemma_pieces_text(ms.drop_last(), last + rest, kind, closing);
        assert(markups_text(ms) + rest =~= markups_text(ms.drop_last()) + (last + rest));
    }
}

/// The text of an open item with any text behind that no tag can go on
/// into: the tags in it are those in the item's own HTML and those behind.
pub proof fn lemma_item_text(
    contents: Seq<Span>,
    rest: Seq<char>,
    kind: ListTypes,
    closing: bool,
)
    requires
        starts_clear(rest),
    ensures
        occurrences(markup_text(Markup::Item(contents)) + rest, tag(kind, closing))
            == occurrences(spans_html(contents), tag(kind, closing)) + occurrences(
            rest,
            tag(kind, closing),
        ),
{
    let p = tag(kind, closing);
    let open = "<li>"@;
    let inner = spans_html(contents);
    reveal_strlit("<li>");
    lemma_tag_chars(kind, closing);
    assert(open =~= seq!['<', 'l', 'i', '>']);
    lemma_one_tag_occurrences(open, kind, closing);
    if p.is_prefix_of(open) {
        assert(open.subrange(0, p.len() as int)[1] == open[1]);
        assert(p[1] == open[1]);
    }
    lemma_occurrences_concat(open, inner + rest, kind, closing);
    lemma_occurrences_concat(inner, rest, kind, closing);
    assert(markup_text(Markup::Item(contents)) + rest =~= open + (inner + rest));
}

/// The tags of the given kind that stand in the HTML of the items' own
/// contents, from item `from` on.
pub open spec fn inner_tags(items: Seq<Item>, from: int, kind: ListTypes, closing: bool) -> nat
    decreases items.len() - from,
{
    if from < 0 || from >= items.len() {
        0
    } else {
        occurrences(spans_html(items[from].contents), tag(kind, closing)) + inner_tags(
            items,
            from + 1,
            kind,
            closing,
        )
    }
}

/// The markup that leads to an item holds no item, and starts with a line
/// break or with the end of the item before.
pub proof fn lemma_enter_pieces(stack: Seq<Level>, indent: nat, kind: ListTypes)
    requires
        stack.len() > 0,
    ensures
        no_items(enter(stack, indent, kind)),
        enter(stack, indent, kind).len() > 0,
        enter(stack, indent, kind)[0] is EndItem || enter(stack, indent, kind)[0] is Newline,
    decreases stack.len(),
{
    if stack.last().0 > indent && stack.len() > 1 {
        lemma_enter_pieces(stack.drop_last(), indent, kind);
    }
}

/// The markup that closes every open container holds no item, and starts
/// with the end of the last item.
pub proof fn lemma_unwind_pieces(stack: Seq<Level>)
    ensures
        no_items(unwind(stack)),
        stack.len() > 0 ==> unwind(stack).len() > 0 && unwind(stack)[0] is EndItem,
    decreases stack.len(),
{
    if stack.len() > 0 {
        lemma_unwind_pieces(stack.drop_last());
    }
}

/// The text of pieces starts with the text of the first piece.
pub proof fn lemma_markups_text_first(ms: Seq<Markup>)
    requires
        ms.len() > 0,
    ensures
        markups_text(ms) == markup_text(ms[0]) + markups_text(ms.drop_first()),
{
    lemma_markups_text_concat(seq![ms[0]], ms.drop_first());
    lemma_markups_text_push(Seq::empty(), ms[0]);
    assert(Seq::<Markup>::empty().push(ms[0]) =~= seq![ms[0]]);
    assert(seq![ms[0]] + ms.drop_first() =~= ms);
    assert(markups_text(Seq::<Markup>::empty()) + markup_text(ms[0]) =~= markup_text(ms[0]));
}

/// From any item on, the text of a list starts with a line break or a `<`,
/// and the tags of a kind that stand in it are the pieces that are that tag
/// and the tags that stand in the items' own HTML.
pub proof fn lemma_items_text_tags(
    items: Seq<Item>,
    from: int,
    stack: Seq<Level>,
    kind: ListTypes,
    closing: bool,
)
    requires
        0 <= from <= items.len(),
        stack.len() > 0,
    ensures
        markups_text(items_markup(items, from, stack)).len() > 0,
        starts_clear(markups_text(items_markup(items, from, stack))),
        occurrences(markups_text(items_markup(items, from, stack)), tag(kind, closing))
            == tag_count(items_markup(items, from, stack), kind, closing) + inner_tags(
            items,
            from,
            kind,
            closing,
        ),
    decreases items.len() - from,
{
    let f = |m: Markup| is_tag(m, kind, closing);
    let ms = items_markup(items, from, stack);
    if from >= items.len() {
        lemma_unwind_pieces(stack);
        lemma_pieces_text(ms, Seq::empty(), kind, closing);
        assert(markups_text(ms) + Seq::<char>::empty() =~= markups_text(ms));
        lemma_markups_text_first(ms);
        lemma_piece_text(ms[0], kind, closing);
    } else {
        let item = items[from];
        let lead = enter(stack, item.indent, item.list_type);
        let pad = seq![Markup::Tabs(item.indent)];
        let open = Markup::Item(item.contents);
        let next = entered(stack, item.indent, item.list_type);
        let tail = items_markup(items, from + 1, next);
        lemma_enter_pieces(stack, item.indent, item.list_type);
        lemma_enter_counts(stack, item.indent, item.list_type);
        lemma_items_text_tags(items, from + 1, next, kind, closing);
        let behind = markup_text(open) + markups_text(tail);
        // the text, piece by piece
        assert(ms =~= (lead + pad) + (seq![open] + tail));
        lemma_markups_text_concat(lead + pad, seq![open] + tail);
        lemma_markups_text_first(seq![open] + tail);
        assert((seq![open] + tail).drop_first() =~= tail);
        assert(markups_text(ms) == markups_text(lead + pad) + behind);
        // the tags in it
        assert(no_items(lead + pad));
        lemma_pieces_text(lead + pad, behind, kind, closing);
        lemma_item_text(item.contents, markups_text(tail), kind, closing);
        // the pieces that are the tag
        lemma_count_concat(lead + pad, seq![open] + tail, f);
        lemma_count_concat(seq![open], tail, f);
        lemma_count_few(open, open, open, f);
        // how the text starts
        lemma_markups_text_first(ms);
        assert(ms[0] == lead[0]);
        lemma_piece_text(ms[0], kind, closing);
    }
}

/// The tags of a kind that stand in the text of a list are the pieces that
/// are that tag and the tags that stand in the items' own HTML.
pub proof fn lemma_list_text_tags(items: Seq<Item>, kind: ListTypes, closing: bool)
    requires
        items.len() > 0,
    ensures
        occurrences(markups_text(list_markup(items)), tag(kind, closing)) == tag_count(
            list_markup(items),
            kind,
            closing,
        ) + inner_tags(items, 0, kind, closing),
{
    let f = |m: Markup| is_tag(m, kind, closing);
    let first = seq![Markup::Open(items[0].list_type)];
    let open = Markup::Item(items[0].contents);
    let stack = seq![(items[0].indent, items[0].list_type)];
    let tail = items_markup(items, 1, stack);
    let behind = markup_text(open) + markups_text(tail);
    lemma_items_text_tags(items, 1, stack, kind, closing);
    assert(list_markup(items) =~= first + (seq![open] + tail));
    lemma_markups_text_concat(first, seq![open] + tail);
    lemma_markups_text_first(seq![open] + tail);
    assert((seq![open] + tail).drop_first() =~= tail);
    lemma_pieces_text(first, behind, kind, closing);
    lemma_item_text(items[0].contents, markups_text(tail), kind, closing);
    lemma_count_concat(first, seq![open] + tail, f);
    lemma_count_concat(seq![open], tail, f);
    lemma_count_few(open, open, open, f);
}

/// The opening container tags that stand in a text.
pub open spec fn open_tags(text: Seq<char>) -> nat {
    occurrences(text, tag(ListTypes::Ul, false)) + occurrences(text, tag(ListTypes::Ol, false))
}

/// The closing container tags that stand in a text.
pub open spec fn close_tags(text: Seq<char>) -> nat {
    occurrences(text, tag(ListTypes::Ul, true)) + occurrences(text, tag(ListTypes::Ol, true))
}

/// The opening container tags that stand in the HTML of the items' own
/// contents.
pub open spec fn inner_open_tags(items: Seq<Item>) -> nat {
    inner_tags(items, 0, ListTypes::Ul, false) + inner_tags(items, 0, ListTypes::Ol, false)
}

/// The closing container tags that stand in the HTML of the items' own
/// contents.
pub open spec fn inner_close_tags(items: Seq<Item>) -> nat {
    inner_tags(items, 0, ListTypes::Ul, true) + inner_tags(items, 0, ListTypes::Ol, true)
}

/// A container tag is of one kind or of the other.
pub proof fn lemma_tag_count_kinds(ms: Seq<Markup>)
    ensures
        tag_count(ms, ListTypes::Ul, false) + tag_count(ms, ListTypes::Ol, false) == opened(ms),
        tag_count(ms, ListTypes::Ul, true) + tag_count(ms, ListTypes::Ol, true) == closed(ms),
    decreases ms.len(),
{
    if ms.len() > 0 {
        lemma_tag_count_kinds(ms.drop_last());
    }
}

/// In the text of a rendered list stand the container tags that the renderer
/// wrote, which balance, and those that the items' own HTML holds. So the
/// opening and the closing container tags of the text balance if, and only
/// if, those of the items' own HTML do.
pub proof fn lemma_rendered_list_tags(items: Seq<Item>)
    requires
        items.len() > 0,
    ensures
        open_tags(markups_text(list_markup(items))) == opened(list_markup(items))
            + inner_open_tags(items),
        close_tags(markups_text(list_markup(items))) == closed(list_markup(items))
            + inner_close_tags(items),
        opened(list_markup(items)) == closed(list_markup(items)),
        open_tags(markups_text(list_markup(items))) == close_tags(
            markups_text(list_markup(items)),
        ) <==> inner_open_tags(items) == inner_close_tags(items),
{
    lemma_list_text_tags(items, ListTypes::Ul, false);
    lemma_list_text_tags(items, ListTypes::Ol, false);
    lemma_list_text_tags(items, ListTypes::Ul, true);
    lemma_list_text_tags(items, ListTypes::Ol, true);
    lemma_tag_count_kinds(list_markup(items));
    lemma_list_tags_balance(items);
}

/// The text that a span holds.
pub open spec fn span_text(span: Span) -> Seq<char> {
    match span {
        Span::Text(text) => text,
        Span::Bold(text) => text,
        Span::Italic(text) => text,
        Span::Code(text) => text,
    }
}

/// Whether no span holds a `<`.
pub open spec fn plain_spans(spans: Seq<Span>) -> bool {
    forall|i: int| 0 <= i < spans.len() ==> plain(span_text(#[trigger] spans[i]))
}

/// Whether no span of any item holds a `<`.
pub open spec fn plain_items(items: Seq<Item>) -> bool {
    forall|i: int| 0 <= i < items.len() ==> plain_spans((#[trigger] items[i]).contents)
}

/// A text without `<` in front of another text adds no tag.
pub proof fn lemma_plain_front(text: Seq<char>, rest: Seq<char>, kind: ListTypes, closing: bool)
    requires
        plain(text),
    ensures
        occurrences(text + rest, tag(kind, closing)) == occurrences(rest, tag(kind, closing)),
    decreases text.len(),
{
    if text.len() == 0 {
        assert(text + rest =~= rest);
    } else {
        let p = tag(kind, closing);
        lemma_tag_chars(kind, closing);
        if p.is_prefix_of(text + rest) {
            assert((text + rest).subrange(0, p.len() as int)[0] == text[0]);
        }
        assert forall|i: int| 0 <= i < text.drop_first().len() implies #[trigger] text.drop_first()[i]
            != '<' by {
            assert(text.drop_first()[i] == text[i + 1]);
        }
        assert((text + rest).drop_first() =~= text.drop_first() + rest);
        lemma_plain_front(text.drop_first(), rest, kind, closing);
    }
}

/// An element whose name and content hold no `<`, and whose name starts
/// unlike that of a container, adds no container tag in front of another
/// text.
pub proof fn lemma_element_front(
    name: Seq<char>,
    content: Seq<char>,
    rest: Seq<char>,
    kind: ListTypes,
    closing: bool,
)
    requires
        plain(name),
        plain(content),
        name.len() > 0,
        name[0] != 'u' && name[0] != 'o' && name[0] != '/',
    ensures
        occurrences(element(name, content) + rest, tag(kind, closing)) == occurrences(
            rest,
            tag(kind, closing),
        ),
{
    let p = tag(kind, closing);
    let start = "<"@ + name + ">"@;
    let end = "</"@ + name + ">"@;
    reveal_strlit("<");
    reveal_strlit("</");
    reveal_strlit(">");
    lemma_tag_chars(kind, closing);
    // the opening tag of the element
    assert(start[0] == '<' && start[1] == name[0] && start.last() == '>');
    assert forall|i: int| 0 <= i < start.drop_first().len() implies #[trigger] start.drop_first()[i]
        != '<' by {
        if i < name.len() {
            assert(start.drop_first()[i] == name[i]);
        }
    }
    lemma_one_tag_occurrences(start, kind, closing);
    if p.is_prefix_of(start) {
        assert(start.subrange(0, p.len() as int)[1] == start[1]);
        assert(p[1] == start[1]);
    }
    // the closing tag of the element
    assert(end[0] == '<' && end[1] == '/' && end[2] == name[0] && end.last() == '>');
    assert forall|i: int| 0 <= i < end.drop_first().len() implies #[trigger] end.drop_first()[i]
        != '<' by {
        if 1 <= i <= name.len() {
            assert(end.drop_first()[i] == name[i - 1]);
        }
    }
    lemma_one_tag_occurrences(end, kind, closing);
    if p.is_prefix_of(end) {
        assert(end.subrange(0, p.len() as int)[1] == end[1]);
        assert(end.subrange(0, p.len() as int)[2] == end[2]);
        assert(p[1] == end[1]);
        assert(p[2] == end[2]);
    }
    // laid end to end
    lemma_occurrences_concat(start, content + (end + rest), kind, closing);
    lemma_plain_front(content, end + rest, kind, closing);
    lemma_occurrences_concat(end, rest, kind, closing);
    assert(element(name, content) + rest =~= start + (content + (end + rest)));
}

/// The HTML of spans that hold no `<` adds no container tag in front of
/// another text.
pub proof fn lemma_plain_spans_front(
    spans: Seq<Span>,
    rest: Seq<char>,
    kind: ListTypes,
    closing: bool,
)
    requires
        plain_spans(spans),
    ensures
        occurrences(spans_html(spans) + rest, tag(kind, closing)) == occurrences(
            rest,
            tag(kind, closing),
        ),
    decreases spans.len(),
{
    if spans.len() == 0 {
        assert(spans_html(spans) + rest =~= rest);
    } else {
        let last = spans.last();
        let text = span_text(last);
        assert(plain(span_text(spans[spans.len() - 1])));
        reveal_strlit("code");
        reveal_strlit("b");
        reveal_strlit("i");
        match last {
            Span::Text(_) => lemma_plain_front(text, rest, kind, closing),
            Span::Code(_) => lemma_element_front("code"@, text, rest, kind, closing),
            Span::Bold(_) => lemma_element_front("b"@, text, rest, kind, closing),
            Span::Italic(_) => lemma_element_front("i"@, text, rest, kind, closing),
        }
        assert(plain_spans(spans.drop_last())) by {
            assert forall|i: int| 0 <= i < spans.drop_last().len() implies plain(
                span_text(#[trigger] spans.drop_last()[i]),
            ) by {
                assert(spans.drop_last()[i] == spans[i]);
            }
        }
        lemma_plain_spans_front(spans.drop_last(), span_html(last) + rest, kind, closing);
        assert(spans_html(spans) + rest =~= spans_html(spans.drop_last()) + (span_html(last)
            + rest));
    }
}

/// The HTML of items whose spans hold no `<` holds no container tag.
pub proof fn lemma_plain_items_inner(items: Seq<Item>, from: int, kind: ListTypes, closing: bool)
    requires
        0 <= from <= items.len(),
        plain_items(items),
    ensures
        inner_tags(items, from, kind, closing) == 0,
    decreases items.len() - from,
{
    if from < items.len() {
        let html = spans_html(items[from].contents);
        lemma_plain_spans_front(items[from].contents, Seq::empty(), kind, closing);
        assert(html + Seq::<char>::empty() =~= html);
        lemma_plain_items_inner(items, from + 1, kind, closing);
    }
}

/// A list whose spans hold no `<` is rendered as a text in which as many
/// container tags are closed as are opened: those that the renderer wrote.
pub proof fn lemma_plain_list_balance(items: Seq<Item>)
    requires
        items.len() > 0,
        plain_items(items),
    ensures
        open_tags(markups_text(list_markup(items))) == close_tags(
            markups_text(list_markup(items)),
        ),
        open_tags(markups_text(list_markup(items))) == opened(list_markup(items)),
{
    lemma_rendered_list_tags(items);
    lemma_plain_items_inner(items, 0, ListTypes::Ul, false);
    lemma_plain_items_inner(items, 0, ListTypes::Ol, false);
    lemma_plain_items_inner(items, 0, ListTypes::Ul, true);
    lemma_plain_items_inner(items, 0, ListTypes::Ol, true);
}

} // verus!

//! What holds of the markup of every list.

use vstd::prelude::*;
use crate::lexer::ListTypes;
use crate::markup::{
    Level, Markup, close_level, enter, entered, items_markup, lemma_close_level_text,
    lemma_markups_text_concat, lemma_markups_text_push, list_markup, markup_text, markups_text,
    spans_html, tabs, unwind,
};
use crate::model::Item;

verus! {

/// How many of the pieces satisfy `f`.
pub open spec fn count(ms: Seq<Markup>, f: spec_fn(Markup) -> bool) -> nat
    decreases ms.len(),
{
    if ms.len() == 0 {
        0
    } else {
        count(ms.drop_last(), f) + if f(ms.last()) {
            1nat
        } else {
            0nat
        }
    }
}

/// The number of opening container tags among the pieces.
pub open spec fn opened(ms: Seq<Markup>) -> nat {
    count(ms, |m: Markup| m is Open)
}

/// The number of closing container tags among the pieces.
pub open spec fn closed(ms: Seq<Markup>) -> nat {
    count(ms, |m: Markup| m is Close)
}

/// The number of items among the pieces.
pub open spec fn item_count(ms: Seq<Markup>) -> nat {
    count(ms, |m: Markup| m is Item)
}

/// Counting over two runs laid end to end adds up.
pub proof fn lemma_count_concat(a: Seq<Markup>, b: Seq<Markup>, f: spec_fn(Markup) -> bool)
    ensures
        count(a + b, f) == count(a, f) + count(b, f),
    decreases b.len(),
{
    if b.len() == 0 {
        assert(a + b =~= a);
    } else {
        lemma_count_concat(a, b.drop_last(), f);
        assert((a + b).drop_last() =~= a + b.drop_last());
        assert((a + b).last() == b.last());
    }
}

/// Counting over a run with one more piece behind it.
pub proof fn lemma_count_push(a: Seq<Markup>, m: Markup, f: spec_fn(Markup) -> bool)
    ensures
        count(a.push(m), f) == count(a, f) + if f(m) {
            1nat
        } else {
            0nat
        },
{
    assert(a.push(m).drop_last() =~= a);
}

/// Counting over one, two and three pieces.
pub proof fn lemma_count_few(x: Markup, y: Markup, z: Markup, f: spec_fn(Markup) -> bool)
    ensures
        count(seq![x], f) == if f(x) {
            1nat
        } else {
            0nat
        },
        count(seq![x, y], f) == count(seq![x], f) + if f(y) {
            1nat
        } else {
            0nat
        },
        count(seq![x, y, z], f) == count(seq![x, y], f) + if f(z) {
            1nat
        } else {
            0nat
        },
{
    lemma_count_push(Seq::empty(), x, f);
    lemma_count_push(seq![x], y, f);
    lemma_count_push(seq![x, y], z, f);
    assert(Seq::<Markup>::empty().push(x) =~= seq![x]);
    assert(seq![x].push(y) =~= seq![x, y]);
    assert(seq![x, y].push(z) =~= seq![x, y, z]);
}

/// Leading to an item opens or closes containers and writes a tag for each:
/// the tags opened, less the tags closed, is what the stack grew by. The
/// stack does not run empty, and no item is written.
pub proof fn lemma_enter_counts(stack: Seq<Level>, indent: nat, kind: ListTypes)
    requires
        stack.len() > 0,
    ensures
        entered(stack, indent, kind).len() > 0,
        opened(enter(stack, indent, kind)) + stack.len() == closed(enter(stack, indent, kind))
            + entered(stack, indent, kind).len(),
        item_count(enter(stack, indent, kind)) == 0,
    decreases stack.len(),
{
    let is_open = |m: Markup| m is Open;
    let is_close = |m: Markup| m is Close;
    let is_item = |m: Markup| m is Item;
    if stack.last().0 < indent {
        lemma_count_few(Markup::Newline, Markup::Tabs(indent), Markup::Open(kind), is_open);
        lemma_count_few(Markup::Newline, Markup::Tabs(indent), Markup::Open(kind), is_close);
        lemma_count_few(Markup::Newline, Markup::Tabs(indent), Markup::Open(kind), is_item);
    } else if stack.last().0 == indent || stack.len() == 1 {
        lemma_count_few(Markup::EndItem, Markup::EndItem, Markup::EndItem, is_open);
        lemma_count_few(Markup::EndItem, Markup::EndItem, Markup::EndItem, is_close);
        lemma_count_few(Markup::EndItem, Markup::EndItem, Markup::EndItem, is_item);
    } else {
        let top = stack.last();
        let pad = Markup::Tabs(stack[stack.len() - 2].0);
        let rest = enter(stack.drop_last(), indent, kind);
        lemma_enter_counts(stack.drop_last(), indent, kind);
        lemma_close_level_counts(top);
        lemma_count_push(close_level(top), pad, is_open);
        lemma_count_push(close_level(top), pad, is_close);
        lemma_count_push(close_level(top), pad, is_item);
        lemma_count_concat(close_level(top).push(pad), rest, is_open);
        lemma_count_concat(close_level(top).push(pad), rest, is_close);
        lemma_count_concat(close_level(top).push(pad), rest, is_item);
    }
}

/// Closing one container writes one closing tag, no opening tag and no item.
pub proof fn lemma_close_level_counts(level: Level)
    ensures
        opened(close_level(level)) == 0,
        closed(close_level(level)) == 1,
        item_count(close_level(level)) == 0,
{
    lemma_count_few(
        Markup::EndItem,
        Markup::Tabs(level.0),
        Markup::Close(level.1),
        |m: Markup| m is Open,
    );
    lemma_count_few(
        Markup::EndItem,
        Markup::Tabs(level.0),
        Markup::Close(level.1),
        |m: Markup| m is Close,
    );
    lemma_count_few(
        Markup::EndItem,
        Markup::Tabs(level.0),
        Markup::Close(level.1),
        |m: Markup| m is Item,
    );
}

/// Closing every open container writes one closing tag for each.
pub proof fn lemma_unwind_counts(stack: Seq<Level>)
    ensures
        opened(unwind(stack)) == 0,
        closed(unwind(stack)) == stack.len(),
        item_count(unwind(stack)) == 0,
    decreases stack.len(),
{
    if stack.len() > 0 {
        lemma_unwind_counts(stack.drop_last());
        lemma_close_level_counts(stack.last());
        lemma_count_concat(close_level(stack.last()), unwind(stack.drop_last()), |m: Markup| m is Open);
        lemma_count_concat(close_level(stack.last()), unwind(stack.drop_last()), |m: Markup| m is Close);
        lemma_count_concat(close_level(stack.last()), unwind(stack.drop_last()), |m: Markup| m is Item);
    }
}

/// From any item on, the closing tags still to come are the opening tags
/// still to come and one for each container that is open; and each item
/// still to come is written once.
pub proof fn lemma_items_markup_counts(items: Seq<Item>, from: int, stack: Seq<Level>)
    requires
        0 <= from <= items.len(),
        stack.len() > 0,
    ensures
        opened(items_markup(items, from, stack)) + stack.len() == closed(
            items_markup(items, from, stack),
        ),
        item_count(items_markup(items, from, stack)) == items.len() - from,
    decreases items.len() - from,
{
    let is_open = |m: Markup| m is Open;
    let is_close = |m: Markup| m is Close;
    let is_item = |m: Markup| m is Item;
    if from >= items.len() {
        lemma_unwind_counts(stack);
    } else {
        let item = items[from];
        let lead = enter(stack, item.indent, item.list_type);
        let open = seq![Markup::Tabs(item.indent), Markup::Item(item.contents)];
        let next = entered(stack, item.indent, item.list_type);
        let rest = items_markup(items, from + 1, next);
        lemma_enter_counts(stack, item.indent, item.list_type);
        lemma_items_markup_counts(items, from + 1, next);
        lemma_count_few(open[0], open[1], open[1], is_open);
        lemma_count_few(open[0], open[1], open[1], is_close);
        lemma_count_few(open[0], open[1], open[1], is_item);
        assert(open =~= seq![open[0], open[1]]);
        lemma_count_concat(lead, open, is_open);
        lemma_count_concat(lead, open, is_close);
        lemma_count_concat(lead, open, is_item);
        lemma_count_concat(lead + open, rest, is_open);
        lemma_count_concat(lead + open, rest, is_close);
        lemma_count_concat(lead + open, rest, is_item);
    }
}

/// In the markup of a list the container tags balance: as many are closed as
/// are opened. And every item of the list is written once.
pub proof fn lemma_list_tags_balance(items: Seq<Item>)
    ensures
        opened(list_markup(items)) == closed(list_markup(items)),
        items.len() > 0 ==> item_count(list_markup(items)) == items.len(),
{
    let is_open = |m: Markup| m is Open;
    let is_close = |m: Markup| m is Close;
    let is_item = |m: Markup| m is Item;
    let head = seq![Markup::Open(items[0].list_type), Markup::Item(items[0].contents)];
    let stack = seq![(items[0].indent, items[0].list_type)];
    let rest = items_markup(items, 1, stack);
    if items.len() > 0 {
        lemma_items_markup_counts(items, 1, stack);
    } else {
        lemma_unwind_counts(stack);
    }
    lemma_count_few(head[0], head[1], head[1], is_open);
    lemma_count_few(head[0], head[1], head[1], is_close);
    lemma_count_few(head[0], head[1], head[1], is_item);
    assert(head =~= seq![head[0], head[1]]);
    lemma_count_concat(head, rest, is_open);
    lemma_count_concat(head, rest, is_close);
    lemma_count_concat(head, rest, is_item);
}

/// The items from index `from` on as siblings: each in its own `<li>`, closed,
/// on a line of its own.
pub open spec fn sibling_items_html(items: Seq<Item>, from: int) -> Seq<char>
    decreases items.len() - from,
{
    if from < 0 || from >= items.len() {
        Seq::empty()
    } else {
        "<li>"@ + spans_html(items[from].contents) + "</li>\n"@ + sibling_items_html(
            items,
            from + 1,
        )
    }
}

/// A list without nesting: one container of the given kind around the items.
pub open spec fn flat_list_html(items: Seq<Item>, kind: ListTypes) -> Seq<char> {
    markup_text(Markup::Open(kind)) + sibling_items_html(items, 0) + markup_text(
        Markup::Close(kind),
    )
}

/// Whether every item has indent 0.
pub open spec fn all_at_margin(items: Seq<Item>) -> bool {
    forall|i: int| 0 <= i < items.len() ==> (#[trigger] items[i]).indent == 0
}

/// With every item at indent 0, what follows an open item is the end of that
/// item, the items still to come as its siblings, and the closing tag of the
/// one container.
proof fn lemma_flat_items(items: Seq<Item>, from: int, kind: ListTypes)
    requires
        0 <= from <= items.len(),
        all_at_margin(items),
    ensures
        markups_text(items_markup(items, from, seq![(0nat, kind)])) == "</li>\n"@
            + sibling_items_html(items, from) + markup_text(Markup::Close(kind)),
        opened(items_markup(items, from, seq![(0nat, kind)])) == 0,
        closed(items_markup(items, from, seq![(0nat, kind)])) == 1,
    decreases items.len() - from,
{
    let stack = seq![(0nat, kind)];
    let close = markup_text(Markup::Close(kind));
    assert(tabs(0) =~= Seq::empty());
    if from >= items.len() {
        assert(stack.drop_last() =~= Seq::empty());
        assert(unwind(stack.drop_last()) =~= Seq::empty());
        assert(stack.last() == (0nat, kind));
        assert(unwind(stack) =~= close_level((0nat, kind)));
        lemma_close_level_text((0nat, kind));
        lemma_close_level_counts((0nat, kind));
        assert("</li>\n"@ + tabs(0) + close =~= "</li>\n"@ + sibling_items_html(items, from)
            + close);
    } else {
        let item = items[from];
        let lead = seq![Markup::EndItem];
        let open = seq![Markup::Tabs(0), Markup::Item(item.contents)];
        let rest = items_markup(items, from + 1, stack);
        assert(item.indent == 0);
        assert(enter(stack, item.indent, item.list_type) == lead);
        assert(entered(stack, item.indent, item.list_type) == stack);
        assert(items_markup(items, from, stack) == lead + open + rest);
        lemma_flat_items(items, from + 1, kind);
        lemma_markups_text_concat(lead + open, rest);
        lemma_markups_text_concat(lead, open);
        lemma_markups_text_push(Seq::empty(), Markup::EndItem);
        lemma_markups_text_push(Seq::empty(), Markup::Tabs(0));
        lemma_markups_text_push(seq![Markup::Tabs(0)], Markup::Item(item.contents));
        assert(Seq::<Markup>::empty().push(Markup::EndItem) =~= lead);
        assert(Seq::<Markup>::empty().push(Markup::Tabs(0)) =~= seq![Markup::Tabs(0)]);
        assert(seq![Markup::Tabs(0)].push(Markup::Item(item.contents)) =~= open);
        assert(markups_text(lead) =~= "</li>\n"@);
        assert(markups_text(open) =~= "<li>"@ + spans_html(item.contents));
        assert(markups_text(items_markup(items, from, stack)) =~= "</li>\n"@
            + sibling_items_html(items, from) + close);
        let is_open = |m: Markup| m is Open;
        let is_close = |m: Markup| m is Close;
        lemma_count_few(Markup::EndItem, Markup::EndItem, Markup::EndItem, is_open);
        lemma_count_few(Markup::EndItem, Markup::EndItem, Markup::EndItem, is_close);
        lemma_count_few(open[0], open[1], open[1], is_open);
        lemma_count_few(open[0], open[1], open[1], is_close);
        assert(open =~= seq![open[0], open[1]]);
        lemma_count_concat(lead, open, is_open);
        lemma_count_concat(lead, open, is_close);
        lemma_count_concat(lead + open, rest, is_open);
        lemma_count_concat(lead + open, rest, is_close);
    }
}

/// A list whose items are all at indent 0 is rendered without nesting: one
/// container, of the kind of the first item, is opened and closed, and each
/// item is a sibling inside it, whatever its own kind.
pub proof fn lemma_flat_list(items: Seq<Item>)
    requires
        items.len() > 0,
        all_at_margin(items),
    ensures
        markups_text(list_markup(items)) == flat_list_html(items, items[0].list_type),
        opened(list_markup(items)) == 1,
        closed(list_markup(items)) == 1,
        item_count(list_markup(items)) == items.len(),
{
    let kind = items[0].list_type;
    let head = seq![Markup::Open(kind), Markup::Item(items[0].contents)];
    let stack = seq![(0nat, kind)];
    let rest = items_markup(items, 1, stack);
    assert(items[0].indent == 0);
    lemma_flat_items(items, 1, kind);
    lemma_list_tags_balance(items);
    lemma_markups_text_concat(head, rest);
    lemma_markups_text_push(Seq::empty(), Markup::Open(kind));
    lemma_markups_text_push(seq![Markup::Open(kind)], Markup::Item(items[0].contents));
    assert(Seq::<Markup>::empty().push(Markup::Open(kind)) =~= seq![Markup::Open(kind)]);
    assert(seq![Markup::Open(kind)].push(Markup::Item(items[0].contents)) =~= head);
    assert(markups_text(head) =~= markup_text(Markup::Open(kind)) + ("<li>"@ + spans_html(
        items[0].contents,
    )));
    assert(markups_text(list_markup(items)) =~= flat_list_html(items, kind));
    let is_open = |m: Markup| m is Open;
    lemma_count_few(head[0], head[1], head[1], is_open);
    assert(head =~= seq![head[0], head[1]]);
    lemma_count_concat(head, rest, is_open);
}

/// An item with a larger indent than the container it follows opens one
/// container of its own kind, whatever the kind of the containers around it
/// and however much larger the indent.
pub proof fn lemma_deeper_item_opens_own_kind(stack: Seq<Level>, indent: nat, kind: ListTypes)
    requires
        stack.len() > 0,
        stack.last().0 < indent,
    ensures
        enter(stack, indent, kind) == seq![
            Markup::Newline,
            Markup::Tabs(indent),
            Markup::Open(kind),
        ],
        entered(stack, indent, kind) == stack.push((indent, kind)),
        opened(enter(stack, indent, kind)) == 1,
        closed(enter(stack, indent, kind)) == 0,
{
    lemma_count_few(
        Markup::Newline,
        Markup::Tabs(indent),
        Markup::Open(kind),
        |m: Markup| m is Open,
    );
    lemma_count_few(
        Markup::Newline,
        Markup::Tabs(indent),
        Markup::Open(kind),
        |m: Markup| m is Close,
    );
}

/// A list of two items, the second with the larger indent, is a container of
/// the first item's kind that holds, inside its one item, a container of the
/// second item's kind: each container has the kind of the item that opened
/// it, whether or not the two kinds are the same.
pub proof fn lemma_sub_list_keeps_its_kind(first: Item, second: Item)
    requires
        first.indent < second.indent,
    ensures
        list_markup(seq![first, second]) == seq![
            Markup::Open(first.list_type),
            Markup::Item(first.contents),
            Markup::Newline,
            Markup::Tabs(second.indent),
            Markup::Open(second.list_type),
            Markup::Tabs(second.indent),
            Markup::Item(second.contents),
            Markup::EndItem,
            Markup::Tabs(second.indent),
            Markup::Close(second.list_type),
            Markup::EndItem,
            Markup::Tabs(first.indent),
            Markup::Close(first.list_type),
        ],
{
    let items = seq![first, second];
    let outer = (first.indent, first.list_type);
    let inner = (second.indent, second.list_type);
    let one = seq![outer];
    let two = seq![outer, inner];
    assert(enter(one, second.indent, second.list_type) == seq![
        Markup::Newline,
        Markup::Tabs(second.indent),
        Markup::Open(second.list_type),
    ]);
    assert(entered(one, second.indent, second.list_type) =~= two);
    assert(two.drop_last() =~= one);
    assert(one.drop_last() =~= Seq::<Level>::empty());
    assert(unwind(one.drop_last()) =~= Seq::<Markup>::empty());
    assert(unwind(one) =~= close_level(outer));
    assert(unwind(two) =~= close_level(inner) + close_level(outer));
    assert(items_markup(items, 2, two) == unwind(two));
    assert(items_markup(items, 1, one) == enter(one, second.indent, second.list_type) + seq![
        Markup::Tabs(second.indent),
        Markup::Item(second.contents),
    ] + items_markup(items, 2, two));
    assert(list_markup(items) =~= seq![
        Markup::Open(first.list_type),
        Markup::Item(first.contents),
        Markup::Newline,
        Markup::Tabs(second.indent),
        Markup::Open(second.list_type),
        Markup::Tabs(second.indent),
        Markup::Item(second.contents),
        Markup::EndItem,
        Markup::Tabs(second.indent),
        Markup::Close(second.list_type),
        Markup::EndItem,
        Markup::Tabs(first.indent),
        Markup::Close(first.list_type),
    ]);
}

} // verus!

//! The renderer: block nodes to HTML.

use vstd::prelude::*;
use vstd::string::StringExecFns;
use crate::lexer::{Contents, Li, ListTypes, RootTags};
use crate::markup::{
    Level, Markup, block_html, blocks_html, close_level, element, enter, entered, items_markup,
    lemma_markups_text_concat, lemma_markups_text_push, list_markup, markup_text, markups_text,
    renderable, span_html, spans_html, tabs, unwind,
};
use crate::model::views;

verus! {

/// The open containers of the renderer, as values of specifications.
pub open spec fn levels(stack: Seq<(usize, ListTypes)>) -> Seq<Level> {
    Seq::new(stack.len(), |i: int| (stack[i].0 as nat, stack[i].1))
}

/// The HTML written so far.
struct Parser {
    html: String,
}

impl Parser {
    /// Appends `<tag_name>content</tag_name>`, and a line break if `new_line`.
    fn push_html(&mut self, tag_name: &str, content: &str, new_line: bool)
        ensures
            final(self).html@ == old(self).html@ + element(tag_name@, content@) + (if new_line {
                "\n"@
            } else {
                Seq::empty()
            }),
    {
        self.html.append("<");
        self.html.append(tag_name);
        self.html.append(">");
        self.html.append(content);
        self.html.append("</");
        self.html.append(tag_name);
        self.html.append(">");
        if new_line {
            self.html.append("\n");
        }
        assert(self.html@ =~= old(self).html@ + element(tag_name@, content@) + (if new_line {
            "\n"@
        } else {
            Seq::empty()
        }));
    }
}

/// Renders a run of inline spans.
fn render_contents(contents: &Vec<Contents>) -> (html: String)
    ensures
        html@ == spans_html(views(contents@)),
{
    let ghost spans = views(contents@);
    let mut acc = Parser { html: String::new() };
    let mut i: usize = 0;
    while i < contents.len()
        invariant
            i <= contents.len(),
            spans == views(contents@),
            acc.html@ == spans_html(spans.take(i as int)),
        decreases contents.len() - i,
    {
        proof {
            assert(spans.take(i + 1).drop_last() =~= spans.take(i as int));
            assert(spans.take(i + 1).last() == contents[i as int]@);
        }
        match &contents[i] {
            Contents::Text(text) => acc.html.append(text.0.as_str()),
            Contents::Code(code) => acc.push_html("code", code.0.as_str(), false),
            Contents::Bold(bold) => acc.push_html("b", bold.0.as_str(), false),
            Contents::Italic(italic) => acc.push_html("i", italic.0.as_str(), false),
        }
        assert(acc.html@ =~= spans_html(spans.take(i as int)) + span_html(contents[i as int]@));
        i += 1;
    }
    assert(spans.take(contents.len() as int) =~= spans);
    acc.html
}

/// Appends `n` tab characters.
fn push_tabs(html: &mut String, n: usize)
    ensures
        final(html)@ == old(html)@ + tabs(n as nat),
{
    let mut i: usize = 0;
    assert(html@ =~= old(html)@ + tabs(0));
    while i < n
        invariant
            i <= n,
            html@ == old(html)@ + tabs(i as nat),
        decreases n - i,
    {
        proof {
            reveal_strlit("\t");
        }
        html.append("\t");
        i += 1;
        assert(html@ =~= old(html)@ + tabs(i as nat));
    }
}

/// Appends the given piece of markup for a container tag.
fn push_container_tag(html: &mut String, kind: ListTypes, closing: bool)
    ensures
        final(html)@ == old(html)@ + markup_text(
            if closing {
                Markup::Close(kind)
            } else {
                Markup::Open(kind)
            },
        ),
{
    if closing {
        html.append("</");
    } else {
        html.append("<");
    }
    html.append(kind.to_string());
    html.append(">\n");
    assert(html@ =~= old(html)@ + markup_text(
        if closing {
            Markup::Close(kind)
        } else {
            Markup::Open(kind)
        },
    ));
}

/// Appends the opening tag of an item and the item's contents.
fn push_item(html: &mut String, contents: &Vec<Contents>)
    ensures
        final(html)@ == old(html)@ + markup_text(Markup::Item(views(contents@))),
{
    html.append("<li>");
    let inner = render_contents(contents);
    html.append(inner.as_str());
    assert(html@ =~= old(html)@ + markup_text(Markup::Item(views(contents@))));
}

/// Appends the end of an item.
fn push_end_item(html: &mut String)
    ensures
        final(html)@ == old(html)@ + markups_text(seq![Markup::EndItem]),
{
    html.append("</li>\n");
    proof {
        lemma_markups_text_push(Seq::empty(), Markup::EndItem);
        assert(Seq::<Markup>::empty().push(Markup::EndItem) =~= seq![Markup::EndItem]);
        assert(html@ =~= old(html)@ + markups_text(seq![Markup::EndItem]));
    }
}

/// Appends the opening of a container inside the item before.
fn push_nested_open(html: &mut String, indent: usize, kind: ListTypes)
    ensures
        final(html)@ == old(html)@ + markups_text(
            seq![Markup::Newline, Markup::Tabs(indent as nat), Markup::Open(kind)],
        ),
{
    html.append("\n");
    push_tabs(html, indent);
    push_container_tag(html, kind, false);
    proof {
        let a = seq![Markup::Newline];
        let b = seq![Markup::Newline, Markup::Tabs(indent as nat)];
        let c = seq![Markup::Newline, Markup::Tabs(indent as nat), Markup::Open(kind)];
        lemma_markups_text_push(Seq::empty(), Markup::Newline);
        lemma_markups_text_push(a, Markup::Tabs(indent as nat));
        lemma_markups_text_push(b, Markup::Open(kind));
        assert(Seq::<Markup>::empty().push(Markup::Newline) =~= a);
        assert(a.push(Markup::Tabs(indent as nat)) =~= b);
        assert(b.push(Markup::Open(kind)) =~= c);
        assert(html@ =~= old(html)@ + markups_text(c));
    }
}

/// Appends the end of the last item of a container and the container's
/// closing tag.
fn push_close_level(html: &mut String, indent: usize, kind: ListTypes)
    ensures
        final(html)@ == old(html)@ + markups_text(close_level((indent as nat, kind))),
{
    html.append("</li>\n");
    push_tabs(html, indent);
    push_container_tag(html, kind, true);
    proof {
        let a = seq![Markup::EndItem];
        let b = seq![Markup::EndItem, Markup::Tabs(indent as nat)];
        let c = close_level((indent as nat, kind));
        lemma_markups_text_push(Seq::empty(), Markup::EndItem);
        lemma_markups_text_push(a, Markup::Tabs(indent as nat));
        lemma_markups_text_push(b, Markup::Close(kind));
        assert(Seq::<Markup>::empty().push(Markup::EndItem) =~= a);
        assert(a.push(Markup::Tabs(indent as nat)) =~= b);
        assert(b.push(Markup::Close(kind)) =~= c);
        assert(html@ =~= old(html)@ + markups_text(c));
    }
}

/// Appends the tabs in front of an item, the item's opening tag and its
/// contents.
fn push_indented_item(html: &mut String, indent: usize, contents: &Vec<Contents>)
    ensures
        final(html)@ == old(html)@ + markups_text(
            seq![Markup::Tabs(indent as nat), Markup::Item(views(contents@))],
        ),
{
    push_tabs(html, indent);
    push_item(html, contents);
    proof {
        let a = seq![Markup::Tabs(indent as nat)];
        let b = seq![Markup::Tabs(indent as nat), Markup::Item(views(contents@))];
        lemma_markups_text_push(Seq::empty(), Markup::Tabs(indent as nat));
        lemma_markups_text_push(a, Markup::Item(views(contents@)));
        assert(Seq::<Markup>::empty().push(Markup::Tabs(indent as nat)) =~= a);
        assert(a.push(Markup::Item(views(contents@))) =~= b);
        assert(html@ =~= old(html)@ + markups_text(b));
    }
}

/// Text that grows by one more run of pieces.
proof fn lemma_extend(start: Seq<char>, done: Seq<Markup>, step: Seq<Markup>)
    ensures
        start + markups_text(done) + markups_text(step) == start + markups_text(done + step),
{
    lemma_markups_text_concat(done, step);
    assert(start + markups_text(done) + markups_text(step) =~= start + (markups_text(done)
        + markups_text(step)));
}

/// Appends the markup that leads to an item of the given indent and kind, and
/// opens or closes containers as that asks.
fn enter_level(
    html: &mut String,
    stack: &mut Vec<(usize, ListTypes)>,
    indent: usize,
    kind: ListTypes,
)
    requires
        old(stack).len() > 0,
    ensures
        final(html)@ == old(html)@ + markups_text(
            enter(levels(old(stack)@), indent as nat, kind),
        ),
        levels(final(stack)@) == entered(levels(old(stack)@), indent as nat, kind),
        final(stack).len() > 0,
{
    let ghost first = levels(stack@);
    let ghost mut done: Seq<Markup> = Seq::empty();
    assert(html@ =~= old(html)@ + markups_text(done));
    assert(done + enter(first, indent as nat, kind) =~= enter(first, indent as nat, kind));
    loop
        invariant
            stack.len() > 0,
            first == levels(old(stack)@),
            html@ == old(html)@ + markups_text(done),
            enter(first, indent as nat, kind) == done + enter(levels(stack@), indent as nat, kind),
            entered(first, indent as nat, kind) == entered(levels(stack@), indent as nat, kind),
        decreases stack.len(),
    {
        let ghost before = levels(stack@);
        let top_indent = stack[stack.len() - 1].0;
        let top_kind = stack[stack.len() - 1].1;
        assert(before.last() == (top_indent as nat, top_kind));
        if top_indent < indent {
            push_nested_open(html, indent, kind);
            stack.push((indent, kind));
            proof {
                lemma_extend(old(html)@, done, enter(before, indent as nat, kind));
                assert(levels(stack@) =~= before.push((indent as nat, kind)));
            }
            return ;
        } else if top_indent == indent || stack.len() == 1 {
            push_end_item(html);
            proof {
                lemma_extend(old(html)@, done, enter(before, indent as nat, kind));
            }
            return ;
        } else {
            stack.pop();
            let second_indent = stack[stack.len() - 1].0;
            push_close_level(html, top_indent, top_kind);
            push_tabs(html, second_indent);
            proof {
                let step = close_level(before.last()).push(Markup::Tabs(second_indent as nat));
                assert(levels(stack@) =~= before.drop_last());
                assert(before[before.len() - 2].0 == second_indent as nat);
                lemma_markups_text_push(close_level(before.last()), Markup::Tabs(second_indent as nat));
                lemma_extend(old(html)@, done, step);
                assert(done + step + enter(levels(stack@), indent as nat, kind) =~= done + (step
                    + enter(levels(stack@), indent as nat, kind)));
                done = done + step;
            }
        }
    }
}

/// Appends the markup that closes every open container, innermost first.
fn close_levels(html: &mut String, stack: &mut Vec<(usize, ListTypes)>)
    ensures
        final(html)@ == old(html)@ + markups_text(unwind(levels(old(stack)@))),
        final(stack).len() == 0,
{
    let ghost first = levels(stack@);
    let ghost mut done: Seq<Markup> = Seq::empty();
    assert(html@ =~= old(html)@ + markups_text(done));
    assert(done + unwind(first) =~= unwind(first));
    while stack.len() > 0
        invariant
            first == levels(old(stack)@),
            html@ == old(html)@ + markups_text(done),
            unwind(first) == done + unwind(levels(stack@)),
        decreases stack.len(),
    {
        let ghost before = levels(stack@);
        let top_indent = stack[stack.len() - 1].0;
        let top_kind = stack[stack.len() - 1].1;
        stack.pop();
        push_close_level(html, top_indent, top_kind);
        proof {
            let step = close_level(before.last());
            assert(before.last() == (top_indent as nat, top_kind));
            assert(levels(stack@) =~= before.drop_last());
            lemma_extend(old(html)@, done, step);
            assert(done + step + unwind(levels(stack@)) =~= done + (step + unwind(levels(stack@))));
            done = done + step;
        }
    }
    assert(unwind(levels(stack@)) =~= Seq::empty());
    assert(done + Seq::<Markup>::empty() =~= done);
}

/// Appends the markup of a list. The items come flat, each with its indent;
/// the nesting is rebuilt here, with the open containers kept on a stack.
fn render_list(html: &mut String, lists: &Vec<Li>)
    requires
        lists.len() > 0,
    ensures
        final(html)@ == old(html)@ + markups_text(list_markup(views(lists@))),
{
    let ghost items = views(lists@);
    let mut stack: Vec<(usize, ListTypes)> = Vec::new();
    stack.push((lists[0].indent, lists[0].list_type));
    push_container_tag(html, lists[0].list_type, false);
    push_item(html, &lists[0].contents);
    let ghost mut done: Seq<Markup> = seq![
        Markup::Open(items[0].list_type),
        Markup::Item(items[0].contents),
    ];
    proof {
        let a = seq![Markup::Open(items[0].list_type)];
        lemma_markups_text_push(Seq::empty(), Markup::Open(items[0].list_type));
        lemma_markups_text_push(a, Markup::Item(items[0].contents));
        assert(Seq::<Markup>::empty().push(Markup::Open(items[0].list_type)) =~= a);
        assert(a.push(Markup::Item(items[0].contents)) =~= done);
        assert(html@ =~= old(html)@ + markups_text(done));
        assert(levels(stack@) =~= seq![(items[0].indent, items[0].list_type)]);
    }
    let mut i: usize = 1;
    while i < lists.len()
        invariant
            1 <= i <= lists.len(),
            stack.len() > 0,
            items == views(lists@),
            html@ == old(html)@ + markups_text(done),
            list_markup(items) == done + items_markup(items, i as int, levels(stack@)),
        decreases lists.len() - i,
    {
        let ghost before = levels(stack@);
        let li = &lists[i];
        enter_level(html, &mut stack, li.indent, li.list_type);
        push_indented_item(html, li.indent, &li.contents);
        proof {
            let item = items[i as int];
            assert(item == li@);
            let lead = enter(before, item.indent, item.list_type);
            let open = seq![Markup::Tabs(item.indent), Markup::Item(item.contents)];
            lemma_extend(old(html)@, done, lead);
            lemma_extend(old(html)@, done + lead, open);
            assert(done + (lead + open + items_markup(items, i + 1, levels(stack@))) =~= done + lead
                + open + items_markup(items, i + 1, levels(stack@)));
            done = done + lead + open;
        }
        i += 1;
    }
    let ghost before = levels(stack@);
    close_levels(html, &mut stack);
    proof {
        lemma_extend(old(html)@, done, unwind(before));
    }
}

/// Renders a document: the HTML of each block, in order, each followed by a
/// line break.
///
/// The text of headings, spans and code blocks is written as it is, without
/// escaping. A link, an image or a list without items has no markup, and
/// such a document is not accepted.
pub fn parse(tags: Vec<RootTags>) -> (html: String)
    requires
        forall|i: int| 0 <= i < tags.len() ==> renderable(#[trigger] tags[i]@),
    ensures
        html@ == blocks_html(views(tags@)),
{
    let ghost blocks = views(tags@);
    let mut parser = Parser { html: String::new() };
    let mut i: usize = 0;
    while i < tags.len()
        invariant
            i <= tags.len(),
            blocks == views(tags@),
            forall|i: int| 0 <= i < tags.len() ==> renderable(#[trigger] tags[i]@),
            parser.html@ == blocks_html(blocks.take(i as int)),
        decreases tags.len() - i,
    {
        let ghost before = parser.html@;
        proof {
            assert(blocks.take(i + 1).drop_last() =~= blocks.take(i as int));
            assert(blocks.take(i + 1).last() == tags[i as int]@);
            assert(renderable(tags[i as int]@));
        }
        match &tags[i] {
            RootTags::H1(h1) => parser.push_html("h1", h1.0.as_str(), true),
            RootTags::H2(h2) => parser.push_html("h2", h2.0.as_str(), true),
            RootTags::H3(h3) => parser.push_html("h3", h3.0.as_str(), true),
            RootTags::P(p) => {
                let p_contents = render_contents(&p.0);
                parser.push_html("p", p_contents.as_str(), true)
            },
            RootTags::Li(lists) => render_list(&mut parser.html, lists),
            RootTags::Pre(pre) => {
                parser.html.append("<pre><code>");
                parser.html.append(pre.0.as_str());
                parser.html.append("</code></pre>\n");
                assert(parser.html@ =~= before + ("<pre><code>"@ + pre.0@ + "</code></pre>\n"@));
            },
            _ => {},
        }
        assert(parser.html@ == before + block_html(tags[i as int]@));
        i += 1;
    }
    assert(blocks.take(tags.len() as int) =~= blocks);
    parser.html
}

} // verus!

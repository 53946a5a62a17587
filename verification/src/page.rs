//! From the text of an article to the content of its page.

use vstd::prelude::*;
use crate::grammar::blocks;
use crate::lexer::tokenize;
use crate::markup::blocks_html;
use crate::parser::parse;
use crate::text::{chars_of, find_char, has_prefix, line_at, string_of};

verus! {

/// The HTML of the blocks of a text.
pub open spec fn html_of(text: Seq<char>) -> Seq<char> {
    blocks_html(blocks(text))
}

/// Converts a text to HTML: scans it into blocks and renders the blocks. No
/// text is refused.
pub fn convert(text: &str) -> (html: String)
    ensures
        html@ == html_of(text@),
{
    parse(tokenize(text))
}

/// A text without `part`, wherever it stands: the text is read from the
/// left, and what is found is left out before the search goes on behind it.
pub open spec fn without(text: Seq<char>, part: Seq<char>) -> Seq<char>
    decreases text.len(),
{
    if text.len() == 0 {
        Seq::empty()
    } else if part.len() > 0 && part.is_prefix_of(text) {
        without(text.skip(part.len() as int), part)
    } else {
        seq![text[0]] + without(text.skip(1), part)
    }
}

/// The title of a page: the first line of its content, without the tags of
/// a first-level heading.
pub open spec fn title(content: Seq<char>) -> Seq<char> {
    without(without(line_at(content, 0), "<h1>"@), "</h1>"@)
}

/// The characters without `part`.
fn remove_all(chars: &Vec<char>, part: &Vec<char>) -> (kept: Vec<char>)
    ensures
        kept@ == without(chars@, part@),
{
    let n = chars.len();
    let mut kept: Vec<char> = Vec::new();
    let mut i: usize = 0;
    assert(chars@.skip(0) =~= chars@);
    assert(kept@ + without(chars@, part@) =~= without(chars@, part@));
    while i < n
        invariant
            i <= n,
            n == chars.len(),
            without(chars@, part@) == kept@ + without(chars@.skip(i as int), part@),
        decreases n - i,
    {
        let ghost rest = chars@.skip(i as int);
        let ghost before = kept@;
        assert(rest =~= chars@.subrange(i as int, n as int));
        if part.len() > 0 && has_prefix(chars, i, n, part) {
            assert(rest.skip(part.len() as int) =~= chars@.skip(i + part.len()));
            i += part.len();
        } else {
            kept.push(chars[i]);
            assert(rest.skip(1) =~= chars@.skip(i + 1));
            assert(before + (seq![rest[0]] + without(rest.skip(1), part@)) =~= kept@ + without(
                rest.skip(1),
                part@,
            ));
            i += 1;
        }
    }
    assert(kept@ + without(chars@.skip(n as int), part@) =~= kept@);
    kept
}

/// The title of a page, from its content. A content without any character
/// has no first line, and no title.
pub fn title_of(content: &str) -> (found: Option<String>)
    ensures
        found is Some <==> content@.len() > 0,
        found matches Some(text) ==> text@ == title(content@),
{
    let chars = chars_of(content);
    if chars.len() == 0 {
        return None;
    }
    let end = find_char(&chars, 0, '\n');
    let stop = if end < chars.len() && end > 0 && chars[end - 1] == '\r' {
        end - 1
    } else {
        end
    };
    let mut line: Vec<char> = Vec::new();
    let mut i: usize = 0;
    while i < stop
        invariant
            i <= stop <= chars.len(),
            line@ == chars@.subrange(0, i as int),
        decreases stop - i,
    {
        line.push(chars[i]);
        i += 1;
        assert(line@ =~= chars@.subrange(0, i as int));
    }
    proof {
        if end > 0 {
            assert(chars@.subrange(0, end as int).drop_last() =~= chars@.subrange(0, end - 1));
        }
        assert(line@ == line_at(content@, 0));
    }
    let bare = remove_all(&line, &chars_of("<h1>"));
    let bare = remove_all(&bare, &chars_of("</h1>"));
    Some(string_of(&bare, 0, bare.len()))
}

} // verus!

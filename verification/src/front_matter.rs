//! The header in front of an article.
//!
//! An article starts with a header between two lines that start with `---`.
//! A line of the header that starts with `description:` gives the article's
//! description. The header is left out before the article is scanned.

use vstd::prelude::*;
use vstd::string::StrSliceExecFns;
use vstd::utf8::{encode_scalar, encode_utf8};
use crate::text::{
    chars_of, find_char, has_prefix, is_whitespace, lemma_find_bounds, line_at, line_end, past,
    string_of, trim, trim_back, trim_front,
};

verus! {

/// What the header of an article gives.
pub struct Params<'a> {
    /// The description, without white space around it. It is not empty.
    pub description: &'a str,
    /// The number of bytes that the header takes: the article itself starts
    /// behind them.
    pub skip_cnt: usize,
}

/// Why an article has no [`Params`].
#[derive(Debug, PartialEq, Eq, Clone, Copy)]
pub enum ParamsError {
    /// No line gives a description, or the last one that does gives nothing
    /// but white space.
    DescriptionNotFound,
}

impl ParamsError {
    /// The words for this error.
    pub fn message(&self) -> (text: &'static str)
        ensures
            text@ == "description not found in markdown"@,
    {
        "description not found in markdown"
    }
}

/// The number of bytes of a text in UTF-8.
pub open spec fn byte_len(text: Seq<char>) -> nat {
    encode_utf8(text).len()
}

/// The start of a line that opens or closes the header.
pub open spec fn delimiter() -> Seq<char> {
    "---"@
}

/// The start of a line that gives the description.
pub open spec fn field() -> Seq<char> {
    "description:"@
}

/// A text without `prefix` at its front, as often as it stands there.
pub open spec fn strip_all(text: Seq<char>, prefix: Seq<char>) -> Seq<char>
    decreases text.len(),
{
    if prefix.len() > 0 && prefix.is_prefix_of(text) {
        strip_all(text.skip(prefix.len() as int), prefix)
    } else {
        text
    }
}

/// What is known of the header at the start of a line.
pub struct Header {
    /// The place of the line.
    pub pos: int,
    /// The bytes counted so far: for each line its own and one more.
    pub skip: nat,
    /// The lines that start with `---` so far.
    pub marks: nat,
    /// The description given last.
    pub description: Seq<char>,
}

/// What one more line adds to the header.
pub open spec fn header_line(s: Seq<char>, h: Header) -> Header {
    let line = line_at(s, h.pos);
    Header {
        pos: past(s, line_end(s, h.pos), 1),
        skip: h.skip + byte_len(line) + 1,
        marks: if delimiter().is_prefix_of(line) {
            h.marks + 1
        } else {
            h.marks
        },
        description: if !delimiter().is_prefix_of(line) && field().is_prefix_of(line) {
            trim(strip_all(line, field()))
        } else {
            h.description
        },
    }
}

/// The header read on from `h`: up to the second line that starts with
/// `---`, or to the end of the text.
pub open spec fn header_from(s: Seq<char>, h: Header) -> Header
    decreases s.len() - h.pos,
    via header_from_decreases
{
    if h.pos < 0 || h.pos >= s.len() || h.marks >= 2 {
        h
    } else {
        header_from(s, header_line(s, h))
    }
}

#[via_fn]
proof fn header_from_decreases(s: Seq<char>, h: Header) {
    if 0 <= h.pos < s.len() {
        lemma_find_bounds(s, h.pos, '\n');
    }
}

/// The header of a text.
pub open spec fn header(s: Seq<char>) -> Header {
    header_from(s, Header { pos: 0, skip: 0, marks: 0, description: Seq::empty() })
}

/// The bytes of two texts laid end to end are the bytes of each.
pub proof fn lemma_byte_len_concat(a: Seq<char>, b: Seq<char>)
    ensures
        byte_len(a + b) == byte_len(a) + byte_len(b),
    decreases a.len(),
{
    if a.len() == 0 {
        assert(a + b =~= b);
    } else {
        lemma_byte_len_concat(a.drop_first(), b);
        assert((a + b).drop_first() =~= a.drop_first() + b);
        assert((a + b)[0] == a[0]);
    }
}

/// The bytes of a text up to a place are the bytes up to an earlier place
/// and the bytes in between; a character takes at least one byte.
pub proof fn lemma_byte_len_parts(s: Seq<char>, a: int, b: int)
    requires
        0 <= a <= b <= s.len(),
    ensures
        byte_len(s.take(b)) == byte_len(s.take(a)) + byte_len(s.subrange(a, b)),
        byte_len(s.take(b)) <= byte_len(s),
        a < b ==> byte_len(s.subrange(a, b)) >= 1,
{
    lemma_byte_len_concat(s.take(a), s.subrange(a, b));
    assert(s.take(a) + s.subrange(a, b) =~= s.take(b));
    lemma_byte_len_concat(s.take(b), s.skip(b));
    assert(s.take(b) + s.skip(b) =~= s);
    if a < b {
        let part = s.subrange(a, b);
        assert(encode_utf8(part) == encode_scalar(part[0] as u32) + encode_utf8(
            part.drop_first(),
        ));
    }
}

/// Reads the header of an article.
///
/// The lines are read up to the second one that starts with `---`, or to the
/// end where there is none. Each line is counted with its bytes and one more
/// for its line break, and the count is where the header ends. A line that
/// starts with `description:`, and not with `---`, gives the description:
/// what follows `description:`, as often as that is repeated, without the
/// white space around it. Of several such lines the last one counts, also
/// where it gives nothing.
///
/// The text must be shorter than the largest `usize`, so that the count fits.
pub fn parse_params(markdown: &str) -> (params: Result<Params<'_>, ParamsError>)
    requires
        byte_len(markdown@) < usize::MAX,
    ensures
        match params {
            Ok(p) => {
                &&& p.description@ == header(markdown@).description
                &&& p.description@.len() > 0
                &&& p.skip_cnt == header(markdown@).skip
            },
            Err(_) => header(markdown@).description.len() == 0,
        },
{
    let ghost s = markdown@;
    let chars = chars_of(markdown);
    let dashes = chars_of("---");
    let label = chars_of("description:");
    proof {
        reveal_strlit("description:");
    }
    let n = chars.len();
    let mut pos: usize = 0;
    let mut skip_cnt: usize = 0;
    let mut cnt: usize = 0;
    let mut from: usize = 0;
    let mut to: usize = 0;
    assert(s.subrange(0, 0) =~= Seq::empty());
    while pos < n && cnt < 2
        invariant
            n == chars.len(),
            chars@ == s,
            s == markdown@,
            byte_len(s) < usize::MAX,
            dashes@ == delimiter(),
            label@ == field(),
            label@.len() == 12,
            pos <= n,
            from <= to <= n,
            cnt <= 2,
            pos < n ==> skip_cnt <= byte_len(s.take(pos as int)),
            header(s) == header_from(
                s,
                Header {
                    pos: pos as int,
                    skip: skip_cnt as nat,
                    marks: cnt as nat,
                    description: s.subrange(from as int, to as int),
                },
            ),
        decreases n - pos,
    {
        let ghost before = Header {
            pos: pos as int,
            skip: skip_cnt as nat,
            marks: cnt as nat,
            description: s.subrange(from as int, to as int),
        };
        let end = find_char(&chars, pos, '\n');
        let stop = if end < n && end > pos && chars[end - 1] == '\r' {
            end - 1
        } else {
            end
        };
        let ghost line = s.subrange(pos as int, stop as int);
        let next = if end < n {
            end + 1
        } else {
            n
        };
        proof {
            if end > pos {
                assert(s.subrange(pos as int, end as int).drop_last() =~= s.subrange(
                    pos as int,
                    end - 1,
                ));
            }
            assert(line == line_at(s, pos as int));
            lemma_byte_len_parts(s, pos as int, stop as int);
            lemma_byte_len_parts(s, stop as int, next as int);
            lemma_byte_len_parts(s, pos as int, next as int);
        }
        let text = string_of(&chars, pos, stop);
        skip_cnt = skip_cnt + text.as_str().len() + 1;
        if has_prefix(&chars, pos, stop, &dashes) {
            cnt += 1;
        } else if has_prefix(&chars, pos, stop, &label) {
            from = pos;
            while has_prefix(&chars, from, stop, &label)
                invariant
                    pos <= from <= stop <= chars.len(),
                    chars@ == s,
                    label@ == field(),
                    label@.len() == 12,
                    strip_all(s.subrange(pos as int, stop as int), field()) == strip_all(
                        s.subrange(from as int, stop as int),
                        field(),
                    ),
                decreases stop - from,
            {
                assert(s.subrange(from as int, stop as int).skip(12) =~= s.subrange(
                    from + 12,
                    stop as int,
                ));
                from += 12;
            }
            let ghost stripped = s.subrange(from as int, stop as int);
            while from < stop && is_whitespace(chars[from])
                invariant
                    from <= stop <= chars.len(),
                    chars@ == s,
                    trim_front(stripped) == trim_front(s.subrange(from as int, stop as int)),
                decreases stop - from,
            {
                assert(s.subrange(from as int, stop as int).drop_first() =~= s.subrange(
                    from + 1,
                    stop as int,
                ));
                from += 1;
            }
            to = stop;
            let ghost fronted = s.subrange(from as int, stop as int);
            while to > from && is_whitespace(chars[to - 1])
                invariant
                    from <= to <= stop <= chars.len(),
                    chars@ == s,
                    trim_back(fronted) == trim_back(s.subrange(from as int, to as int)),
                decreases to - from,
            {
                assert(s.subrange(from as int, to as int).drop_last() =~= s.subrange(
                    from as int,
                    to - 1,
                ));
                to -= 1;
            }
        }
        pos = next;
        assert(header_line(s, before) == Header {
            pos: pos as int,
            skip: skip_cnt as nat,
            marks: cnt as nat,
            description: s.subrange(from as int, to as int),
        });
    }
    if from == to {
        Err(ParamsError::DescriptionNotFound)
    } else {
        Ok(Params { description: markdown.substring_char(from, to), skip_cnt })
    }
}

} // verus!

//! What the nodes of a document are, as values of specifications.

use vstd::prelude::*;
use crate::lexer::ListTypes;

verus! {

/// What an inline span is, as a value of specifications.
pub enum Span {
    Text(Seq<char>),
    Bold(Seq<char>),
    Italic(Seq<char>),
    Code(Seq<char>),
}

/// What a list item is, as a value of specifications.
pub struct Item {
    pub list_type: ListTypes,
    pub indent: nat,
    pub contents: Seq<Span>,
}

/// What a block node is, as a value of specifications.
pub enum Block {
    H1(Seq<char>),
    H2(Seq<char>),
    H3(Seq<char>),
    P(Seq<Span>),
    A,
    Img,
    Li(Seq<Item>),
    Pre(Seq<char>),
}

/// The views of the elements of a sequence, in the same order.
pub open spec fn views<T: View>(s: Seq<T>) -> Seq<T::V> {
    Seq::new(s.len(), |i: int| s[i]@)
}

/// The views of a sequence with one more element are the views of the
/// sequence with the view of the element behind them.
pub proof fn lemma_views_push<T: View>(s: Seq<T>, x: T)
    ensures
        views(s.push(x)) == views(s).push(x@),
{
    assert(views(s.push(x)) =~= views(s).push(x@));
}

} // verus!

use vstd::prelude::*;

use super::block::Block;
use super::meta::Attr;
use super::{Format, MathType, QuoteType, Target};

verus! {

/// An inline-level element of the document tree.
#[derive(Debug, PartialEq)]
pub enum Inline {
    Str(String),
    Space,
    SoftBreak,
    LineBreak,
    Emph(Vec<Inline>),
    Strong(Vec<Inline>),
    Underline(Vec<Inline>),
    Strikeout(Vec<Inline>),
    Superscript(Vec<Inline>),
    Subscript(Vec<Inline>),
    SmallCaps(Vec<Inline>),
    Quoted(QuoteType, Vec<Inline>),
    Code(Attr, String),
    Math(MathType, String),
    Link(Attr, Vec<Inline>, Target),
    Image(Attr, Vec<Inline>, Target),
    Note(Vec<Block>),
    Span(Attr, Vec<Inline>),
    RawInline(Format, String),
}

/// The mathematical view of an `Inline`.
#[verifier::ext_equal]
pub enum InlineV {
    Str(Seq<char>),
    Space,
    SoftBreak,
    LineBreak,
    Emph(Seq<InlineV>),
    Strong(Seq<InlineV>),
    Underline(Seq<InlineV>),
    Strikeout(Seq<InlineV>),
    Superscript(Seq<InlineV>),
    Subscript(Seq<InlineV>),
    SmallCaps(Seq<InlineV>),
    Quoted(QuoteType, Seq<InlineV>),
    Code(super::meta::AttrV, Seq<char>),
    Math(MathType, Seq<char>),
    Link(super::meta::AttrV, Seq<InlineV>, super::TargetV),
    Image(super::meta::AttrV, Seq<InlineV>, super::TargetV),
    Note(Seq<super::block::BlockV>),
    Span(super::meta::AttrV, Seq<InlineV>),
    RawInline(Seq<char>, Seq<char>),
}

/// The mathematical view of one inline element.
pub open spec fn inline_dv(i: Inline) -> InlineV
    decreases i,
{
    match i {
        Inline::Str(s) => InlineV::Str(s@),
        Inline::Space => InlineV::Space,
        Inline::SoftBreak => InlineV::SoftBreak,
        Inline::LineBreak => InlineV::LineBreak,
        Inline::Emph(is) => InlineV::Emph(inlines_dv(is@)),
        Inline::Strong(is) => InlineV::Strong(inlines_dv(is@)),
        Inline::Underline(is) => InlineV::Underline(inlines_dv(is@)),
        Inline::Strikeout(is) => InlineV::Strikeout(inlines_dv(is@)),
        Inline::Superscript(is) => InlineV::Superscript(inlines_dv(is@)),
        Inline::Subscript(is) => InlineV::Subscript(inlines_dv(is@)),
        Inline::SmallCaps(is) => InlineV::SmallCaps(inlines_dv(is@)),
        Inline::Quoted(q, is) => InlineV::Quoted(q, inlines_dv(is@)),
        Inline::Code(a, s) => InlineV::Code(super::meta::attr_dv(a), s@),
        Inline::Math(m, s) => InlineV::Math(m, s@),
        Inline::Link(a, is, t) => InlineV::Link(
            super::meta::attr_dv(a),
            inlines_dv(is@),
            super::target_dv(t),
        ),
        Inline::Image(a, is, t) => InlineV::Image(
            super::meta::attr_dv(a),
            inlines_dv(is@),
            super::target_dv(t),
        ),
        Inline::Note(bs) => InlineV::Note(super::block::blocks_dv(bs@)),
        Inline::Span(a, is) => InlineV::Span(super::meta::attr_dv(a), inlines_dv(is@)),
        Inline::RawInline(f, s) => InlineV::RawInline(f.0@, s@),
    }
}

/// The mathematical views of a sequence of inlines.
pub open spec fn inlines_dv(is: Seq<Inline>) -> Seq<InlineV>
    decreases is,
{
    if is.len() == 0 {
        Seq::empty()
    } else {
        inlines_dv(is.drop_last()).push(inline_dv(is.last()))
    }
}

/// The views of a concatenation are the concatenated views.
pub proof fn lemma_inlines_dv_add(a: Seq<Inline>, b: Seq<Inline>)
    ensures
        inlines_dv(a + b) == inlines_dv(a) + inlines_dv(b),
    decreases b.len(),
{
    if b.len() == 0 {
        assert(a + b =~= a);
        assert(inlines_dv(a) + inlines_dv(b) =~= inlines_dv(a));
    } else {
        lemma_inlines_dv_add(a, b.drop_last());
        assert((a + b).drop_last() =~= a + b.drop_last());
        assert((a + b).last() == b.last());
        assert(inlines_dv(a + b) == inlines_dv(a + b.drop_last()).push(inline_dv(b.last())));
        assert(inlines_dv(a) + inlines_dv(b) =~= (inlines_dv(a) + inlines_dv(b.drop_last())).push(
            inline_dv(b.last()),
        ));
    }
}

} // verus!

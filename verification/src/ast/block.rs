use vstd::prelude::*;

use super::inline::Inline;
use super::meta::Attr;
use super::table::{Caption, Table};
use super::{Format, ListAttrs};

verus! {

/// A block-level element of the document tree.
#[derive(Debug, PartialEq)]
pub enum Block {
    Plain(Vec<Inline>),
    Para(Vec<Inline>),
    LineBlock(Vec<Vec<Inline>>),
    Heading(Attr, u8, Vec<Inline>),
    CodeBlock(Attr, String),
    RawBlock(Format, String),
    BlockQuote(Vec<Block>),
    BulletList(Vec<Vec<Block>>),
    OrderedList(ListAttrs, Vec<Vec<Block>>),
    DefinitionList(Vec<(Vec<Inline>, Vec<Vec<Block>>)>),
    Table(Table),
    Figure(Attr, Caption, Vec<Block>),
    Div(Attr, Vec<Block>),
    HorizontalRule,
    PageBreak,
}

/// The mathematical view of a `Block`.
#[verifier::ext_equal]
pub enum BlockV {
    Plain(Seq<super::inline::InlineV>),
    Para(Seq<super::inline::InlineV>),
    LineBlock(Seq<Seq<super::inline::InlineV>>),
    Heading(super::meta::AttrV, u8, Seq<super::inline::InlineV>),
    CodeBlock(super::meta::AttrV, Seq<char>),
    RawBlock(Seq<char>, Seq<char>),
    BlockQuote(Seq<BlockV>),
    BulletList(Seq<Seq<BlockV>>),
    OrderedList(ListAttrs, Seq<Seq<BlockV>>),
    DefinitionList(Seq<(Seq<super::inline::InlineV>, Seq<Seq<BlockV>>)>),
    Table(super::table::TableDv),
    Figure(super::meta::AttrV, super::table::CaptionDv, Seq<BlockV>),
    Div(super::meta::AttrV, Seq<BlockV>),
    HorizontalRule,
    PageBreak,
}

/// The mathematical view of one block.
pub open spec fn block_dv(b: Block) -> BlockV
    decreases b,
{
    match b {
        Block::Plain(is) => BlockV::Plain(super::inline::inlines_dv(is@)),
        Block::Para(is) => BlockV::Para(super::inline::inlines_dv(is@)),
        Block::LineBlock(ls) => BlockV::LineBlock(inline_lists_dv(ls@)),
        Block::Heading(a, level, is) => BlockV::Heading(
            super::meta::attr_dv(a),
            level,
            super::inline::inlines_dv(is@),
        ),
        Block::CodeBlock(a, s) => BlockV::CodeBlock(super::meta::attr_dv(a), s@),
        Block::RawBlock(f, s) => BlockV::RawBlock(f.0@, s@),
        Block::BlockQuote(bs) => BlockV::BlockQuote(blocks_dv(bs@)),
        Block::BulletList(items) => BlockV::BulletList(block_lists_dv(items@)),
        Block::OrderedList(attrs, items) => BlockV::OrderedList(attrs, block_lists_dv(items@)),
        Block::DefinitionList(items) => BlockV::DefinitionList(def_items_dv(items@)),
        Block::Table(t) => BlockV::Table(super::table::table_dv(t)),
        Block::Figure(a, c, bs) => BlockV::Figure(
            super::meta::attr_dv(a),
            super::table::caption_dv(c),
            blocks_dv(bs@),
        ),
        Block::Div(a, bs) => BlockV::Div(super::meta::attr_dv(a), blocks_dv(bs@)),
        Block::HorizontalRule => BlockV::HorizontalRule,
        Block::PageBreak => BlockV::PageBreak,
    }
}

/// The mathematical views of a sequence of blocks.
pub open spec fn blocks_dv(bs: Seq<Block>) -> Seq<BlockV>
    decreases bs,
{
    if bs.len() == 0 {
        Seq::empty()
    } else {
        blocks_dv(bs.drop_last()).push(block_dv(bs.last()))
    }
}

/// The mathematical views of a sequence of block lists.
pub open spec fn block_lists_dv(items: Seq<Vec<Block>>) -> Seq<Seq<BlockV>>
    decreases items,
{
    if items.len() == 0 {
        Seq::empty()
    } else {
        block_lists_dv(items.drop_last()).push(blocks_dv(items.last()@))
    }
}

/// The mathematical views of a sequence of inline lists.
pub open spec fn inline_lists_dv(ls: Seq<Vec<super::inline::Inline>>) -> Seq<
    Seq<super::inline::InlineV>,
>
    decreases ls,
{
    if ls.len() == 0 {
        Seq::empty()
    } else {
        inline_lists_dv(ls.drop_last()).push(super::inline::inlines_dv(ls.last()@))
    }
}

/// The mathematical views of definition-list items.
pub open spec fn def_items_dv(
    items: Seq<(Vec<super::inline::Inline>, Vec<Vec<Block>>)>,
) -> Seq<(Seq<super::inline::InlineV>, Seq<Seq<BlockV>>)>
    decreases items,
{
    if items.len() == 0 {
        Seq::empty()
    } else {
        def_items_dv(items.drop_last()).push(
            (super::inline::inlines_dv(items.last().0@), block_lists_dv(items.last().1@)),
        )
    }
}

} // verus!

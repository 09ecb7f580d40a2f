pub mod block;
pub mod inline;
pub mod meta;
pub mod table;

use vstd::prelude::*;

verus! {

/// A target-format tag carried by raw passthrough blocks and inlines.
#[derive(Debug, Clone, PartialEq)]
pub struct Format(pub String);

/// The destination of a hyperlink or image.
#[derive(Debug, Clone, PartialEq)]
pub struct Target {
    pub url: String,
    pub title: String,
}

/// The quoting style of a quoted inline span.
#[derive(Debug, Clone, PartialEq)]
pub enum QuoteType {
    SingleQuote,
    DoubleQuote,
}

/// Whether a math inline is display or inline math.
#[derive(Debug, Clone, PartialEq)]
pub enum MathType {
    DisplayMath,
    InlineMath,
}

/// Numbering attributes of an ordered list.
#[derive(Debug, Clone, PartialEq)]
pub struct ListAttrs {
    pub start: u32,
    pub style: ListNumberStyle,
    pub delim: ListNumberDelim,
}

/// The numbering style of an ordered list.
#[derive(Debug, Clone, PartialEq)]
pub enum ListNumberStyle {
    Decimal,
    LowerAlpha,
    UpperAlpha,
    LowerRoman,
    UpperRoman,
}

/// The delimiter style of an ordered list.
#[derive(Debug, Clone, PartialEq)]
pub enum ListNumberDelim {
    Period,
    OneParen,
    TwoParens,
}

impl Default for ListAttrs {
    /// An ordered list starts at 1 with decimal numbering and a period.
    fn default() -> (r: Self)
        ensures
            r.start == 1,
            r.style is Decimal,
            r.delim is Period,
    {
        ListAttrs { start: 1, style: ListNumberStyle::Decimal, delim: ListNumberDelim::Period }
    }
}

/// The mathematical view of a `Target`.
#[verifier::ext_equal]
pub struct TargetV {
    pub url: Seq<char>,
    pub title: Seq<char>,
}

/// The mathematical view of a `Target`.
pub open spec fn target_dv(t: Target) -> TargetV {
    TargetV { url: t.url@, title: t.title@ }
}

} // verus!

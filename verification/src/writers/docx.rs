//! The DOCX renderer.  A `Document` is first reduced to a sequence of plain
//! construction elements — paragraphs of styled runs and tables of shaded
//! cells — by fully verified code; a thin trusted layer then drives the
//! external packaging crate with those elements and packs the archive.

use vstd::prelude::*;

use crate::ast::block::Block;
use crate::ast::inline::Inline;
use crate::ast::meta::{spec_meta_get_str, Document, Meta};
use crate::ast::table::{Row, Table, TableBody};
use crate::utils::error::PandorustError;
use crate::strutil::{
    append_decimal, append_str, chars_of, spec_decimal, spec_lines_of, spec_trim, split_lines,
    string_from_chars, trim_chars, views_of,
};
use vstd::string::StrSliceExecFns;

verus! {

/// The font family of a run: the body font, the monospace font, or the
/// monospace font without a complex-script binding (used for math runs).
#[derive(Debug, Clone, PartialEq)]
pub enum FontKind {
    Body,
    Mono,
    MathMono,
}

/// The kind of an explicit break inside a run.
#[derive(Debug, Clone, PartialEq)]
pub enum BreakKind {
    Page,
    TextWrapping,
}

/// One styled text run of the output document.
#[derive(Debug, PartialEq)]
pub struct DocxRun {
    pub text: String,
    pub size: Option<usize>,
    pub bold: bool,
    pub italic: bool,
    pub underline: bool,
    pub strike: bool,
    pub color: Option<String>,
    pub font: Option<FontKind>,
    pub brk: Option<BreakKind>,
}

/// The mathematical view of a run.
pub struct RunV {
    pub text: Seq<char>,
    pub size: Option<int>,
    pub bold: bool,
    pub italic: bool,
    pub underline: bool,
    pub strike: bool,
    pub color: Option<Seq<char>>,
    pub font: Option<FontKind>,
    pub brk: Option<BreakKind>,
}

impl View for DocxRun {
    type V = RunV;

    open spec fn view(&self) -> RunV {
        RunV {
            text: self.text@,
            size: match self.size {
                Some(n) => Some(n as int),
                None => None,
            },
            bold: self.bold,
            italic: self.italic,
            underline: self.underline,
            strike: self.strike,
            color: match self.color {
                Some(ref c) => Some(c@),
                None => None,
            },
            font: self.font,
            brk: self.brk,
        }
    }
}

/// One paragraph of the output document.
#[derive(Debug, PartialEq)]
pub struct DocxParagraph {
    pub runs: Vec<DocxRun>,
    pub align_center: bool,
    pub indent_left: Option<i32>,
    pub spacing_before: Option<u32>,
    pub spacing_after: Option<u32>,
    pub spacing_line: Option<i32>,
}

/// The mathematical view of a paragraph.
pub struct ParaV {
    pub runs: Seq<RunV>,
    pub align_center: bool,
    pub indent_left: Option<int>,
    pub spacing_before: Option<int>,
    pub spacing_after: Option<int>,
    pub spacing_line: Option<int>,
}

/// The views of a sequence of runs.
pub open spec fn runs_view(rs: Seq<DocxRun>) -> Seq<RunV> {
    Seq::new(rs.len(), |i: int| rs[i]@)
}

impl View for DocxParagraph {
    type V = ParaV;

    open spec fn view(&self) -> ParaV {
        ParaV {
            runs: runs_view(self.runs@),
            align_center: self.align_center,
            indent_left: match self.indent_left {
                Some(n) => Some(n as int),
                None => None,
            },
            spacing_before: match self.spacing_before {
                Some(n) => Some(n as int),
                None => None,
            },
            spacing_after: match self.spacing_after {
                Some(n) => Some(n as int),
                None => None,
            },
            spacing_line: match self.spacing_line {
                Some(n) => Some(n as int),
                None => None,
            },
        }
    }
}

/// One table cell of the output document.  A cell with no paragraph is the
/// filler cell of an otherwise empty table.
#[derive(Debug, PartialEq)]
pub struct DocxCell {
    pub para: Option<DocxParagraph>,
    pub width: Option<usize>,
    pub fill: Option<String>,
    pub borders: bool,
}

/// The mathematical view of a cell.
pub struct CellV {
    pub para: Option<ParaV>,
    pub width: Option<int>,
    pub fill: Option<Seq<char>>,
    pub borders: bool,
}

impl View for DocxCell {
    type V = CellV;

    open spec fn view(&self) -> CellV {
        CellV {
            para: match self.para {
                Some(ref p) => Some(p@),
                None => None,
            },
            width: match self.width {
                Some(n) => Some(n as int),
                None => None,
            },
            fill: match self.fill {
                Some(ref f) => Some(f@),
                None => None,
            },
            borders: self.borders,
        }
    }
}

/// One table row of the output document.
#[derive(Debug, PartialEq)]
pub struct DocxRow {
    pub cells: Vec<DocxCell>,
}

/// The mathematical view of a row.
pub struct DocxRowV {
    pub cells: Seq<CellV>,
}

/// The views of a sequence of cells.
pub open spec fn docx_cells_view(cs: Seq<DocxCell>) -> Seq<CellV> {
    Seq::new(cs.len(), |i: int| cs[i]@)
}

impl View for DocxRow {
    type V = DocxRowV;

    open spec fn view(&self) -> DocxRowV {
        DocxRowV { cells: docx_cells_view(self.cells@) }
    }
}

/// One table of the output document: its rows, total width, and column
/// grid.
#[derive(Debug, PartialEq)]
pub struct DocxTable {
    pub rows: Vec<DocxRow>,
    pub width: usize,
    pub grid: Vec<usize>,
}

/// The mathematical view of a table.
pub struct DocxTableV {
    pub rows: Seq<DocxRowV>,
    pub width: int,
    pub grid: Seq<int>,
}

/// The views of a sequence of rows.
pub open spec fn docx_rows_view(rs: Seq<DocxRow>) -> Seq<DocxRowV> {
    Seq::new(rs.len(), |i: int| rs[i]@)
}

impl View for DocxTable {
    type V = DocxTableV;

    open spec fn view(&self) -> DocxTableV {
        DocxTableV {
            rows: docx_rows_view(self.rows@),
            width: self.width as int,
            grid: self.grid@.map_values(|u: usize| u as int),
        }
    }
}

/// One ordered element of the output document body.
#[derive(Debug, PartialEq)]
pub enum DocxElement {
    Paragraph(DocxParagraph),
    Table(DocxTable),
}

/// The mathematical view of an element.
pub enum ElemV {
    Paragraph(ParaV),
    Table(DocxTableV),
}

impl View for DocxElement {
    type V = ElemV;

    open spec fn view(&self) -> ElemV {
        match self {
            DocxElement::Paragraph(p) => ElemV::Paragraph(p@),
            DocxElement::Table(t) => ElemV::Table(t@),
        }
    }
}

/// The views of a sequence of elements.
pub open spec fn elems_view(es: Seq<DocxElement>) -> Seq<ElemV> {
    Seq::new(es.len(), |i: int| es[i]@)
}

/// Whether `c` is a decimal digit.
pub open spec fn spec_is_digit(c: char) -> bool {
    c == '0' || c == '1' || c == '2' || c == '3' || c == '4' || c == '5' || c == '6' || c == '7'
        || c == '8' || c == '9'
}

/// The numeric value of a decimal digit character.
pub open spec fn spec_char_digit(c: char) -> nat {
    if c == '0' {
        0
    } else if c == '1' {
        1
    } else if c == '2' {
        2
    } else if c == '3' {
        3
    } else if c == '4' {
        4
    } else if c == '5' {
        5
    } else if c == '6' {
        6
    } else if c == '7' {
        7
    } else if c == '8' {
        8
    } else {
        9
    }
}

/// The longest prefix of `s` made of decimal digits.
pub open spec fn spec_digits_prefix(s: Seq<char>) -> Seq<char>
    decreases s.len(),
{
    if s.len() > 0 && spec_is_digit(s[0]) {
        seq![s[0]] + spec_digits_prefix(s.drop_first())
    } else {
        Seq::empty()
    }
}

/// The numeric value of a digit string.
pub open spec fn spec_digits_value(ds: Seq<char>) -> nat
    decreases ds.len(),
{
    if ds.len() == 0 {
        0
    } else {
        spec_digits_value(ds.drop_last()) * 10 + spec_char_digit(ds.last())
    }
}

/// The half-point body size resolved from a metadata size string: twice the
/// leading decimal number when there is one and doubling stays in range,
/// and 24 otherwise.
pub open spec fn spec_parse_fontsize(o: Option<Seq<char>>) -> int {
    match o {
        None => 24,
        Some(s) => {
            let ds = spec_digits_prefix(s);
            let v = spec_digits_value(ds);
            if ds.len() > 0 && v <= usize::MAX && 2 * v <= usize::MAX {
                2 * (v as int)
            } else {
                24
            }
        },
    }
}

/// The value of a digit-string prefix never exceeds the whole string's.
proof fn lemma_digits_value_monotone(ds: Seq<char>, i: int)
    requires
        0 <= i <= ds.len(),
    ensures
        spec_digits_value(ds.take(i)) <= spec_digits_value(ds),
    decreases ds.len() - i,
{
    if i < ds.len() {
        lemma_digits_value_monotone(ds, i + 1);
        assert(ds.take(i + 1).drop_last() =~= ds.take(i));
        assert(ds.take(i + 1).last() == ds[i]);
        assert(spec_digits_value(ds.take(i)) <= spec_digits_value(ds.take(i + 1)));
    } else {
        assert(ds.take(i) =~= ds);
    }
}

/// Parses a metadata size string (for example `11pt`) into half-points for
/// the output document: twice the leading number, with 24 for an absent or
/// unparsable size.
pub fn parse_fontsize(meta_fontsize: Option<&str>) -> (r: usize)
    ensures
        r as int == spec_parse_fontsize(
            match meta_fontsize {
                Some(s) => Some(s@),
                None => None,
            },
        ),
        meta_fontsize is None ==> r == 24,
{
    match meta_fontsize {
        None => 24,
        Some(s) => {
            let cs = chars_of(s);
            let ghost ds = spec_digits_prefix(s@);
            // Find the digit prefix length.
            let mut n: usize = 0;
            while n < cs.len() && cs[n] >= '0' && cs[n] <= '9'
                invariant
                    n <= cs@.len(),
                    cs@ == s@,
                    forall|j: int| 0 <= j < n ==> spec_is_digit(s@[j]),
                decreases cs@.len() - n,
            {
                assert(spec_is_digit(s@[n as int])) by {
                    let c = cs@[n as int];
                    assert(c >= '0' && c <= '9');
                };
                n = n + 1;
            }
            proof {
                if n < cs@.len() {
                    assert(!spec_is_digit(s@[n as int])) by {
                        let c = s@[n as int];
                        if spec_is_digit(c) {
                            assert(c >= '0' && c <= '9');
                        }
                    };
                }
                lemma_digits_prefix_at(s@, n as int);
            }
            if n == 0 {
                return 24;
            }
            // Accumulate the value, watching for overflow.
            let mut acc: usize = 0;
            let mut overflow = false;
            let mut k: usize = 0;
            while k < n
                invariant
                    k <= n <= cs@.len(),
                    cs@ == s@,
                    ds == spec_digits_prefix(s@),
                    ds.len() == n,
                    forall|j: int| 0 <= j < n ==> ds[j] == s@[j],
                    forall|j: int| 0 <= j < n ==> spec_is_digit(s@[j]),
                    !overflow ==> acc as nat == spec_digits_value(ds.take(k as int)),
                    overflow ==> spec_digits_value(ds.take(k as int)) > usize::MAX,
                decreases n - k,
            {
                let c = cs[k];
                let d: usize = digit_value(c);
                proof {
                    assert(ds.take(k + 1).drop_last() =~= ds.take(k as int));
                    assert(ds.take(k + 1).last() == ds[k as int]);
                    assert(ds[k as int] == s@[k as int]);
                }
                if overflow || acc > (usize::MAX - d) / 10 {
                    proof {
                        if !overflow {
                            assert(acc as nat * 10 + spec_char_digit(s@[k as int])
                                > usize::MAX) by (nonlinear_arith)
                                requires
                                    acc > (usize::MAX - d) / 10,
                                    d == spec_char_digit(s@[k as int]),
                                    d <= 9,
                            ;
                        }
                        assert(spec_digits_value(ds.take(k + 1)) > usize::MAX);
                    }
                    overflow = true;
                } else {
                    proof {
                        assert(acc * 10 + d <= usize::MAX) by (nonlinear_arith)
                            requires
                                acc <= (usize::MAX - d) / 10,
                                d <= 9,
                        ;
                    }
                    acc = acc * 10 + d;
                }
                k = k + 1;
            }
            assert(ds.take(n as int) =~= ds);
            if overflow {
                return 24;
            }
            if acc > usize::MAX / 2 {
                assert(2 * spec_digits_value(ds) > usize::MAX);
                return 24;
            }
            assert(2 * spec_digits_value(ds) <= usize::MAX);
            2 * acc
        },
    }
}

/// If the first `m` characters are digits and the next one is not, the
/// digit prefix is exactly those `m` characters.
proof fn lemma_digits_prefix_at(s: Seq<char>, m: int)
    requires
        0 <= m <= s.len(),
        forall|j: int| 0 <= j < m ==> spec_is_digit(s[j]),
        m < s.len() ==> !spec_is_digit(s[m]),
    ensures
        spec_digits_prefix(s).len() == m,
        forall|j: int| 0 <= j < m ==> spec_digits_prefix(s)[j] == s[j],
    decreases m + 1,
{
    if m == 0 {
        if s.len() > 0 {
            assert(!spec_is_digit(s[0]));
        }
    } else {
        lemma_digits_prefix_at(s.drop_first(), m - 1);
        assert(spec_digits_prefix(s) == seq![s[0]] + spec_digits_prefix(s.drop_first()));
        assert forall|j: int| 0 <= j < m implies spec_digits_prefix(s)[j] == s[j] by {
            if j > 0 {
                assert(spec_digits_prefix(s)[j] == spec_digits_prefix(s.drop_first())[j - 1]);
                assert(s.drop_first()[j - 1] == s[j]);
            }
        }
    }
}

/// The numeric value of a digit character.
fn digit_value(c: char) -> (r: usize)
    requires
        spec_is_digit(c),
    ensures
        r as nat == spec_char_digit(c),
        r <= 9,
{
    if c == '0' {
        0
    } else if c == '1' {
        1
    } else if c == '2' {
        2
    } else if c == '3' {
        3
    } else if c == '4' {
        4
    } else if c == '5' {
        5
    } else if c == '6' {
        6
    } else if c == '7' {
        7
    } else if c == '8' {
        8
    } else {
        9
    }
}

/// The heading size in half-points for a heading level, relative to the
/// base body size: levels 1 to 4 add 14, 8, 4 and 2, level 5 is the base,
/// and level 6 subtracts 2, saturating at the ends of the `usize` range.
pub open spec fn spec_heading_size(level: u8, base_size: int) -> int {
    if level == 1 {
        if base_size + 14 <= usize::MAX {
            base_size + 14
        } else {
            usize::MAX as int
        }
    } else if level == 2 {
        if base_size + 8 <= usize::MAX {
            base_size + 8
        } else {
            usize::MAX as int
        }
    } else if level == 3 {
        if base_size + 4 <= usize::MAX {
            base_size + 4
        } else {
            usize::MAX as int
        }
    } else if level == 4 {
        if base_size + 2 <= usize::MAX {
            base_size + 2
        } else {
            usize::MAX as int
        }
    } else if level == 5 {
        base_size
    } else {
        if base_size >= 2 {
            base_size - 2
        } else {
            0
        }
    }
}

/// The heading font size in half-points for a heading level.
pub fn heading_size(level: u8, base_size: usize) -> (r: usize)
    ensures
        r as int == spec_heading_size(level, base_size as int),
{
    if level == 1 {
        if base_size <= usize::MAX - 14 {
            base_size + 14
        } else {
            usize::MAX
        }
    } else if level == 2 {
        if base_size <= usize::MAX - 8 {
            base_size + 8
        } else {
            usize::MAX
        }
    } else if level == 3 {
        if base_size <= usize::MAX - 4 {
            base_size + 4
        } else {
            usize::MAX
        }
    } else if level == 4 {
        if base_size <= usize::MAX - 2 {
            base_size + 2
        } else {
            usize::MAX
        }
    } else if level == 5 {
        base_size
    } else {
        if base_size >= 2 {
            base_size - 2
        } else {
            0
        }
    }
}

/// The heading-size law: for every level from 1 to 6, as long as the base
/// size keeps the arithmetic inside the `usize` range, the heading size is
/// the base plus the fixed per-level offset 14, 8, 4, 2, 0 or -2.
pub proof fn lemma_heading_size_law(base_size: int)
    requires
        2 <= base_size,
        base_size + 14 <= usize::MAX,
    ensures
        spec_heading_size(1, base_size) == base_size + 14,
        spec_heading_size(2, base_size) == base_size + 8,
        spec_heading_size(3, base_size) == base_size + 4,
        spec_heading_size(4, base_size) == base_size + 2,
        spec_heading_size(5, base_size) == base_size,
        spec_heading_size(6, base_size) == base_size - 2,
{
}

/// The plain text of one inline element, formatting dropped.
pub open spec fn spec_inline_text(il: Inline) -> Seq<char>
    decreases il,
{
    match il {
        Inline::Str(s) => s@,
        Inline::Space => " "@,
        Inline::SoftBreak => " "@,
        Inline::LineBreak => "\n"@,
        Inline::Emph(is) => spec_inlines_text(is@),
        Inline::Strong(is) => spec_inlines_text(is@),
        Inline::Underline(is) => spec_inlines_text(is@),
        Inline::Strikeout(is) => spec_inlines_text(is@),
        Inline::Superscript(is) => spec_inlines_text(is@),
        Inline::Subscript(is) => spec_inlines_text(is@),
        Inline::SmallCaps(is) => spec_inlines_text(is@),
        Inline::Span(_, is) => spec_inlines_text(is@),
        Inline::Quoted(_, is) => "\u{201c}"@ + spec_inlines_text(is@) + "\u{201d}"@,
        Inline::Code(_, s) => s@,
        Inline::Math(_, s) => s@,
        Inline::Link(_, content, target) => if content@.len() == 0 {
            target.url@
        } else {
            spec_inlines_text(content@)
        },
        Inline::Image(_, alt, _) => spec_inlines_text(alt@),
        Inline::Note(blocks) => spec_trim(spec_block_text_join(blocks@)),
        Inline::RawInline(_, s) => s@,
    }
}

/// The plain text of a sequence of inlines.
pub open spec fn spec_inlines_text(is: Seq<Inline>) -> Seq<char>
    decreases is,
{
    if is.len() == 0 {
        Seq::empty()
    } else {
        spec_inlines_text(is.drop_last()) + spec_inline_text(is.last())
    }
}

/// The plain text of one block, for the flattened rendering of list items
/// and table cells.
pub open spec fn spec_block_text(b: Block) -> Seq<char>
    decreases b,
{
    match b {
        Block::Plain(is) => spec_inlines_text(is@),
        Block::Para(is) => spec_inlines_text(is@),
        Block::Heading(_, _, is) => spec_inlines_text(is@),
        Block::CodeBlock(_, code) => code@,
        Block::BulletList(items) => spec_bullet_items_text(items@),
        Block::OrderedList(_, items) => spec_ordered_items_text(items@),
        Block::BlockQuote(inner) => spec_trim(spec_block_text_join(inner@)),
        _ => Seq::empty(),
    }
}

/// The per-block texts joined with single spaces.
pub open spec fn spec_block_text_join(bs: Seq<Block>) -> Seq<char>
    decreases bs,
{
    if bs.len() == 0 {
        Seq::empty()
    } else if bs.len() == 1 {
        spec_block_text(bs[0])
    } else {
        spec_block_text_join(bs.drop_last()) + " "@ + spec_block_text(bs.last())
    }
}

/// The flattened text of a whole block sequence: joined and trimmed.
pub open spec fn spec_blocks_text(bs: Seq<Block>) -> Seq<char> {
    spec_trim(spec_block_text_join(bs))
}

/// The flattened text of bullet-list items: each prefixed with a bullet
/// glyph, joined with single spaces.
pub open spec fn spec_bullet_items_text(items: Seq<Vec<Block>>) -> Seq<char>
    decreases items,
{
    if items.len() == 0 {
        Seq::empty()
    } else if items.len() == 1 {
        "\u{2022} "@ + spec_trim(spec_block_text_join(items[0]@))
    } else {
        spec_bullet_items_text(items.drop_last()) + " "@ + "\u{2022} "@ + spec_trim(
            spec_block_text_join(items.last()@),
        )
    }
}

/// The flattened text of ordered-list items: each prefixed with its
/// position and a period, joined with single spaces.
pub open spec fn spec_ordered_items_text(items: Seq<Vec<Block>>) -> Seq<char>
    decreases items,
{
    if items.len() == 0 {
        Seq::empty()
    } else if items.len() == 1 {
        spec_decimal(1) + ". "@ + spec_trim(spec_block_text_join(items[0]@))
    } else {
        spec_ordered_items_text(items.drop_last()) + " "@ + spec_decimal(items.len() as nat)
            + ". "@ + spec_trim(spec_block_text_join(items.last()@))
    }
}

/// Appends the plain text of one inline element to `out`.
#[verifier::rlimit(100)]
fn push_inline_text(out: &mut Vec<char>, il: &Inline)
    ensures
        final(out)@ == old(out)@ + spec_inline_text(*il),
    decreases *il,
{
    let ghost base = out@;
    match il {
        Inline::Str(s) => {
            append_str(out, s.as_str());
        },
        Inline::Space => {
            append_str(out, " ");
        },
        Inline::SoftBreak => {
            append_str(out, " ");
        },
        Inline::LineBreak => {
            append_str(out, "\n");
        },
        Inline::Emph(is) => {
            push_inlines_text(out, is);
        },
        Inline::Strong(is) => {
            push_inlines_text(out, is);
        },
        Inline::Underline(is) => {
            push_inlines_text(out, is);
        },
        Inline::Strikeout(is) => {
            push_inlines_text(out, is);
        },
        Inline::Superscript(is) => {
            push_inlines_text(out, is);
        },
        Inline::Subscript(is) => {
            push_inlines_text(out, is);
        },
        Inline::SmallCaps(is) => {
            push_inlines_text(out, is);
        },
        Inline::Span(_, is) => {
            push_inlines_text(out, is);
        },
        Inline::Quoted(_, is) => {
            append_str(out, "\u{201c}");
            push_inlines_text(out, is);
            append_str(out, "\u{201d}");
            assert(out@ =~= base + spec_inline_text(*il));
        },
        Inline::Code(_, s) => {
            append_str(out, s.as_str());
        },
        Inline::Math(_, s) => {
            append_str(out, s.as_str());
        },
        Inline::Link(_, content, target) => {
            if content.len() == 0 {
                append_str(out, target.url.as_str());
            } else {
                push_inlines_text(out, content);
            }
        },
        Inline::Image(_, alt, _) => {
            push_inlines_text(out, alt);
        },
        Inline::Note(blocks) => {
            let mut tmp: Vec<char> = Vec::new();
            push_block_text_join(&mut tmp, blocks);
            append_trimmed_of(out, tmp.as_slice());
        },
        Inline::RawInline(_, s) => {
            append_str(out, s.as_str());
        },
    }
}

/// Appends the plain text of a sequence of inlines to `out`.
fn push_inlines_text(out: &mut Vec<char>, is: &Vec<Inline>)
    ensures
        final(out)@ == old(out)@ + spec_inlines_text(is@),
    decreases *is,
{
    let ghost base = out@;
    let mut i: usize = 0;
    assert(spec_inlines_text(is@.take(0)) =~= Seq::<char>::empty());
    while i < is.len()
        invariant
            i <= is@.len(),
            out@ == base + spec_inlines_text(is@.take(i as int)),
        decreases is@.len() - i,
    {
        push_inline_text(out, &is[i]);
        proof {
            assert(is@.take(i + 1).drop_last() =~= is@.take(i as int));
            assert(is@.take(i + 1).last() == is@[i as int]);
            assert(out@ =~= base + spec_inlines_text(is@.take(i + 1)));
        }
        i = i + 1;
    }
    assert(is@.take(is@.len() as int) =~= is@);
}

/// Appends the trimmed form of `tmp` to `out`.
fn append_trimmed_of(out: &mut Vec<char>, tmp: &[char])
    ensures
        final(out)@ == old(out)@ + spec_trim(tmp@),
{
    let ghost base = out@;
    let tr = trim_chars(tmp);
    let mut q: usize = 0;
    while q < tr.len()
        invariant
            q <= tr@.len(),
            tr@ == spec_trim(tmp@),
            out@ == base + tr@.take(q as int),
        decreases tr@.len() - q,
    {
        out.push(tr[q]);
        assert(tr@.take(q + 1) =~= tr@.take(q as int).push(tr@[q as int]));
        q = q + 1;
    }
    assert(tr@.take(tr@.len() as int) =~= tr@);
}

/// Appends the trimmed flattened text of `bs` to `out`.
fn push_blocks_text_trimmed(out: &mut Vec<char>, bs: &Vec<Block>)
    ensures
        final(out)@ == old(out)@ + spec_trim(spec_block_text_join(bs@)),
{
    let mut tmp: Vec<char> = Vec::new();
    push_block_text_join(&mut tmp, bs);
    append_trimmed_of(out, tmp.as_slice());
}

/// Appends the space-joined texts of `bs` to `out`.
#[verifier::rlimit(100)]
fn push_block_text_join(out: &mut Vec<char>, bs: &Vec<Block>)
    ensures
        final(out)@ == old(out)@ + spec_block_text_join(bs@),
    decreases *bs,
{
    let ghost base = out@;
    let mut i: usize = 0;
    assert(spec_block_text_join(bs@.take(0)) =~= Seq::<char>::empty());
    while i < bs.len()
        invariant
            i <= bs@.len(),
            out@ == base + spec_block_text_join(bs@.take(i as int)),
        decreases bs@.len() - i,
    {
        if i > 0 {
            append_str(out, " ");
        }
        push_one_block_text(out, &bs[i]);
        proof {
            assert(bs@.take(i + 1).drop_last() =~= bs@.take(i as int));
            assert(bs@.take(i + 1).last() == bs@[i as int]);
            if i == 0 {
                assert(spec_block_text_join(bs@.take(1)) == spec_block_text(bs@.take(1)[0]));
                assert(out@ =~= base + spec_block_text_join(bs@.take(1)));
            } else {
                assert(out@ =~= base + spec_block_text_join(bs@.take(i + 1)));
            }
        }
        i = i + 1;
    }
    assert(bs@.take(bs@.len() as int) =~= bs@);
}

/// Appends the flattened bullet-item texts to `out`.
fn push_bullet_items_text(out: &mut Vec<char>, items: &Vec<Vec<Block>>)
    ensures
        final(out)@ == old(out)@ + spec_bullet_items_text(items@),
    decreases *items,
{
    let ghost base = out@;
    let mut i: usize = 0;
    assert(spec_bullet_items_text(items@.take(0)) =~= Seq::<char>::empty());
    while i < items.len()
        invariant
            i <= items@.len(),
            out@ == base + spec_bullet_items_text(items@.take(i as int)),
        decreases items@.len() - i,
    {
        if i > 0 {
            append_str(out, " ");
        }
        append_str(out, "\u{2022} ");
        let mut tmp: Vec<char> = Vec::new();
        push_block_text_join(&mut tmp, &items[i]);
        append_trimmed_of(out, tmp.as_slice());
        proof {
            assert(items@.take(i + 1).drop_last() =~= items@.take(i as int));
            assert(items@.take(i + 1).last() == items@[i as int]);
            if i == 0 {
                assert(out@ =~= base + spec_bullet_items_text(items@.take(1)));
            } else {
                assert(out@ =~= base + spec_bullet_items_text(items@.take(i + 1)));
            }
        }
        i = i + 1;
    }
    assert(items@.take(items@.len() as int) =~= items@);
}

/// Appends the flattened ordered-item texts to `out`.
fn push_ordered_items_text(out: &mut Vec<char>, items: &Vec<Vec<Block>>)
    ensures
        final(out)@ == old(out)@ + spec_ordered_items_text(items@),
    decreases *items,
{
    let ghost base = out@;
    let mut i: usize = 0;
    assert(spec_ordered_items_text(items@.take(0)) =~= Seq::<char>::empty());
    while i < items.len()
        invariant
            i <= items@.len(),
            out@ == base + spec_ordered_items_text(items@.take(i as int)),
        decreases items@.len() - i,
    {
        if i > 0 {
            append_str(out, " ");
        }
        append_decimal(out, (i as u128) + 1);
        append_str(out, ". ");
        let mut tmp: Vec<char> = Vec::new();
        push_block_text_join(&mut tmp, &items[i]);
        append_trimmed_of(out, tmp.as_slice());
        proof {
            assert(items@.take(i + 1).drop_last() =~= items@.take(i as int));
            assert(items@.take(i + 1).last() == items@[i as int]);
            assert(items@.take(i + 1).len() == i + 1);
            if i == 0 {
                assert(out@ =~= base + spec_ordered_items_text(items@.take(1)));
            } else {
                assert(out@ =~= base + spec_ordered_items_text(items@.take(i + 1)));
            }
        }
        i = i + 1;
    }
    assert(items@.take(items@.len() as int) =~= items@);
}

/// Appends the flattened text of one block to `out`.
#[verifier::rlimit(100)]
fn push_one_block_text(out: &mut Vec<char>, b: &Block)
    ensures
        final(out)@ == old(out)@ + spec_block_text(*b),
    decreases *b,
{
    let ghost base = out@;
    match b {
        Block::Plain(is) => {
            push_inlines_text(out, is);
        },
        Block::Para(is) => {
            push_inlines_text(out, is);
        },
        Block::Heading(_, _, is) => {
            push_inlines_text(out, is);
        },
        Block::CodeBlock(_, code) => {
            append_str(out, code.as_str());
        },
        Block::BulletList(items) => {
            push_bullet_items_text(out, items);
        },
        Block::OrderedList(_, items) => {
            push_ordered_items_text(out, items);
        },
        Block::BlockQuote(inner) => {
            let mut tmp: Vec<char> = Vec::new();
            push_block_text_join(&mut tmp, inner);
            append_trimmed_of(out, tmp.as_slice());
        },
        _ => {},
    }
}

/// Extracts the flattened plain text of a block sequence, joined with
/// spaces and trimmed.
pub fn extract_inline_text_from_blocks(blocks: &Vec<Block>) -> (r: String)
    ensures
        r@ == spec_blocks_text(blocks@),
{
    let mut out: Vec<char> = Vec::new();
    push_blocks_text_trimmed(&mut out, blocks);
    string_from_chars(out.as_slice())
}

/// Extracts the plain text of a sequence of inlines.
pub fn inline_text_content(inlines: &Vec<Inline>) -> (r: String)
    ensures
        r@ == spec_inlines_text(inlines@),
{
    let mut out: Vec<char> = Vec::new();
    push_inlines_text(&mut out, inlines);
    string_from_chars(out.as_slice())
}


/// The view of an optional half-point size.
pub open spec fn size_view(o: Option<usize>) -> Option<int> {
    match o {
        Some(n) => Some(n as int),
        None => None,
    }
}

/// The runs produced for one inline element.  `bo` is the caller's bold
/// override; the four `f*` flags carry styling forced by enclosing
/// emphasis wrappers down to every run they contain.
pub open spec fn spec_inline_runs(
    il: Inline,
    size: Option<int>,
    bo: bool,
    fb: bool,
    fi: bool,
    fu: bool,
    fs: bool,
) -> Seq<RunV>
    decreases il,
{
    match il {
        Inline::Str(s) => seq![
            RunV {
                text: s@,
                size,
                bold: bo || fb,
                italic: fi,
                underline: fu,
                strike: fs,
                color: None,
                font: Some(FontKind::Body),
                brk: None,
            },
        ],
        Inline::Space => seq![
            RunV {
                text: " "@,
                size,
                bold: bo || fb,
                italic: fi,
                underline: fu,
                strike: fs,
                color: None,
                font: Some(FontKind::Body),
                brk: None,
            },
        ],
        Inline::SoftBreak => seq![
            RunV {
                text: " "@,
                size,
                bold: bo || fb,
                italic: fi,
                underline: fu,
                strike: fs,
                color: None,
                font: Some(FontKind::Body),
                brk: None,
            },
        ],
        Inline::LineBreak => seq![
            RunV {
                text: Seq::empty(),
                size,
                bold: fb,
                italic: fi,
                underline: fu,
                strike: fs,
                color: None,
                font: Some(FontKind::Body),
                brk: Some(BreakKind::TextWrapping),
            },
        ],
        Inline::Strong(is) => spec_inlines_runs(is@, size, true, true, fi, fu, fs),
        Inline::Emph(is) => spec_inlines_runs(is@, size, bo, fb, true, fu, fs),
        Inline::Strikeout(is) => spec_inlines_runs(is@, size, bo, fb, fi, fu, true),
        Inline::Underline(is) => spec_inlines_runs(is@, size, bo, fb, fi, true, fs),
        Inline::Superscript(is) => spec_inlines_runs(is@, size, bo, fb, fi, fu, fs),
        Inline::Subscript(is) => spec_inlines_runs(is@, size, bo, fb, fi, fu, fs),
        Inline::SmallCaps(is) => spec_inlines_runs(is@, size, bo, fb, fi, fu, fs),
        Inline::Span(_, is) => spec_inlines_runs(is@, size, bo, fb, fi, fu, fs),
        Inline::Code(_, code) => seq![
            RunV {
                text: code@,
                size,
                bold: fb,
                italic: fi,
                underline: fu,
                strike: fs,
                color: None,
                font: Some(FontKind::Mono),
                brk: None,
            },
        ],
        Inline::Link(_, content, target) => seq![
            RunV {
                text: if content@.len() == 0 {
                    target.url@
                } else {
                    spec_inlines_text(content@)
                },
                size,
                bold: bo || fb,
                italic: fi,
                underline: true,
                strike: fs,
                color: Some("0000FF"@),
                font: Some(FontKind::Body),
                brk: None,
            },
        ],
        Inline::Image(_, alt, target) => seq![
            RunV {
                text: "[Image: "@ + (if alt@.len() == 0 {
                    target.url@
                } else {
                    spec_inlines_text(alt@)
                }) + "]"@,
                size,
                bold: fb,
                italic: true,
                underline: fu,
                strike: fs,
                color: None,
                font: Some(FontKind::Body),
                brk: None,
            },
        ],
        Inline::Quoted(_, is) => seq![
            RunV {
                text: "\u{201c}"@,
                size,
                bold: fb,
                italic: fi,
                underline: fu,
                strike: fs,
                color: None,
                font: Some(FontKind::Body),
                brk: None,
            },
        ] + spec_inlines_runs(is@, size, bo, fb, fi, fu, fs) + seq![
            RunV {
                text: "\u{201d}"@,
                size,
                bold: fb,
                italic: fi,
                underline: fu,
                strike: fs,
                color: None,
                font: Some(FontKind::Body),
                brk: None,
            },
        ],
        Inline::Math(_, m) => seq![
            RunV {
                text: m@,
                size,
                bold: fb,
                italic: fi,
                underline: fu,
                strike: fs,
                color: None,
                font: Some(FontKind::MathMono),
                brk: None,
            },
        ],
        Inline::Note(blocks) => seq![
            RunV {
                text: " ("@ + spec_trim(spec_block_text_join(blocks@)) + ")"@,
                size,
                bold: fb,
                italic: fi,
                underline: fu,
                strike: fs,
                color: None,
                font: Some(FontKind::Body),
                brk: None,
            },
        ],
        Inline::RawInline(_, raw) => seq![
            RunV {
                text: raw@,
                size,
                bold: fb,
                italic: fi,
                underline: fu,
                strike: fs,
                color: None,
                font: Some(FontKind::Body),
                brk: None,
            },
        ],
    }
}

/// The runs produced for a sequence of inlines.
pub open spec fn spec_inlines_runs(
    is: Seq<Inline>,
    size: Option<int>,
    bo: bool,
    fb: bool,
    fi: bool,
    fu: bool,
    fs: bool,
) -> Seq<RunV>
    decreases is,
{
    if is.len() == 0 {
        Seq::empty()
    } else {
        spec_inlines_runs(is.drop_last(), size, bo, fb, fi, fu, fs) + spec_inline_runs(
            is.last(),
            size,
            bo,
            fb,
            fi,
            fu,
            fs,
        )
    }
}

/// The runs produced for a sequence of inlines with a caller's size and
/// bold override and no forced styling.
pub open spec fn spec_build_runs(is: Seq<Inline>, size: Option<int>, bo: Option<bool>) -> Seq<
    RunV,
> {
    spec_inlines_runs(is, size, bo == Some(true), false, false, false, false)
}

/// A paragraph with the given runs and no alignment, indent or spacing.
pub open spec fn plain_para(runs: Seq<RunV>) -> ParaV {
    ParaV {
        runs,
        align_center: false,
        indent_left: None,
        spacing_before: None,
        spacing_after: None,
        spacing_line: None,
    }
}

/// Appends the runs of one inline element to `out`.
#[verifier::rlimit(100)]
fn push_inline_runs(
    out: &mut Vec<DocxRun>,
    il: &Inline,
    size: Option<usize>,
    bo: bool,
    fb: bool,
    fi: bool,
    fu: bool,
    fs: bool,
)
    ensures
        runs_view(final(out)@) == runs_view(old(out)@) + spec_inline_runs(
            *il,
            size_view(size),
            bo,
            fb,
            fi,
            fu,
            fs,
        ),
    decreases *il,
{
    let ghost base = out@;
    let ghost sv = size_view(size);
    match il {
        Inline::Str(s) => {
            let run = DocxRun {
                text: s.clone(),
                size,
                bold: bo || fb,
                italic: fi,
                underline: fu,
                strike: fs,
                color: None,
                font: Some(FontKind::Body),
                brk: None,
            };
            out.push(run);
            assert(runs_view(out@) =~= runs_view(base) + spec_inline_runs(*il, sv, bo, fb, fi, fu, fs));
        },
        Inline::Space => {
            let run = DocxRun {
                text: " ".to_owned(),
                size,
                bold: bo || fb,
                italic: fi,
                underline: fu,
                strike: fs,
                color: None,
                font: Some(FontKind::Body),
                brk: None,
            };
            out.push(run);
            assert(runs_view(out@) =~= runs_view(base) + spec_inline_runs(*il, sv, bo, fb, fi, fu, fs));
        },
        Inline::SoftBreak => {
            let run = DocxRun {
                text: " ".to_owned(),
                size,
                bold: bo || fb,
                italic: fi,
                underline: fu,
                strike: fs,
                color: None,
                font: Some(FontKind::Body),
                brk: None,
            };
            out.push(run);
            assert(runs_view(out@) =~= runs_view(base) + spec_inline_runs(*il, sv, bo, fb, fi, fu, fs));
        },
        Inline::LineBreak => {
            let run = DocxRun {
                text: String::new(),
                size,
                bold: fb,
                italic: fi,
                underline: fu,
                strike: fs,
                color: None,
                font: Some(FontKind::Body),
                brk: Some(BreakKind::TextWrapping),
            };
            out.push(run);
            assert(runs_view(out@) =~= runs_view(base) + spec_inline_runs(*il, sv, bo, fb, fi, fu, fs));
        },
        Inline::Strong(is) => {
            push_inlines_runs(out, is, size, true, true, fi, fu, fs);
        },
        Inline::Emph(is) => {
            push_inlines_runs(out, is, size, bo, fb, true, fu, fs);
        },
        Inline::Strikeout(is) => {
            push_inlines_runs(out, is, size, bo, fb, fi, fu, true);
        },
        Inline::Underline(is) => {
            push_inlines_runs(out, is, size, bo, fb, fi, true, fs);
        },
        Inline::Superscript(is) => {
            push_inlines_runs(out, is, size, bo, fb, fi, fu, fs);
        },
        Inline::Subscript(is) => {
            push_inlines_runs(out, is, size, bo, fb, fi, fu, fs);
        },
        Inline::SmallCaps(is) => {
            push_inlines_runs(out, is, size, bo, fb, fi, fu, fs);
        },
        Inline::Span(_, is) => {
            push_inlines_runs(out, is, size, bo, fb, fi, fu, fs);
        },
        Inline::Code(_, code) => {
            let run = DocxRun {
                text: code.clone(),
                size,
                bold: fb,
                italic: fi,
                underline: fu,
                strike: fs,
                color: None,
                font: Some(FontKind::Mono),
                brk: None,
            };
            out.push(run);
            assert(runs_view(out@) =~= runs_view(base) + spec_inline_runs(*il, sv, bo, fb, fi, fu, fs));
        },
        Inline::Link(_, content, target) => {
            let text = if content.len() == 0 {
                target.url.clone()
            } else {
                inline_text_content(content)
            };
            let run = DocxRun {
                text,
                size,
                bold: bo || fb,
                italic: fi,
                underline: true,
                strike: fs,
                color: Some("0000FF".to_owned()),
                font: Some(FontKind::Body),
                brk: None,
            };
            out.push(run);
            assert(runs_view(out@) =~= runs_view(base) + spec_inline_runs(*il, sv, bo, fb, fi, fu, fs));
        },
        Inline::Image(_, alt, target) => {
            let mut tc: Vec<char> = Vec::new();
            append_str(&mut tc, "[Image: ");
            if alt.len() == 0 {
                append_str(&mut tc, target.url.as_str());
            } else {
                push_inlines_text(&mut tc, alt);
            }
            append_str(&mut tc, "]");
            let run = DocxRun {
                text: string_from_chars(tc.as_slice()),
                size,
                bold: fb,
                italic: true,
                underline: fu,
                strike: fs,
                color: None,
                font: Some(FontKind::Body),
                brk: None,
            };
            out.push(run);
            assert(runs_view(out@) =~= runs_view(base) + spec_inline_runs(*il, sv, bo, fb, fi, fu, fs));
        },
        Inline::Quoted(_, is) => {
            let open_run = DocxRun {
                text: "\u{201c}".to_owned(),
                size,
                bold: fb,
                italic: fi,
                underline: fu,
                strike: fs,
                color: None,
                font: Some(FontKind::Body),
                brk: None,
            };
            let ghost openv = open_run@;
            out.push(open_run);
            assert(runs_view(out@) =~= runs_view(base).push(openv));
            let ghost mid1 = out@;
            push_inlines_runs(out, is, size, bo, fb, fi, fu, fs);
            let ghost mid2 = out@;
            let close_run = DocxRun {
                text: "\u{201d}".to_owned(),
                size,
                bold: fb,
                italic: fi,
                underline: fu,
                strike: fs,
                color: None,
                font: Some(FontKind::Body),
                brk: None,
            };
            let ghost closev = close_run@;
            out.push(close_run);
            assert(runs_view(out@) =~= runs_view(mid2).push(closev));
            assert(runs_view(out@) =~= runs_view(base) + spec_inline_runs(*il, sv, bo, fb, fi, fu, fs));
        },
        Inline::Math(_, m) => {
            let run = DocxRun {
                text: m.clone(),
                size,
                bold: fb,
                italic: fi,
                underline: fu,
                strike: fs,
                color: None,
                font: Some(FontKind::MathMono),
                brk: None,
            };
            out.push(run);
            assert(runs_view(out@) =~= runs_view(base) + spec_inline_runs(*il, sv, bo, fb, fi, fu, fs));
        },
        Inline::Note(blocks) => {
            let mut tc: Vec<char> = Vec::new();
            append_str(&mut tc, " (");
            let mut tmp: Vec<char> = Vec::new();
            push_block_text_join(&mut tmp, blocks);
            append_trimmed_of(&mut tc, tmp.as_slice());
            append_str(&mut tc, ")");
            let run = DocxRun {
                text: string_from_chars(tc.as_slice()),
                size,
                bold: fb,
                italic: fi,
                underline: fu,
                strike: fs,
                color: None,
                font: Some(FontKind::Body),
                brk: None,
            };
            out.push(run);
            assert(runs_view(out@) =~= runs_view(base) + spec_inline_runs(*il, sv, bo, fb, fi, fu, fs));
        },
        Inline::RawInline(_, raw) => {
            let run = DocxRun {
                text: raw.clone(),
                size,
                bold: fb,
                italic: fi,
                underline: fu,
                strike: fs,
                color: None,
                font: Some(FontKind::Body),
                brk: None,
            };
            out.push(run);
            assert(runs_view(out@) =~= runs_view(base) + spec_inline_runs(*il, sv, bo, fb, fi, fu, fs));
        },
    }
}

/// Appends the runs of a sequence of inlines to `out`.
fn push_inlines_runs(
    out: &mut Vec<DocxRun>,
    is: &Vec<Inline>,
    size: Option<usize>,
    bo: bool,
    fb: bool,
    fi: bool,
    fu: bool,
    fs: bool,
)
    ensures
        runs_view(final(out)@) == runs_view(old(out)@) + spec_inlines_runs(
            is@,
            size_view(size),
            bo,
            fb,
            fi,
            fu,
            fs,
        ),
    decreases *is,
{
    let ghost base = out@;
    let ghost sv = size_view(size);
    let mut i: usize = 0;
    assert(spec_inlines_runs(is@.take(0), sv, bo, fb, fi, fu, fs) =~= Seq::<RunV>::empty());
    assert(runs_view(base) + spec_inlines_runs(is@.take(0), sv, bo, fb, fi, fu, fs) =~= runs_view(
        base,
    ));
    while i < is.len()
        invariant
            i <= is@.len(),
            sv == size_view(size),
            runs_view(out@) == runs_view(base) + spec_inlines_runs(
                is@.take(i as int),
                sv,
                bo,
                fb,
                fi,
                fu,
                fs,
            ),
        decreases is@.len() - i,
    {
        push_inline_runs(out, &is[i], size, bo, fb, fi, fu, fs);
        proof {
            assert(is@.take(i + 1).drop_last() =~= is@.take(i as int));
            assert(is@.take(i + 1).last() == is@[i as int]);
            assert(runs_view(out@) =~= runs_view(base) + spec_inlines_runs(
                is@.take(i + 1),
                sv,
                bo,
                fb,
                fi,
                fu,
                fs,
            ));
        }
        i = i + 1;
    }
    assert(is@.take(is@.len() as int) =~= is@);
}

/// Converts inline elements to output runs, with an optional half-point
/// size and an optional bold override applied to the text runs.
pub fn build_runs(inlines: &Vec<Inline>, size: Option<usize>, bold_override: Option<bool>) -> (r:
    Vec<DocxRun>)
    ensures
        runs_view(r@) == spec_build_runs(inlines@, size_view(size), bold_override),
{
    let mut out: Vec<DocxRun> = Vec::new();
    let bo = match bold_override {
        Some(b) => b,
        None => false,
    };
    push_inlines_runs(&mut out, inlines, size, bo, false, false, false, false);
    assert(runs_view(Seq::<DocxRun>::empty()) =~= Seq::<RunV>::empty());
    assert(runs_view(out@) =~= spec_build_runs(inlines@, size_view(size), bold_override));
    out
}

/// Builds one paragraph from inline elements: its runs, with no alignment,
/// indent or spacing set.
pub fn build_paragraph(inlines: &Vec<Inline>, size: Option<usize>, bold_override: Option<bool>)
    -> (r: DocxParagraph)
    ensures
        r@ == plain_para(spec_build_runs(inlines@, size_view(size), bold_override)),
{
    let runs = build_runs(inlines, size, bold_override);
    DocxParagraph {
        runs,
        align_center: false,
        indent_left: None,
        spacing_before: None,
        spacing_after: None,
        spacing_line: None,
    }
}


/// A run of `n` em-dash characters.
pub open spec fn spec_dashes(n: nat) -> Seq<char> {
    Seq::new(n, |i: int| '\u{2014}')
}

/// The output elements for one block.  `quoted` marks content directly
/// inside a block quote, whose plain paragraphs are indented.
pub open spec fn spec_block_elems(b: Block, base: int, quoted: bool) -> Seq<ElemV>
    decreases b,
{
    match b {
        Block::Plain(is) => seq![spec_text_para_elem(is@, base, quoted)],
        Block::Para(is) => seq![spec_text_para_elem(is@, base, quoted)],
        Block::Heading(_, level, is) => seq![
            ElemV::Paragraph(
                ParaV {
                    runs: spec_build_runs(is@, Some(spec_heading_size(level, base)), Some(true)),
                    align_center: false,
                    indent_left: None,
                    spacing_before: Some(
                        if level <= 2 {
                            360
                        } else {
                            240
                        },
                    ),
                    spacing_after: Some(120),
                    spacing_line: None,
                },
            ),
        ],
        Block::CodeBlock(_, code) => if code@.len() == 0 {
            seq![spec_code_para(Seq::empty())]
        } else {
            spec_code_paras(spec_lines_of(code@))
        },
        Block::BlockQuote(inner) => spec_blocks_elems(inner@, base, true),
        Block::BulletList(items) => spec_bullet_elems(items@, base),
        Block::OrderedList(attrs, items) => spec_ordered_elems(items@, attrs.start as int, base),
        Block::DefinitionList(items) => spec_deflist_elems(items@, base),
        Block::Table(t) => seq![
            ElemV::Table(spec_docx_table(t, base)),
            ElemV::Paragraph(
                ParaV {
                    runs: Seq::empty(),
                    align_center: false,
                    indent_left: None,
                    spacing_before: Some(0),
                    spacing_after: Some(120),
                    spacing_line: None,
                },
            ),
        ],
        Block::HorizontalRule => seq![
            ElemV::Paragraph(
                plain_para(
                    seq![
                        RunV {
                            text: spec_dashes(40),
                            size: Some(base),
                            bold: false,
                            italic: false,
                            underline: false,
                            strike: false,
                            color: None,
                            font: Some(FontKind::Body),
                            brk: None,
                        },
                    ],
                ),
            ),
        ],
        Block::PageBreak => seq![
            ElemV::Paragraph(
                plain_para(
                    seq![
                        RunV {
                            text: Seq::empty(),
                            size: None,
                            bold: false,
                            italic: false,
                            underline: false,
                            strike: false,
                            color: None,
                            font: None,
                            brk: Some(BreakKind::Page),
                        },
                    ],
                ),
            ),
        ],
        Block::LineBlock(lines) => spec_lineblock_elems(lines@, base),
        Block::RawBlock(_, _) => Seq::empty(),
        Block::Figure(_, _, bs) => spec_blocks_elems(bs@, base, false),
        Block::Div(_, bs) => spec_blocks_elems(bs@, base, false),
    }
}

/// The paragraph element for a plain run of inlines: indented inside a
/// block quote, spaced as body text otherwise.
pub open spec fn spec_text_para_elem(is: Seq<Inline>, base: int, quoted: bool) -> ElemV {
    if quoted {
        ElemV::Paragraph(
            ParaV {
                runs: spec_build_runs(is, Some(base), None),
                align_center: false,
                indent_left: Some(720),
                spacing_before: None,
                spacing_after: Some(80),
                spacing_line: Some(276),
            },
        )
    } else {
        ElemV::Paragraph(
            ParaV {
                runs: spec_build_runs(is, Some(base), None),
                align_center: false,
                indent_left: None,
                spacing_before: None,
                spacing_after: Some(120),
                spacing_line: Some(276),
            },
        )
    }
}

/// The output elements for a sequence of blocks.
pub open spec fn spec_blocks_elems(bs: Seq<Block>, base: int, quoted: bool) -> Seq<ElemV>
    decreases bs,
{
    if bs.len() == 0 {
        Seq::empty()
    } else {
        spec_blocks_elems(bs.drop_last(), base, quoted) + spec_block_elems(bs.last(), base, quoted)
    }
}

/// One monospace paragraph for a line of code.
pub open spec fn spec_code_para(line: Seq<char>) -> ElemV {
    ElemV::Paragraph(
        plain_para(
            seq![
                RunV {
                    text: line,
                    size: None,
                    bold: false,
                    italic: false,
                    underline: false,
                    strike: false,
                    color: None,
                    font: Some(FontKind::Mono),
                    brk: None,
                },
            ],
        ),
    )
}

/// One paragraph per code line.
pub open spec fn spec_code_paras(lines: Seq<Seq<char>>) -> Seq<ElemV>
    decreases lines.len(),
{
    if lines.len() == 0 {
        Seq::empty()
    } else {
        spec_code_paras(lines.drop_last()).push(spec_code_para(lines.last()))
    }
}

/// The bullet-list paragraphs: one indented line per item, prefixed with a
/// bullet glyph.
pub open spec fn spec_bullet_elems(items: Seq<Vec<Block>>, base: int) -> Seq<ElemV>
    decreases items,
{
    if items.len() == 0 {
        Seq::empty()
    } else {
        spec_bullet_elems(items.drop_last(), base).push(
            spec_list_item_elem("\u{2022} "@ + spec_blocks_text(items.last()@), base),
        )
    }
}

/// The ordered-list paragraphs: one indented line per item, prefixed with
/// its computed ordinal and a period.
pub open spec fn spec_ordered_elems(items: Seq<Vec<Block>>, start: int, base: int) -> Seq<ElemV>
    decreases items,
{
    if items.len() == 0 {
        Seq::empty()
    } else {
        spec_ordered_elems(items.drop_last(), start, base).push(
            spec_list_item_elem(
                spec_decimal((start + items.len() - 1) as nat) + ". "@ + spec_blocks_text(
                    items.last()@,
                ),
                base,
            ),
        )
    }
}

/// One indented single-run list line.
pub open spec fn spec_list_item_elem(text: Seq<char>, base: int) -> ElemV {
    ElemV::Paragraph(
        ParaV {
            runs: seq![
                RunV {
                    text,
                    size: Some(base),
                    bold: false,
                    italic: false,
                    underline: false,
                    strike: false,
                    color: None,
                    font: Some(FontKind::Body),
                    brk: None,
                },
            ],
            align_center: false,
            indent_left: Some(720),
            spacing_before: None,
            spacing_after: Some(60),
            spacing_line: Some(276),
        },
    )
}

/// The line-block paragraphs: one plain paragraph per line.
pub open spec fn spec_lineblock_elems(lines: Seq<Vec<Inline>>, base: int) -> Seq<ElemV>
    decreases lines,
{
    if lines.len() == 0 {
        Seq::empty()
    } else {
        spec_lineblock_elems(lines.drop_last(), base).push(
            ElemV::Paragraph(plain_para(spec_build_runs(lines.last()@, Some(base), None))),
        )
    }
}

/// The definition-list elements: a bold term paragraph, then each
/// definition's blocks rendered as quoted content.
pub open spec fn spec_deflist_elems(items: Seq<(Vec<Inline>, Vec<Vec<Block>>)>, base: int) -> Seq<
    ElemV,
>
    decreases items,
{
    if items.len() == 0 {
        Seq::empty()
    } else {
        spec_deflist_elems(items.drop_last(), base) + seq![
            ElemV::Paragraph(plain_para(spec_build_runs(items.last().0@, Some(base), Some(true)))),
        ] + spec_defs_elems(items.last().1@, base)
    }
}

/// The elements of one item's definitions.
pub open spec fn spec_defs_elems(defs: Seq<Vec<Block>>, base: int) -> Seq<ElemV>
    decreases defs,
{
    if defs.len() == 0 {
        Seq::empty()
    } else {
        spec_defs_elems(defs.drop_last(), base) + spec_def_blocks_elems(defs.last(), base)
    }
}

/// The elements of one definition's block list, rendered as quoted
/// content.
pub open spec fn spec_def_blocks_elems(bs: Vec<Block>, base: int) -> Seq<ElemV>
    decreases bs,
{
    spec_blocks_elems(bs@, base, true)
}

/// One header cell: white bold text on the dark header fill.
pub open spec fn spec_header_cell(c: crate::ast::table::Cell, base: int, colw: int) -> CellV
    decreases c,
{
    CellV {
        para: Some(
            plain_para(
                seq![
                    RunV {
                        text: spec_blocks_text(c.content@),
                        size: Some(base),
                        bold: true,
                        italic: false,
                        underline: false,
                        strike: false,
                        color: Some("FFFFFF"@),
                        font: Some(FontKind::Body),
                        brk: None,
                    },
                ],
            ),
        ),
        width: Some(colw),
        fill: Some("1F4E79"@),
        borders: true,
    }
}

/// One plain cell with an optional background fill.
pub open spec fn spec_plain_cell(
    c: crate::ast::table::Cell,
    base: int,
    colw: int,
    fill: Option<Seq<char>>,
) -> CellV
    decreases c,
{
    CellV {
        para: Some(
            plain_para(
                seq![
                    RunV {
                        text: spec_blocks_text(c.content@),
                        size: Some(base),
                        bold: false,
                        italic: false,
                        underline: false,
                        strike: false,
                        color: None,
                        font: Some(FontKind::Body),
                        brk: None,
                    },
                ],
            ),
        ),
        width: Some(colw),
        fill,
        borders: true,
    }
}

/// The header cells of one row.
pub open spec fn spec_header_cells(cells: Seq<crate::ast::table::Cell>, base: int, colw: int)
    -> Seq<CellV>
    decreases cells,
{
    if cells.len() == 0 {
        Seq::empty()
    } else {
        spec_header_cells(cells.drop_last(), base, colw).push(
            spec_header_cell(cells.last(), base, colw),
        )
    }
}

/// The plain cells of one row, with an optional fill.
pub open spec fn spec_plain_cells(
    cells: Seq<crate::ast::table::Cell>,
    base: int,
    colw: int,
    fill: Option<Seq<char>>,
) -> Seq<CellV>
    decreases cells,
{
    if cells.len() == 0 {
        Seq::empty()
    } else {
        spec_plain_cells(cells.drop_last(), base, colw, fill).push(
            spec_plain_cell(cells.last(), base, colw, fill),
        )
    }
}

/// The header rows of the table.
pub open spec fn spec_header_rows(rows: Seq<Row>, base: int, colw: int) -> Seq<DocxRowV>
    decreases rows,
{
    if rows.len() == 0 {
        Seq::empty()
    } else {
        spec_header_rows(rows.drop_last(), base, colw).push(
            DocxRowV { cells: spec_header_cells(rows.last().cells@, base, colw) },
        )
    }
}

/// The zebra fill for a body row index: white for even, light for odd.
pub open spec fn spec_zebra_fill(idx: int) -> Seq<char> {
    if idx % 2 == 0 {
        "FFFFFF"@
    } else {
        "EDF2F7"@
    }
}

/// The body rows from `rows`, numbered from `idx0` for zebra striping.
pub open spec fn spec_body_rows_idx(rows: Seq<Row>, base: int, colw: int, idx0: int) -> Seq<
    DocxRowV,
>
    decreases rows.len(),
{
    if rows.len() == 0 {
        Seq::empty()
    } else {
        seq![
            DocxRowV {
                cells: spec_plain_cells(rows[0].cells@, base, colw, Some(spec_zebra_fill(idx0))),
            },
        ] + spec_body_rows_idx(rows.drop_first(), base, colw, idx0 + 1)
    }
}

/// The rows of all body sections, zebra striping restarting per section.
pub open spec fn spec_all_body_rows(bodies: Seq<TableBody>, base: int, colw: int) -> Seq<DocxRowV>
    decreases bodies,
{
    if bodies.len() == 0 {
        Seq::empty()
    } else {
        spec_all_body_rows(bodies.drop_last(), base, colw) + spec_body_rows_idx(
            bodies.last().head@,
            base,
            colw,
            0,
        ) + spec_body_rows_idx(bodies.last().body@, base, colw, bodies.last().head@.len() as int)
    }
}

/// The footer rows: bordered cells without fill.
pub open spec fn spec_foot_rows(rows: Seq<Row>, base: int, colw: int) -> Seq<DocxRowV>
    decreases rows,
{
    if rows.len() == 0 {
        Seq::empty()
    } else {
        spec_foot_rows(rows.drop_last(), base, colw).push(
            DocxRowV { cells: spec_plain_cells(rows.last().cells@, base, colw, None) },
        )
    }
}

/// The filler row of an otherwise empty table.
pub open spec fn spec_filler_row() -> DocxRowV {
    DocxRowV {
        cells: seq![CellV { para: None, width: None, fill: None, borders: false }],
    }
}

/// The output table for a document table: equal column widths out of a
/// fixed total, a shaded bold header, zebra-striped bodies, and a plain
/// bordered footer.
pub open spec fn spec_docx_table(t: Table, base: int) -> DocxTableV
    decreases t,
{
    let ncols = if t.col_specs@.len() >= 1 {
        t.col_specs@.len() as int
    } else {
        1
    };
    let colw = (9000 as int) / ncols;
    let rows0 = spec_header_rows(t.head.rows@, base, colw) + spec_all_body_rows(
        t.bodies@,
        base,
        colw,
    ) + spec_foot_rows(t.foot.rows@, base, colw);
    DocxTableV {
        rows: if rows0.len() == 0 {
            seq![spec_filler_row()]
        } else {
            rows0
        },
        width: 9000,
        grid: Seq::new(ncols as nat, |i: int| colw),
    }
}


/// The leading metadata paragraphs: centered title, subtitle, author line
/// and date line, each present only when its key is bound to a string.
pub open spec fn spec_meta_elems(m: Meta, base: int) -> Seq<ElemV> {
    (match spec_meta_get_str(m.entries@, "title"@) {
        Some(t) => seq![spec_meta_para(t, Some(48), true, Some(60))],
        None => Seq::<ElemV>::empty(),
    }) + (match spec_meta_get_str(m.entries@, "subtitle"@) {
        Some(t) => seq![spec_meta_para(t, Some(32), false, Some(60))],
        None => Seq::<ElemV>::empty(),
    }) + (match spec_meta_get_str(m.entries@, "author"@) {
        Some(t) => seq![spec_meta_para("Author: "@ + t, Some(base), false, Some(40))],
        None => Seq::<ElemV>::empty(),
    }) + (match spec_meta_get_str(m.entries@, "date"@) {
        Some(t) => seq![spec_meta_para(t, Some(base), false, Some(200))],
        None => Seq::<ElemV>::empty(),
    })
}

/// One centered metadata paragraph.
pub open spec fn spec_meta_para(text: Seq<char>, size: Option<int>, bold: bool, after: Option<int>)
    -> ElemV {
    ElemV::Paragraph(
        ParaV {
            runs: seq![
                RunV {
                    text,
                    size,
                    bold,
                    italic: false,
                    underline: false,
                    strike: false,
                    color: None,
                    font: Some(FontKind::Body),
                    brk: None,
                },
            ],
            align_center: true,
            indent_left: None,
            spacing_before: None,
            spacing_after: after,
            spacing_line: None,
        },
    )
}

/// The full element sequence of the output document: the metadata block,
/// then the body blocks, with the base size resolved from metadata.
pub open spec fn spec_docx_elements(doc: Document) -> Seq<ElemV> {
    let base = spec_parse_fontsize(spec_meta_get_str(doc.meta.entries@, "fontsize"@));
    spec_meta_elems(doc.meta, base) + spec_blocks_elems(doc.blocks@, base, false)
}

/// When a reserved metadata key is absent, no corresponding paragraph is
/// emitted: the metadata block holds exactly one paragraph per present
/// key.
pub proof fn lemma_docx_meta_optional(m: Meta, base: int)
    ensures
        spec_meta_elems(m, base).len() == (if spec_meta_get_str(m.entries@, "title"@) is Some {
            1int
        } else {
            0int
        }) + (if spec_meta_get_str(m.entries@, "subtitle"@) is Some {
            1int
        } else {
            0int
        }) + (if spec_meta_get_str(m.entries@, "author"@) is Some {
            1int
        } else {
            0int
        }) + (if spec_meta_get_str(m.entries@, "date"@) is Some {
            1int
        } else {
            0int
        }),
{
}

/// Appends one single-run metadata paragraph to `out`.
fn push_meta_para(
    out: &mut Vec<DocxElement>,
    text: String,
    size: Option<usize>,
    bold: bool,
    after: Option<u32>,
)
    ensures
        elems_view(final(out)@) == elems_view(old(out)@).push(
            spec_meta_para(
                text@,
                size_view(size),
                bold,
                match after {
                    Some(a) => Some(a as int),
                    None => None,
                },
            ),
        ),
{
    let ghost base = out@;
    let run = DocxRun {
        text,
        size,
        bold,
        italic: false,
        underline: false,
        strike: false,
        color: None,
        font: Some(FontKind::Body),
        brk: None,
    };
    let ghost rv = run@;
    let mut runs: Vec<DocxRun> = Vec::new();
    runs.push(run);
    let p = DocxParagraph {
        runs,
        align_center: true,
        indent_left: None,
        spacing_before: None,
        spacing_after: after,
        spacing_line: None,
    };
    let ghost pv = p@;
    assert(pv.runs =~= seq![rv]);
    out.push(DocxElement::Paragraph(p));
    assert(elems_view(out@) =~= elems_view(base).push(ElemV::Paragraph(pv)));
}

/// Appends the metadata paragraphs of `meta` to `out`.
#[verifier::rlimit(100)]
fn push_meta_elems(out: &mut Vec<DocxElement>, meta: &Meta, base_size: usize)
    ensures
        elems_view(final(out)@) == elems_view(old(out)@) + spec_meta_elems(
            *meta,
            base_size as int,
        ),
{
    let ghost base = out@;
    let ghost m = *meta;
    if let Some(t) = meta.title() {
        push_meta_para(out, t.to_owned(), Some(48), true, Some(60));
    }
    let ghost p1 = out@;
    assert(elems_view(p1) =~= elems_view(base) + (match spec_meta_get_str(m.entries@, "title"@) {
        Some(tt) => seq![spec_meta_para(tt, Some(48), true, Some(60))],
        None => Seq::<ElemV>::empty(),
    }));
    if let Some(t) = meta.subtitle() {
        push_meta_para(out, t.to_owned(), Some(32), false, Some(60));
    }
    let ghost p2 = out@;
    assert(elems_view(p2) =~= elems_view(p1) + (match spec_meta_get_str(
        m.entries@,
        "subtitle"@,
    ) {
        Some(tt) => seq![spec_meta_para(tt, Some(32), false, Some(60))],
        None => Seq::<ElemV>::empty(),
    }));
    if let Some(t) = meta.author() {
        let mut tc: Vec<char> = Vec::new();
        append_str(&mut tc, "Author: ");
        append_str(&mut tc, t);
        push_meta_para(out, string_from_chars(tc.as_slice()), Some(base_size), false, Some(40));
    }
    let ghost p3 = out@;
    assert(elems_view(p3) =~= elems_view(p2) + (match spec_meta_get_str(m.entries@, "author"@) {
        Some(tt) => seq![spec_meta_para("Author: "@ + tt, Some(base_size as int), false, Some(40))],
        None => Seq::<ElemV>::empty(),
    }));
    if let Some(t) = meta.date() {
        push_meta_para(out, t.to_owned(), Some(base_size), false, Some(200));
    }
    let ghost p4 = out@;
    assert(elems_view(p4) =~= elems_view(p3) + (match spec_meta_get_str(m.entries@, "date"@) {
        Some(tt) => seq![spec_meta_para(tt, Some(base_size as int), false, Some(200))],
        None => Seq::<ElemV>::empty(),
    }));
    assert(elems_view(out@) =~= elems_view(base) + spec_meta_elems(m, base_size as int));
}

/// Appends one paragraph element to `out`.
fn push_para_elem(out: &mut Vec<DocxElement>, p: DocxParagraph)
    ensures
        elems_view(final(out)@) == elems_view(old(out)@).push(ElemV::Paragraph(p@)),
{
    let ghost base = out@;
    let ghost pv = p@;
    out.push(DocxElement::Paragraph(p));
    assert(elems_view(out@) =~= elems_view(base).push(ElemV::Paragraph(pv)));
}

/// Appends the code-block paragraphs for the code lines to `out`.
fn push_code_paras(out: &mut Vec<DocxElement>, code: &str)
    ensures
        elems_view(final(out)@) == elems_view(old(out)@) + (if code@.len() == 0 {
            seq![spec_code_para(Seq::<char>::empty())]
        } else {
            spec_code_paras(spec_lines_of(code@))
        }),
{
    let ghost base = out@;
    let cs = chars_of(code);
    let lines = split_lines(cs.as_slice());
    let ghost lv = views_of(lines@);
    if cs.len() == 0 {
        let run = DocxRun {
            text: String::new(),
            size: None,
            bold: false,
            italic: false,
            underline: false,
            strike: false,
            color: None,
            font: Some(FontKind::Mono),
            brk: None,
        };
        let ghost rv = run@;
        let mut runs: Vec<DocxRun> = Vec::new();
        runs.push(run);
        let p = DocxParagraph {
            runs,
            align_center: false,
            indent_left: None,
            spacing_before: None,
            spacing_after: None,
            spacing_line: None,
        };
        let ghost pv = p@;
        assert(pv.runs =~= seq![rv]);
        out.push(DocxElement::Paragraph(p));
        assert(elems_view(out@) =~= elems_view(base).push(ElemV::Paragraph(pv)));
        assert(elems_view(out@) =~= elems_view(base) + seq![spec_code_para(Seq::<char>::empty())]);
        return ;
    }
    let mut i: usize = 0;
    assert(spec_code_paras(lv.take(0)) =~= Seq::<ElemV>::empty());
    while i < lines.len()
        invariant
            i <= lines@.len(),
            lv == views_of(lines@),
            elems_view(out@) == elems_view(base) + spec_code_paras(lv.take(i as int)),
        decreases lines@.len() - i,
    {
        let run = DocxRun {
            text: string_from_chars(lines[i].as_slice()),
            size: None,
            bold: false,
            italic: false,
            underline: false,
            strike: false,
            color: None,
            font: Some(FontKind::Mono),
            brk: None,
        };
        let ghost rv = run@;
        let mut runs: Vec<DocxRun> = Vec::new();
        runs.push(run);
        let p = DocxParagraph {
            runs,
            align_center: false,
            indent_left: None,
            spacing_before: None,
            spacing_after: None,
            spacing_line: None,
        };
        let ghost pv = p@;
        assert(pv.runs =~= seq![rv]);
        out.push(DocxElement::Paragraph(p));
        proof {
            assert(elems_view(out@) =~= (elems_view(base) + spec_code_paras(
                lv.take(i as int),
            )).push(ElemV::Paragraph(pv)));
            assert(ElemV::Paragraph(pv) == spec_code_para(lv[i as int]));
            assert(lv.take(i + 1).drop_last() =~= lv.take(i as int));
            assert(lv.take(i + 1).last() == lv[i as int]);
            assert(elems_view(out@) =~= elems_view(base) + spec_code_paras(lv.take(i + 1)));
        }
        i = i + 1;
    }
    assert(lv.take(lines@.len() as int) =~= lv);
}

/// Appends the bullet-list paragraphs to `out`.
fn push_bullet_elems(out: &mut Vec<DocxElement>, items: &Vec<Vec<Block>>, base_size: usize)
    ensures
        elems_view(final(out)@) == elems_view(old(out)@) + spec_bullet_elems(
            items@,
            base_size as int,
        ),
{
    let ghost base = out@;
    let mut i: usize = 0;
    assert(spec_bullet_elems(items@.take(0), base_size as int) =~= Seq::<ElemV>::empty());
    while i < items.len()
        invariant
            i <= items@.len(),
            elems_view(out@) == elems_view(base) + spec_bullet_elems(
                items@.take(i as int),
                base_size as int,
            ),
        decreases items@.len() - i,
    {
        let mut tc: Vec<char> = Vec::new();
        append_str(&mut tc, "\u{2022} ");
        let mut tmp: Vec<char> = Vec::new();
        push_block_text_join(&mut tmp, &items[i]);
        append_trimmed_of(&mut tc, tmp.as_slice());
        push_list_item_elem(out, string_from_chars(tc.as_slice()), base_size);
        proof {
            assert(items@.take(i + 1).drop_last() =~= items@.take(i as int));
            assert(items@.take(i + 1).last() == items@[i as int]);
            assert(elems_view(out@) =~= elems_view(base) + spec_bullet_elems(
                items@.take(i + 1),
                base_size as int,
            ));
        }
        i = i + 1;
    }
    assert(items@.take(items@.len() as int) =~= items@);
}

/// Appends the ordered-list paragraphs to `out`.
fn push_ordered_elems(
    out: &mut Vec<DocxElement>,
    items: &Vec<Vec<Block>>,
    start: u32,
    base_size: usize,
)
    ensures
        elems_view(final(out)@) == elems_view(old(out)@) + spec_ordered_elems(
            items@,
            start as int,
            base_size as int,
        ),
{
    let ghost base = out@;
    let mut i: usize = 0;
    assert(spec_ordered_elems(items@.take(0), start as int, base_size as int) =~= Seq::<
        ElemV,
    >::empty());
    while i < items.len()
        invariant
            i <= items@.len(),
            elems_view(out@) == elems_view(base) + spec_ordered_elems(
                items@.take(i as int),
                start as int,
                base_size as int,
            ),
        decreases items@.len() - i,
    {
        let mut tc: Vec<char> = Vec::new();
        append_decimal(&mut tc, (start as u128) + (i as u128));
        append_str(&mut tc, ". ");
        let mut tmp: Vec<char> = Vec::new();
        push_block_text_join(&mut tmp, &items[i]);
        append_trimmed_of(&mut tc, tmp.as_slice());
        push_list_item_elem(out, string_from_chars(tc.as_slice()), base_size);
        proof {
            assert(items@.take(i + 1).drop_last() =~= items@.take(i as int));
            assert(items@.take(i + 1).last() == items@[i as int]);
            assert(items@.take(i + 1).len() == i + 1);
            assert((start as u64) + (i as u64) == start + (items@.take(i + 1).len() - 1));
            assert(elems_view(out@) =~= elems_view(base) + spec_ordered_elems(
                items@.take(i + 1),
                start as int,
                base_size as int,
            ));
        }
        i = i + 1;
    }
    assert(items@.take(items@.len() as int) =~= items@);
}

/// Appends one indented single-run list paragraph to `out`.
fn push_list_item_elem(out: &mut Vec<DocxElement>, text: String, base_size: usize)
    ensures
        elems_view(final(out)@) == elems_view(old(out)@).push(
            spec_list_item_elem(text@, base_size as int),
        ),
{
    let ghost base = out@;
    let run = DocxRun {
        text,
        size: Some(base_size),
        bold: false,
        italic: false,
        underline: false,
        strike: false,
        color: None,
        font: Some(FontKind::Body),
        brk: None,
    };
    let ghost rv = run@;
    let mut runs: Vec<DocxRun> = Vec::new();
    runs.push(run);
    let p = DocxParagraph {
        runs,
        align_center: false,
        indent_left: Some(720),
        spacing_before: None,
        spacing_after: Some(60),
        spacing_line: Some(276),
    };
    let ghost pv = p@;
    assert(pv.runs =~= seq![rv]);
    out.push(DocxElement::Paragraph(p));
    assert(elems_view(out@) =~= elems_view(base).push(ElemV::Paragraph(pv)));
}


/// Builds one bordered cell with the given fill and a single-run
/// paragraph, bold white text for the header style.
fn build_table_cell(
    cell: &crate::ast::table::Cell,
    base_size: usize,
    colw: usize,
    fill: Option<String>,
    header: bool,
) -> (r: DocxCell)
    requires
        header ==> (fill matches Some(f) && f@ == "1F4E79"@),
    ensures
        r@ == (if header {
            spec_header_cell(*cell, base_size as int, colw as int)
        } else {
            spec_plain_cell(
                *cell,
                base_size as int,
                colw as int,
                match fill {
                    Some(f) => Some(f@),
                    None => None,
                },
            )
        }),
{
    let text = extract_inline_text_from_blocks(&cell.content);
    let run = if header {
        DocxRun {
            text,
            size: Some(base_size),
            bold: true,
            italic: false,
            underline: false,
            strike: false,
            color: Some("FFFFFF".to_owned()),
            font: Some(FontKind::Body),
            brk: None,
        }
    } else {
        DocxRun {
            text,
            size: Some(base_size),
            bold: false,
            italic: false,
            underline: false,
            strike: false,
            color: None,
            font: Some(FontKind::Body),
            brk: None,
        }
    };
    let ghost rv = run@;
    let mut runs: Vec<DocxRun> = Vec::new();
    runs.push(run);
    let p = DocxParagraph {
        runs,
        align_center: false,
        indent_left: None,
        spacing_before: None,
        spacing_after: None,
        spacing_line: None,
    };
    assert(p@.runs =~= seq![rv]);
    DocxCell { para: Some(p), width: Some(colw), fill, borders: true }
}

/// Builds the output table for a document table.
#[verifier::rlimit(100)]
fn build_docx_table(t: &Table, base_size: usize) -> (r: DocxTable)
    ensures
        r@ == spec_docx_table(*t, base_size as int),
{
    let num_cols: usize = if t.col_specs.len() >= 1 {
        t.col_specs.len()
    } else {
        1
    };
    let col_width: usize = 9000 / num_cols;
    let mut grid: Vec<usize> = Vec::new();
    let mut g: usize = 0;
    while g < num_cols
        invariant
            g <= num_cols,
            grid@.len() == g,
            forall|k: int| 0 <= k < g ==> grid@[k] == col_width,
        decreases num_cols - g,
    {
        grid.push(col_width);
        g = g + 1;
    }
    assert(grid@.map_values(|u: usize| u as int) =~= Seq::new(
        num_cols as nat,
        |i: int| col_width as int,
    ));

    let mut rows: Vec<DocxRow> = Vec::new();
    let ghost hv = spec_header_rows(t.head.rows@, base_size as int, col_width as int);
    // Header rows.
    let mut i: usize = 0;
    assert(spec_header_rows(t.head.rows@.take(0), base_size as int, col_width as int) =~= Seq::<
        DocxRowV,
    >::empty());
    assert(docx_rows_view(rows@) =~= Seq::<DocxRowV>::empty());
    while i < t.head.rows.len()
        invariant
            i <= t.head.rows@.len(),
            docx_rows_view(rows@) == spec_header_rows(
                t.head.rows@.take(i as int),
                base_size as int,
                col_width as int,
            ),
        decreases t.head.rows@.len() - i,
    {
        let row = &t.head.rows[i];
        let mut cells: Vec<DocxCell> = Vec::new();
        let mut c: usize = 0;
        assert(spec_header_cells(row.cells@.take(0), base_size as int, col_width as int) =~= Seq::<
            CellV,
        >::empty());
        assert(docx_cells_view(cells@) =~= Seq::<CellV>::empty());
        while c < row.cells.len()
            invariant
                c <= row.cells@.len(),
                docx_cells_view(cells@) == spec_header_cells(
                    row.cells@.take(c as int),
                    base_size as int,
                    col_width as int,
                ),
            decreases row.cells@.len() - c,
        {
            let dc = build_table_cell(
                &row.cells[c],
                base_size,
                col_width,
                Some("1F4E79".to_owned()),
                true,
            );
            let ghost dcv = dc@;
            cells.push(dc);
            proof {
                assert(docx_cells_view(cells@) =~= docx_cells_view(cells@.drop_last()).push(dcv));
                assert(row.cells@.take(c + 1).drop_last() =~= row.cells@.take(c as int));
                assert(row.cells@.take(c + 1).last() == row.cells@[c as int]);
            }
            c = c + 1;
        }
        assert(row.cells@.take(row.cells@.len() as int) =~= row.cells@);
        let dr = DocxRow { cells };
        let ghost drv = dr@;
        rows.push(dr);
        proof {
            assert(docx_rows_view(rows@) =~= docx_rows_view(rows@.drop_last()).push(drv));
            assert(t.head.rows@.take(i + 1).drop_last() =~= t.head.rows@.take(i as int));
            assert(t.head.rows@.take(i + 1).last() == t.head.rows@[i as int]);
        }
        i = i + 1;
    }
    assert(t.head.rows@.take(t.head.rows@.len() as int) =~= t.head.rows@);

    // Body rows, zebra striping restarting in each section.
    let ghost hdone = docx_rows_view(rows@);
    let mut b: usize = 0;
    assert(spec_all_body_rows(t.bodies@.take(0), base_size as int, col_width as int) =~= Seq::<
        DocxRowV,
    >::empty());
    assert(hdone + spec_all_body_rows(t.bodies@.take(0), base_size as int, col_width as int)
        =~= hdone);
    while b < t.bodies.len()
        invariant
            b <= t.bodies@.len(),
            docx_rows_view(rows@) == hdone + spec_all_body_rows(
                t.bodies@.take(b as int),
                base_size as int,
                col_width as int,
            ),
        decreases t.bodies@.len() - b,
    {
        let body = &t.bodies[b];
        let ghost before_body = docx_rows_view(rows@);
        push_zebra_rows(&mut rows, &body.head, base_size, col_width, 0);
        push_zebra_rows(&mut rows, &body.body, base_size, col_width, body.head.len());
        proof {
            assert(t.bodies@.take(b + 1).drop_last() =~= t.bodies@.take(b as int));
            assert(t.bodies@.take(b + 1).last() == t.bodies@[b as int]);
            assert(docx_rows_view(rows@) =~= hdone + spec_all_body_rows(
                t.bodies@.take(b + 1),
                base_size as int,
                col_width as int,
            ));
        }
        b = b + 1;
    }
    assert(t.bodies@.take(t.bodies@.len() as int) =~= t.bodies@);

    // Footer rows.
    let ghost bdone = docx_rows_view(rows@);
    let mut f: usize = 0;
    assert(spec_foot_rows(t.foot.rows@.take(0), base_size as int, col_width as int) =~= Seq::<
        DocxRowV,
    >::empty());
    assert(bdone + spec_foot_rows(t.foot.rows@.take(0), base_size as int, col_width as int)
        =~= bdone);
    while f < t.foot.rows.len()
        invariant
            f <= t.foot.rows@.len(),
            docx_rows_view(rows@) == bdone + spec_foot_rows(
                t.foot.rows@.take(f as int),
                base_size as int,
                col_width as int,
            ),
        decreases t.foot.rows@.len() - f,
    {
        let row = &t.foot.rows[f];
        let mut cells: Vec<DocxCell> = Vec::new();
        let mut c: usize = 0;
        assert(spec_plain_cells(row.cells@.take(0), base_size as int, col_width as int, None)
            =~= Seq::<CellV>::empty());
        assert(docx_cells_view(cells@) =~= Seq::<CellV>::empty());
        while c < row.cells.len()
            invariant
                c <= row.cells@.len(),
                docx_cells_view(cells@) == spec_plain_cells(
                    row.cells@.take(c as int),
                    base_size as int,
                    col_width as int,
                    None,
                ),
            decreases row.cells@.len() - c,
        {
            let dc = build_table_cell(&row.cells[c], base_size, col_width, None, false);
            let ghost dcv = dc@;
            cells.push(dc);
            proof {
                assert(docx_cells_view(cells@) =~= docx_cells_view(cells@.drop_last()).push(dcv));
                assert(row.cells@.take(c + 1).drop_last() =~= row.cells@.take(c as int));
                assert(row.cells@.take(c + 1).last() == row.cells@[c as int]);
            }
            c = c + 1;
        }
        assert(row.cells@.take(row.cells@.len() as int) =~= row.cells@);
        let dr = DocxRow { cells };
        let ghost drv = dr@;
        let ghost prevv = docx_rows_view(rows@);
        rows.push(dr);
        proof {
            assert(docx_rows_view(rows@) =~= prevv.push(drv));
            assert(t.foot.rows@.take(f + 1).drop_last() =~= t.foot.rows@.take(f as int));
            assert(t.foot.rows@.take(f + 1).last() == t.foot.rows@[f as int]);
            assert(drv == DocxRowV {
                cells: spec_plain_cells(
                    t.foot.rows@[f as int].cells@,
                    base_size as int,
                    col_width as int,
                    None,
                ),
            });
            assert(docx_rows_view(rows@) =~= bdone + spec_foot_rows(
                t.foot.rows@.take(f + 1),
                base_size as int,
                col_width as int,
            ));
        }
        f = f + 1;
    }
    assert(t.foot.rows@.take(t.foot.rows@.len() as int) =~= t.foot.rows@);

    if rows.len() == 0 {
        let filler = DocxCell { para: None, width: None, fill: None, borders: false };
        let ghost fv = filler@;
        let mut cells: Vec<DocxCell> = Vec::new();
        cells.push(filler);
        let dr = DocxRow { cells };
        let ghost drv = dr@;
        assert(drv.cells =~= seq![fv]);
        rows.push(dr);
        assert(docx_rows_view(rows@) =~= seq![spec_filler_row()]);
    }
    let r = DocxTable { rows, width: 9000, grid };
    assert(r@.rows =~= spec_docx_table(*t, base_size as int).rows);
    assert(r@.grid =~= spec_docx_table(*t, base_size as int).grid);
    r
}

/// Appends the zebra-striped body rows of one section to `rows`, numbering
/// them from `idx0`.
fn push_zebra_rows(
    rows: &mut Vec<DocxRow>,
    src: &Vec<Row>,
    base_size: usize,
    colw: usize,
    idx0: usize,
)
    ensures
        docx_rows_view(final(rows)@) == docx_rows_view(old(rows)@) + spec_body_rows_idx(
            src@,
            base_size as int,
            colw as int,
            idx0 as int,
        ),
{
    let ghost base = docx_rows_view(old(rows)@);
    let mut i: usize = 0;
    assert(src@.skip(0) =~= src@);
    while i < src.len()
        invariant
            i <= src@.len(),
            base == docx_rows_view(old(rows)@),
            base + spec_body_rows_idx(src@, base_size as int, colw as int, idx0 as int)
                == docx_rows_view(rows@) + spec_body_rows_idx(
                src@.skip(i as int),
                base_size as int,
                colw as int,
                idx0 + i,
            ),
        decreases src@.len() - i,
    {
        let row = &src[i];
        let p1: usize = idx0 % 2;
        let p2: usize = i % 2;
        let parity: usize = (p1 + p2) % 2;
        proof {
            assert(parity as int == ((idx0 as int) + (i as int)) % 2) by (nonlinear_arith)
                requires
                    p1 == idx0 % 2,
                    p2 == i % 2,
                    parity == (p1 + p2) % 2,
            ;
        }
        let fill: String = if parity == 0 {
            "FFFFFF".to_owned()
        } else {
            "EDF2F7".to_owned()
        };
        let ghost fillv = fill@;
        assert(fillv == spec_zebra_fill(idx0 + i));
        let mut cells: Vec<DocxCell> = Vec::new();
        let mut c: usize = 0;
        assert(spec_plain_cells(
            row.cells@.take(0),
            base_size as int,
            colw as int,
            Some(fillv),
        ) =~= Seq::<CellV>::empty());
        assert(docx_cells_view(cells@) =~= Seq::<CellV>::empty());
        while c < row.cells.len()
            invariant
                c <= row.cells@.len(),
                fillv == fill@,
                docx_cells_view(cells@) == spec_plain_cells(
                    row.cells@.take(c as int),
                    base_size as int,
                    colw as int,
                    Some(fillv),
                ),
            decreases row.cells@.len() - c,
        {
            let dc = build_table_cell(&row.cells[c], base_size, colw, Some(fill.clone()), false);
            let ghost dcv = dc@;
            cells.push(dc);
            proof {
                assert(docx_cells_view(cells@) =~= docx_cells_view(cells@.drop_last()).push(dcv));
                assert(row.cells@.take(c + 1).drop_last() =~= row.cells@.take(c as int));
                assert(row.cells@.take(c + 1).last() == row.cells@[c as int]);
            }
            c = c + 1;
        }
        assert(row.cells@.take(row.cells@.len() as int) =~= row.cells@);
        let dr = DocxRow { cells };
        let ghost drv = dr@;
        rows.push(dr);
        proof {
            let ghost s = src@.skip(i as int);
            assert(s[0] == src@[i as int]);
            assert(s.drop_first() =~= src@.skip(i + 1));
            assert(spec_body_rows_idx(s, base_size as int, colw as int, idx0 + i) == seq![
                DocxRowV {
                    cells: spec_plain_cells(
                        s[0].cells@,
                        base_size as int,
                        colw as int,
                        Some(spec_zebra_fill(idx0 + i)),
                    ),
                },
            ] + spec_body_rows_idx(s.drop_first(), base_size as int, colw as int, idx0 + i + 1));
            assert(docx_rows_view(rows@) =~= docx_rows_view(rows@.drop_last()).push(drv));
            assert(docx_rows_view(rows@) + spec_body_rows_idx(
                src@.skip(i + 1),
                base_size as int,
                colw as int,
                idx0 + i + 1,
            ) =~= docx_rows_view(rows@.drop_last()) + spec_body_rows_idx(
                s,
                base_size as int,
                colw as int,
                idx0 + i,
            ));
        }
        i = i + 1;
    }
    assert(spec_body_rows_idx(
        src@.skip(src@.len() as int),
        base_size as int,
        colw as int,
        idx0 + src@.len(),
    ) =~= Seq::<DocxRowV>::empty());
    assert(docx_rows_view(rows@) + Seq::<DocxRowV>::empty() =~= docx_rows_view(rows@));
}


/// Appends the elements of a sequence of blocks to `out`.
fn push_blocks_elems(out: &mut Vec<DocxElement>, bs: &Vec<Block>, base_size: usize, quoted: bool)
    ensures
        elems_view(final(out)@) == elems_view(old(out)@) + spec_blocks_elems(
            bs@,
            base_size as int,
            quoted,
        ),
    decreases *bs,
{
    let ghost base = out@;
    let mut i: usize = 0;
    assert(spec_blocks_elems(bs@.take(0), base_size as int, quoted) =~= Seq::<ElemV>::empty());
    assert(elems_view(base) + spec_blocks_elems(bs@.take(0), base_size as int, quoted)
        =~= elems_view(base));
    while i < bs.len()
        invariant
            i <= bs@.len(),
            elems_view(out@) == elems_view(base) + spec_blocks_elems(
                bs@.take(i as int),
                base_size as int,
                quoted,
            ),
        decreases bs@.len() - i,
    {
        push_block_elems(out, &bs[i], base_size, quoted);
        proof {
            assert(bs@.take(i + 1).drop_last() =~= bs@.take(i as int));
            assert(bs@.take(i + 1).last() == bs@[i as int]);
            assert(elems_view(out@) =~= elems_view(base) + spec_blocks_elems(
                bs@.take(i + 1),
                base_size as int,
                quoted,
            ));
        }
        i = i + 1;
    }
    assert(bs@.take(bs@.len() as int) =~= bs@);
}

/// Appends the elements of the definitions of one definition-list item.
fn push_defs_elems(out: &mut Vec<DocxElement>, defs: &Vec<Vec<Block>>, base_size: usize)
    ensures
        elems_view(final(out)@) == elems_view(old(out)@) + spec_defs_elems(
            defs@,
            base_size as int,
        ),
    decreases *defs,
{
    let ghost base = out@;
    let mut d: usize = 0;
    assert(spec_defs_elems(defs@.take(0), base_size as int) =~= Seq::<ElemV>::empty());
    assert(elems_view(base) + spec_defs_elems(defs@.take(0), base_size as int) =~= elems_view(
        base,
    ));
    while d < defs.len()
        invariant
            d <= defs@.len(),
            elems_view(out@) == elems_view(base) + spec_defs_elems(
                defs@.take(d as int),
                base_size as int,
            ),
        decreases defs@.len() - d,
    {
        push_blocks_elems(out, &defs[d], base_size, true);
        proof {
            assert(defs@.take(d + 1).drop_last() =~= defs@.take(d as int));
            assert(defs@.take(d + 1).last() == defs@[d as int]);
            assert(spec_def_blocks_elems(defs@[d as int], base_size as int)
                == spec_blocks_elems(defs@[d as int]@, base_size as int, true));
            assert(elems_view(out@) =~= elems_view(base) + spec_defs_elems(
                defs@.take(d + 1),
                base_size as int,
            ));
        }
        d = d + 1;
    }
    assert(defs@.take(defs@.len() as int) =~= defs@);
}

/// Appends the elements of a definition list to `out`.
fn push_deflist_elems(
    out: &mut Vec<DocxElement>,
    items: &Vec<(Vec<Inline>, Vec<Vec<Block>>)>,
    base_size: usize,
)
    ensures
        elems_view(final(out)@) == elems_view(old(out)@) + spec_deflist_elems(
            items@,
            base_size as int,
        ),
    decreases *items,
{
    let ghost base = out@;
    let mut i: usize = 0;
    assert(spec_deflist_elems(items@.take(0), base_size as int) =~= Seq::<ElemV>::empty());
    assert(elems_view(base) + spec_deflist_elems(items@.take(0), base_size as int) =~= elems_view(
        base,
    ));
    while i < items.len()
        invariant
            i <= items@.len(),
            elems_view(out@) == elems_view(base) + spec_deflist_elems(
                items@.take(i as int),
                base_size as int,
            ),
        decreases items@.len() - i,
    {
        let term = build_paragraph(&items[i].0, Some(base_size), Some(true));
        push_para_elem(out, term);
        proof {
            assert(decreases_to!(*items => items@));
            assert(decreases_to!(items@ => items@[i as int]));
            assert(decreases_to!(items@[i as int] => items@[i as int].1));
        }
        push_defs_elems(out, &items[i].1, base_size);
        proof {
            assert(items@.take(i + 1).drop_last() =~= items@.take(i as int));
            assert(items@.take(i + 1).last() == items@[i as int]);
            assert(elems_view(out@) =~= elems_view(base) + spec_deflist_elems(
                items@.take(i + 1),
                base_size as int,
            ));
        }
        i = i + 1;
    }
    assert(items@.take(items@.len() as int) =~= items@);
}

/// Appends the line-block paragraphs to `out`.
fn push_lineblock_elems(out: &mut Vec<DocxElement>, lines: &Vec<Vec<Inline>>, base_size: usize)
    ensures
        elems_view(final(out)@) == elems_view(old(out)@) + spec_lineblock_elems(
            lines@,
            base_size as int,
        ),
    decreases *lines,
{
    let ghost base = out@;
    let mut i: usize = 0;
    assert(spec_lineblock_elems(lines@.take(0), base_size as int) =~= Seq::<ElemV>::empty());
    assert(elems_view(base) + spec_lineblock_elems(lines@.take(0), base_size as int)
        =~= elems_view(base));
    while i < lines.len()
        invariant
            i <= lines@.len(),
            elems_view(out@) == elems_view(base) + spec_lineblock_elems(
                lines@.take(i as int),
                base_size as int,
            ),
        decreases lines@.len() - i,
    {
        let p = build_paragraph(&lines[i], Some(base_size), None);
        push_para_elem(out, p);
        proof {
            assert(lines@.take(i + 1).drop_last() =~= lines@.take(i as int));
            assert(lines@.take(i + 1).last() == lines@[i as int]);
            assert(elems_view(out@) =~= elems_view(base) + spec_lineblock_elems(
                lines@.take(i + 1),
                base_size as int,
            ));
        }
        i = i + 1;
    }
    assert(lines@.take(lines@.len() as int) =~= lines@);
}

/// Appends the output elements of one block to `out`.
#[verifier::rlimit(100)]
#[verifier::spinoff_prover]
fn push_block_elems(out: &mut Vec<DocxElement>, block: &Block, base_size: usize, quoted: bool)
    ensures
        elems_view(final(out)@) == elems_view(old(out)@) + spec_block_elems(
            *block,
            base_size as int,
            quoted,
        ),
    decreases *block,
{
    let ghost base = out@;
    let ghost bi = base_size as int;
    match block {
        Block::Plain(is) => {
            let mut p = build_paragraph(is, Some(base_size), None);
            if quoted {
                p.indent_left = Some(720);
                p.spacing_after = Some(80);
                p.spacing_line = Some(276);
            } else {
                p.spacing_after = Some(120);
                p.spacing_line = Some(276);
            }
            push_para_elem(out, p);
            assert(elems_view(out@) =~= elems_view(base) + spec_block_elems(*block, bi, quoted));
        },
        Block::Para(is) => {
            let mut p = build_paragraph(is, Some(base_size), None);
            if quoted {
                p.indent_left = Some(720);
                p.spacing_after = Some(80);
                p.spacing_line = Some(276);
            } else {
                p.spacing_after = Some(120);
                p.spacing_line = Some(276);
            }
            push_para_elem(out, p);
            assert(elems_view(out@) =~= elems_view(base) + spec_block_elems(*block, bi, quoted));
        },
        Block::Heading(_, level, is) => {
            let size = heading_size(*level, base_size);
            let before: u32 = if *level <= 2 {
                360
            } else {
                240
            };
            let mut p = build_paragraph(is, Some(size), Some(true));
            p.spacing_before = Some(before);
            p.spacing_after = Some(120);
            push_para_elem(out, p);
            assert(elems_view(out@) =~= elems_view(base) + spec_block_elems(*block, bi, quoted));
        },
        Block::CodeBlock(_, code) => {
            push_code_paras(out, code.as_str());
            assert(elems_view(out@) =~= elems_view(base) + spec_block_elems(*block, bi, quoted));
        },
        Block::BlockQuote(inner) => {
            push_blocks_elems(out, inner, base_size, true);
            assert(elems_view(out@) =~= elems_view(base) + spec_block_elems(*block, bi, quoted));
        },
        Block::BulletList(items) => {
            push_bullet_elems(out, items, base_size);
            assert(elems_view(out@) =~= elems_view(base) + spec_block_elems(*block, bi, quoted));
        },
        Block::OrderedList(attrs, items) => {
            push_ordered_elems(out, items, attrs.start, base_size);
            assert(elems_view(out@) =~= elems_view(base) + spec_block_elems(*block, bi, quoted));
        },
        Block::DefinitionList(items) => {
            push_deflist_elems(out, items, base_size);
            assert(elems_view(out@) =~= elems_view(base) + spec_block_elems(*block, bi, quoted));
        },
        Block::Table(t) => {
            let dt = build_docx_table(t, base_size);
            let ghost dtv = dt@;
            out.push(DocxElement::Table(dt));
            assert(elems_view(out@) =~= elems_view(base).push(ElemV::Table(dtv)));
            let spacer = DocxParagraph {
                runs: Vec::new(),
                align_center: false,
                indent_left: None,
                spacing_before: Some(0),
                spacing_after: Some(120),
                spacing_line: None,
            };
            let ghost sv = spacer@;
            assert(sv.runs =~= Seq::<RunV>::empty());
            push_para_elem(out, spacer);
            assert(elems_view(out@) =~= elems_view(base) + spec_block_elems(*block, bi, quoted));
        },
        Block::HorizontalRule => {
            let mut tc: Vec<char> = Vec::new();
            let mut k: usize = 0;
            while k < 40
                invariant
                    k <= 40,
                    tc@ == spec_dashes(40).take(k as int),
                decreases 40 - k,
            {
                tc.push('\u{2014}');
                assert(spec_dashes(40).take(k + 1) =~= spec_dashes(40).take(k as int).push(
                    '\u{2014}',
                ));
                k = k + 1;
            }
            assert(spec_dashes(40).take(40) =~= spec_dashes(40));
            let run = DocxRun {
                text: string_from_chars(tc.as_slice()),
                size: Some(base_size),
                bold: false,
                italic: false,
                underline: false,
                strike: false,
                color: None,
                font: Some(FontKind::Body),
                brk: None,
            };
            let ghost rv = run@;
            let mut runs: Vec<DocxRun> = Vec::new();
            runs.push(run);
            let p = DocxParagraph {
                runs,
                align_center: false,
                indent_left: None,
                spacing_before: None,
                spacing_after: None,
                spacing_line: None,
            };
            assert(p@.runs =~= seq![rv]);
            push_para_elem(out, p);
            assert(elems_view(out@) =~= elems_view(base) + spec_block_elems(*block, bi, quoted));
        },
        Block::PageBreak => {
            let run = DocxRun {
                text: String::new(),
                size: None,
                bold: false,
                italic: false,
                underline: false,
                strike: false,
                color: None,
                font: None,
                brk: Some(BreakKind::Page),
            };
            let ghost rv = run@;
            let mut runs: Vec<DocxRun> = Vec::new();
            runs.push(run);
            let p = DocxParagraph {
                runs,
                align_center: false,
                indent_left: None,
                spacing_before: None,
                spacing_after: None,
                spacing_line: None,
            };
            assert(p@.runs =~= seq![rv]);
            push_para_elem(out, p);
            assert(elems_view(out@) =~= elems_view(base) + spec_block_elems(*block, bi, quoted));
        },
        Block::LineBlock(lines) => {
            push_lineblock_elems(out, lines, base_size);
            assert(elems_view(out@) =~= elems_view(base) + spec_block_elems(*block, bi, quoted));
        },
        Block::RawBlock(_, _) => {
            assert(elems_view(out@) =~= elems_view(base) + spec_block_elems(*block, bi, quoted));
        },
        Block::Figure(_, _, bs) => {
            push_blocks_elems(out, bs, base_size, false);
            assert(elems_view(out@) =~= elems_view(base) + spec_block_elems(*block, bi, quoted));
        },
        Block::Div(_, bs) => {
            push_blocks_elems(out, bs, base_size, false);
            assert(elems_view(out@) =~= elems_view(base) + spec_block_elems(*block, bi, quoted));
        },
    }
}

/// Converts one block into its output elements.
pub fn write_block(block: &Block, base_size: usize) -> (r: Vec<DocxElement>)
    ensures
        elems_view(r@) == spec_block_elems(*block, base_size as int, false),
{
    let mut out: Vec<DocxElement> = Vec::new();
    assert(elems_view(out@) =~= Seq::<ElemV>::empty());
    push_block_elems(&mut out, block, base_size, false);
    assert(elems_view(out@) =~= spec_block_elems(*block, base_size as int, false));
    out
}

/// Converts one block that stands directly inside a block quote into its
/// output elements: its plain paragraphs are indented.
pub fn write_block_quote_block(block: &Block, base_size: usize) -> (r: Vec<DocxElement>)
    ensures
        elems_view(r@) == spec_block_elems(*block, base_size as int, true),
{
    let mut out: Vec<DocxElement> = Vec::new();
    assert(elems_view(out@) =~= Seq::<ElemV>::empty());
    push_block_elems(&mut out, block, base_size, true);
    assert(elems_view(out@) =~= spec_block_elems(*block, base_size as int, true));
    out
}

/// Reduces a whole document to its ordered output elements: the metadata
/// paragraphs, then every body block, with the base size resolved from the
/// metadata size key.
pub fn docx_elements(doc: &Document) -> (r: Vec<DocxElement>)
    ensures
        elems_view(r@) == spec_docx_elements(*doc),
{
    let base_size = parse_fontsize(doc.meta.get_str("fontsize"));
    let mut out: Vec<DocxElement> = Vec::new();
    assert(elems_view(out@) =~= Seq::<ElemV>::empty());
    assert(elems_view(out@) + spec_meta_elems(doc.meta, base_size as int) =~= spec_meta_elems(
        doc.meta,
        base_size as int,
    ));
    push_meta_elems(&mut out, &doc.meta, base_size);
    push_blocks_elems(&mut out, &doc.blocks, base_size, false);
    assert(elems_view(out@) =~= spec_docx_elements(*doc));
    out
}


// ---------------------------------------------------------------------
// The trusted boundary to the external packaging crate.  Each item below
// declares an external builder type or wraps exactly the call its doc
// comment names; everything that decides what gets built is verified code
// above this line.
// ---------------------------------------------------------------------

#[verifier::external_type_specification]
#[verifier::external_body]
pub struct ExDocx(docx_rs::Docx);

#[verifier::external_type_specification]
#[verifier::external_body]
pub struct ExDocxParagraph(docx_rs::Paragraph);

#[verifier::external_type_specification]
#[verifier::external_body]
pub struct ExDocxRun(docx_rs::Run);

#[verifier::external_type_specification]
#[verifier::external_body]
pub struct ExDocxRunFonts(docx_rs::RunFonts);

#[verifier::external_type_specification]
#[verifier::external_body]
pub struct ExDocxLineSpacing(docx_rs::LineSpacing);

#[verifier::external_type_specification]
#[verifier::external_body]
pub struct ExDocxShading(docx_rs::Shading);

#[verifier::external_type_specification]
#[verifier::external_body]
pub struct ExDocxTableCellBorders(docx_rs::TableCellBorders);

#[verifier::external_type_specification]
#[verifier::external_body]
pub struct ExDocxTableCell(docx_rs::TableCell);

#[verifier::external_type_specification]
#[verifier::external_body]
pub struct ExDocxTableRow(docx_rs::TableRow);

/// Relies on `docx_rs::Docx::new`: a fresh empty document.
#[verifier::external_body]
fn docx_new() -> docx_rs::Docx {
    docx_rs::Docx::new()
}

/// Relies on `docx_rs::Docx::add_paragraph`: appends a body paragraph.
#[verifier::external_body]
fn docx_add_paragraph(d: docx_rs::Docx, p: docx_rs::Paragraph) -> docx_rs::Docx {
    d.add_paragraph(p)
}

/// Relies on `docx_rs::Table::new`, `Table::width`, `Table::set_grid` and
/// `docx_rs::Docx::add_table`: builds a table over the given rows with a
/// fixed total width and column grid, and appends it to the document.
#[verifier::external_body]
fn docx_add_table_from(
    d: docx_rs::Docx,
    rows: Vec<docx_rs::TableRow>,
    width: usize,
    grid: Vec<usize>,
) -> docx_rs::Docx {
    d.add_table(docx_rs::Table::new(rows).width(width, docx_rs::WidthType::Dxa).set_grid(grid))
}

/// Relies on `docx_rs::Docx::build` and `docx_rs::XMLDocx::pack`: renders
/// the package parts and writes the DOCX ZIP archive into a memory
/// buffer.  A packaging failure is returned as the error's message.  Every
/// successfully packed buffer is a ZIP archive and so begins with the
/// signature bytes `P`, `K`: every record the ZIP writer emits — local
/// file headers and the end-of-central-directory record alike — starts
/// with those two bytes.
#[verifier::external_body]
fn docx_pack(d: docx_rs::Docx) -> (r: Result<Vec<u8>, String>)
    ensures
        r matches Ok(b) ==> b@.len() >= 2 && b@[0] == 80u8 && b@[1] == 75u8,
{
    let mut buf: Vec<u8> = Vec::new();
    match d.build().pack(std::io::Cursor::new(&mut buf)) {
        Ok(()) => Ok(buf),
        Err(e) => Err(e.to_string()),
    }
}

/// Relies on `docx_rs::Paragraph::new`: a fresh empty paragraph.
#[verifier::external_body]
fn paragraph_new() -> docx_rs::Paragraph {
    docx_rs::Paragraph::new()
}

/// Relies on `docx_rs::Paragraph::add_run`: appends a run.
#[verifier::external_body]
fn paragraph_add_run(p: docx_rs::Paragraph, r: docx_rs::Run) -> docx_rs::Paragraph {
    p.add_run(r)
}

/// Relies on `docx_rs::Paragraph::align` with centered alignment.
#[verifier::external_body]
fn paragraph_align_center(p: docx_rs::Paragraph) -> docx_rs::Paragraph {
    p.align(docx_rs::AlignmentType::Center)
}

/// Relies on `docx_rs::Paragraph::indent`: sets the left indent only.
#[verifier::external_body]
fn paragraph_indent_left(p: docx_rs::Paragraph, left: i32) -> docx_rs::Paragraph {
    p.indent(Some(left), None, None, None)
}

/// Relies on `docx_rs::Paragraph::line_spacing`: attaches spacing.
#[verifier::external_body]
fn paragraph_line_spacing(
    p: docx_rs::Paragraph,
    ls: docx_rs::LineSpacing,
) -> docx_rs::Paragraph {
    p.line_spacing(ls)
}

/// Relies on `docx_rs::LineSpacing::new`: empty spacing settings.
#[verifier::external_body]
fn line_spacing_new() -> docx_rs::LineSpacing {
    docx_rs::LineSpacing::new()
}

/// Relies on `docx_rs::LineSpacing::before`: space before the paragraph.
#[verifier::external_body]
fn line_spacing_before(ls: docx_rs::LineSpacing, v: u32) -> docx_rs::LineSpacing {
    ls.before(v)
}

/// Relies on `docx_rs::LineSpacing::after`: space after the paragraph.
#[verifier::external_body]
fn line_spacing_after(ls: docx_rs::LineSpacing, v: u32) -> docx_rs::LineSpacing {
    ls.after(v)
}

/// Relies on `docx_rs::LineSpacing::line`: the line height.
#[verifier::external_body]
fn line_spacing_line(ls: docx_rs::LineSpacing, v: i32) -> docx_rs::LineSpacing {
    ls.line(v)
}

/// Relies on `docx_rs::Run::new`: a fresh empty run.
#[verifier::external_body]
fn run_new() -> docx_rs::Run {
    docx_rs::Run::new()
}

/// Relies on `docx_rs::Run::add_text`: appends literal text.
#[verifier::external_body]
fn run_add_text(r: docx_rs::Run, t: &str) -> docx_rs::Run {
    r.add_text(t)
}

/// Relies on `docx_rs::Run::size`: the half-point font size.
#[verifier::external_body]
fn run_size(r: docx_rs::Run, s: usize) -> docx_rs::Run {
    r.size(s)
}

/// Relies on `docx_rs::Run::bold`.
#[verifier::external_body]
fn run_bold(r: docx_rs::Run) -> docx_rs::Run {
    r.bold()
}

/// Relies on `docx_rs::Run::italic`.
#[verifier::external_body]
fn run_italic(r: docx_rs::Run) -> docx_rs::Run {
    r.italic()
}

/// Relies on `docx_rs::Run::strike`.
#[verifier::external_body]
fn run_strike(r: docx_rs::Run) -> docx_rs::Run {
    r.strike()
}

/// Relies on `docx_rs::Run::underline` with the single-line style.
#[verifier::external_body]
fn run_underline_single(r: docx_rs::Run) -> docx_rs::Run {
    r.underline("single")
}

/// Relies on `docx_rs::Run::color`: the text color as a hex string.
#[verifier::external_body]
fn run_color(r: docx_rs::Run, c: &str) -> docx_rs::Run {
    r.color(c)
}

/// Relies on `docx_rs::Run::fonts`: the run's font bindings.
#[verifier::external_body]
fn run_fonts(r: docx_rs::Run, f: docx_rs::RunFonts) -> docx_rs::Run {
    r.fonts(f)
}

/// Relies on `docx_rs::Run::add_break` with a page break.
#[verifier::external_body]
fn run_break_page(r: docx_rs::Run) -> docx_rs::Run {
    r.add_break(docx_rs::BreakType::Page)
}

/// Relies on `docx_rs::Run::add_break` with a text-wrapping break.
#[verifier::external_body]
fn run_break_textwrap(r: docx_rs::Run) -> docx_rs::Run {
    r.add_break(docx_rs::BreakType::TextWrapping)
}

/// Relies on `docx_rs::RunFonts`: the body font bound for ASCII,
/// high-ANSI and complex scripts.
#[verifier::external_body]
fn fonts_body() -> docx_rs::RunFonts {
    docx_rs::RunFonts::new().ascii("Calibri").hi_ansi("Calibri").cs("Calibri")
}

/// Relies on `docx_rs::RunFonts`: the monospace font bound for ASCII,
/// high-ANSI and complex scripts.
#[verifier::external_body]
fn fonts_mono() -> docx_rs::RunFonts {
    docx_rs::RunFonts::new().ascii("Courier New").hi_ansi("Courier New").cs("Courier New")
}

/// Relies on `docx_rs::RunFonts`: the monospace font bound for ASCII and
/// high-ANSI scripts only, used for math runs.
#[verifier::external_body]
fn fonts_math() -> docx_rs::RunFonts {
    docx_rs::RunFonts::new().ascii("Courier New").hi_ansi("Courier New")
}

/// Relies on `docx_rs::Shading`: a clear-pattern shading with automatic
/// text color over the given fill.
#[verifier::external_body]
fn shading_fill(fill: &str) -> docx_rs::Shading {
    docx_rs::Shading::new().shd_type(docx_rs::ShdType::Clear).color("auto").fill(fill)
}

/// Relies on `docx_rs::TableCellBorders` and `docx_rs::TableCellBorder`:
/// borders of the given color and size on every side of a cell.
#[verifier::external_body]
pub fn make_cell_borders(color: &str, size: usize) -> docx_rs::TableCellBorders {
    docx_rs::TableCellBorders::new()
        .set(docx_rs::TableCellBorder::new(docx_rs::TableCellBorderPosition::Top).color(color).size(size))
        .set(docx_rs::TableCellBorder::new(docx_rs::TableCellBorderPosition::Bottom).color(color).size(size))
        .set(docx_rs::TableCellBorder::new(docx_rs::TableCellBorderPosition::Left).color(color).size(size))
        .set(docx_rs::TableCellBorder::new(docx_rs::TableCellBorderPosition::Right).color(color).size(size))
        .set(docx_rs::TableCellBorder::new(docx_rs::TableCellBorderPosition::InsideH).color(color).size(size))
        .set(docx_rs::TableCellBorder::new(docx_rs::TableCellBorderPosition::InsideV).color(color).size(size))
}

/// Relies on `docx_rs::TableCell::new`: a fresh empty cell.
#[verifier::external_body]
fn table_cell_new() -> docx_rs::TableCell {
    docx_rs::TableCell::new()
}

/// Relies on `docx_rs::TableCell::width` with fixed twentieths of a point.
#[verifier::external_body]
fn table_cell_width(c: docx_rs::TableCell, w: usize) -> docx_rs::TableCell {
    c.width(w, docx_rs::WidthType::Dxa)
}

/// Relies on `docx_rs::TableCell::shading`.
#[verifier::external_body]
fn table_cell_shading(c: docx_rs::TableCell, s: docx_rs::Shading) -> docx_rs::TableCell {
    c.shading(s)
}

/// Relies on `docx_rs::TableCell::set_borders`.
#[verifier::external_body]
fn table_cell_set_borders(
    c: docx_rs::TableCell,
    b: docx_rs::TableCellBorders,
) -> docx_rs::TableCell {
    c.set_borders(b)
}

/// Relies on `docx_rs::TableCell::add_paragraph`.
#[verifier::external_body]
fn table_cell_add_paragraph(
    c: docx_rs::TableCell,
    p: docx_rs::Paragraph,
) -> docx_rs::TableCell {
    c.add_paragraph(p)
}

/// Relies on `docx_rs::TableRow::new`: a row over the given cells.
#[verifier::external_body]
fn table_row_new(cells: Vec<docx_rs::TableCell>) -> docx_rs::TableRow {
    docx_rs::TableRow::new(cells)
}

/// Builds the external run for one run description.
fn build_real_run(r: &DocxRun) -> docx_rs::Run {
    let mut rr = run_new();
    match &r.font {
        Some(FontKind::Body) => {
            rr = run_fonts(rr, fonts_body());
        },
        Some(FontKind::Mono) => {
            rr = run_fonts(rr, fonts_mono());
        },
        Some(FontKind::MathMono) => {
            rr = run_fonts(rr, fonts_math());
        },
        None => {},
    }
    match &r.brk {
        Some(BreakKind::Page) => {
            rr = run_break_page(rr);
        },
        Some(BreakKind::TextWrapping) => {
            rr = run_break_textwrap(rr);
        },
        None => {
            rr = run_add_text(rr, r.text.as_str());
        },
    }
    if let Some(s) = r.size {
        rr = run_size(rr, s);
    }
    if r.bold {
        rr = run_bold(rr);
    }
    if r.italic {
        rr = run_italic(rr);
    }
    if r.underline {
        rr = run_underline_single(rr);
    }
    if r.strike {
        rr = run_strike(rr);
    }
    if let Some(c) = &r.color {
        rr = run_color(rr, c.as_str());
    }
    rr
}

/// Builds the external paragraph for one paragraph description.
fn build_real_paragraph(p: &DocxParagraph) -> docx_rs::Paragraph {
    let mut rp = paragraph_new();
    let mut i: usize = 0;
    while i < p.runs.len()
        decreases p.runs@.len() - i,
    {
        rp = paragraph_add_run(rp, build_real_run(&p.runs[i]));
        i = i + 1;
    }
    if p.align_center {
        rp = paragraph_align_center(rp);
    }
    if let Some(v) = p.indent_left {
        rp = paragraph_indent_left(rp, v);
    }
    if p.spacing_before.is_some() || p.spacing_after.is_some() || p.spacing_line.is_some() {
        let mut ls = line_spacing_new();
        if let Some(v) = p.spacing_before {
            ls = line_spacing_before(ls, v);
        }
        if let Some(v) = p.spacing_after {
            ls = line_spacing_after(ls, v);
        }
        if let Some(v) = p.spacing_line {
            ls = line_spacing_line(ls, v);
        }
        rp = paragraph_line_spacing(rp, ls);
    }
    rp
}

/// Builds the external rows for one table description.
fn build_real_rows(t: &DocxTable) -> Vec<docx_rs::TableRow> {
    let mut rows: Vec<docx_rs::TableRow> = Vec::new();
    let mut i: usize = 0;
    while i < t.rows.len()
        decreases t.rows@.len() - i,
    {
        let row = &t.rows[i];
        let mut cells: Vec<docx_rs::TableCell> = Vec::new();
        let mut c: usize = 0;
        while c < row.cells.len()
            decreases row.cells@.len() - c,
        {
            let cell = &row.cells[c];
            let mut rc = table_cell_new();
            if let Some(w) = cell.width {
                rc = table_cell_width(rc, w);
            }
            if let Some(f) = &cell.fill {
                rc = table_cell_shading(rc, shading_fill(f.as_str()));
            }
            if cell.borders {
                rc = table_cell_set_borders(rc, make_cell_borders("333333", 6));
            }
            if let Some(p) = &cell.para {
                rc = table_cell_add_paragraph(rc, build_real_paragraph(p));
            }
            cells.push(rc);
            c = c + 1;
        }
        rows.push(table_row_new(cells));
        i = i + 1;
    }
    rows
}

/// Writes a document to DOCX bytes: the verified element reduction drives
/// the external packaging crate, and any packaging failure comes back as a
/// `DocxError`.  A successful result is an archive: its first two bytes
/// are the ZIP signature `P`, `K`.
pub fn write_docx(doc: &Document) -> (r: Result<Vec<u8>, PandorustError>)
    ensures
        r matches Err(e) ==> e is DocxError,
        r matches Ok(b) ==> b@.len() >= 2 && b@[0] == 80u8 && b@[1] == 75u8,
{
    let elements = docx_elements(doc);
    let mut d = docx_new();
    let mut i: usize = 0;
    while i < elements.len()
        decreases elements@.len() - i,
    {
        match &elements[i] {
            DocxElement::Paragraph(p) => {
                d = docx_add_paragraph(d, build_real_paragraph(p));
            },
            DocxElement::Table(t) => {
                d = docx_add_table_from(d, build_real_rows(t), t.width, t.grid.clone());
            },
        }
        i = i + 1;
    }
    match docx_pack(d) {
        Ok(bytes) => Ok(bytes),
        Err(msg) => Err(PandorustError::DocxError(msg)),
    }
}

/// The element reduction is a pure function of the document: any two
/// reductions of the same document are identical.
pub proof fn lemma_docx_elements_pure(doc: Document, a: Seq<ElemV>, b: Seq<ElemV>)
    requires
        a == spec_docx_elements(doc),
        b == spec_docx_elements(doc),
    ensures
        a == b,
{
}

} // verus!

use vstd::prelude::*;

use super::block::Block;
use super::inline::Inline;
use super::meta::Attr;

verus! {

/// The horizontal alignment of a table column or cell.
#[derive(Debug, PartialEq)]
pub enum Alignment {
    AlignDefault,
    AlignLeft,
    AlignRight,
    AlignCenter,
}

/// The width of a table column: inherited, or a fixed fraction of the table
/// width given in thousandths.
#[derive(Debug, PartialEq)]
pub enum ColWidth {
    Fixed(u64),
    Default,
}

/// The specification of one table column.
#[derive(Debug, PartialEq)]
pub struct ColSpec {
    pub align: Alignment,
    pub width: ColWidth,
}

/// A table caption: an optional short inline form and a long block form.
#[derive(Debug, PartialEq)]
pub struct Caption {
    pub short: Option<Vec<Inline>>,
    pub long: Vec<Block>,
}

impl Default for Caption {
    /// A caption with no short form and no long form.
    fn default() -> (r: Self)
        ensures
            r.short is None,
            r.long@.len() == 0,
    {
        Caption { short: None, long: Vec::new() }
    }
}

/// One table row: attributes plus ordered cells.
#[derive(Debug, PartialEq)]
pub struct Row {
    pub attr: Attr,
    pub cells: Vec<Cell>,
}

/// One table cell.  Row and column spans are at least 1.
#[derive(Debug, PartialEq)]
pub struct Cell {
    pub attr: Attr,
    pub align: Alignment,
    pub row_span: u32,
    pub col_span: u32,
    pub content: Vec<Block>,
}

/// The head section of a table.
#[derive(Debug, PartialEq)]
pub struct TableHead {
    pub attr: Attr,
    pub rows: Vec<Row>,
}

/// One body section of a table.
#[derive(Debug, PartialEq)]
pub struct TableBody {
    pub attr: Attr,
    pub row_head_columns: u32,
    pub head: Vec<Row>,
    pub body: Vec<Row>,
}

/// The foot section of a table.
#[derive(Debug, PartialEq)]
pub struct TableFoot {
    pub attr: Attr,
    pub rows: Vec<Row>,
}

/// A full table: attributes, caption, column specs, one head, any number of
/// bodies, one foot.
#[derive(Debug, PartialEq)]
pub struct Table {
    pub attr: Attr,
    pub caption: Caption,
    pub col_specs: Vec<ColSpec>,
    pub head: TableHead,
    pub bodies: Vec<TableBody>,
    pub foot: TableFoot,
}

/// The mathematical view of a `ColWidth`.
#[verifier::ext_equal]
pub enum ColWidthDv {
    Fixed(int),
    Default,
}

/// The mathematical view of a `ColSpec`.
#[verifier::ext_equal]
pub struct ColSpecDv {
    pub align: Alignment,
    pub width: ColWidthDv,
}

/// The mathematical view of a `Caption`.
#[verifier::ext_equal]
pub struct CaptionDv {
    pub short: Option<Seq<super::inline::InlineV>>,
    pub long: Seq<super::block::BlockV>,
}

/// The mathematical view of a `Caption`.
pub open spec fn caption_dv(c: Caption) -> CaptionDv
    decreases c,
{
    CaptionDv {
        short: match c.short {
            Some(is) => Some(super::inline::inlines_dv(is@)),
            None => None,
        },
        long: super::block::blocks_dv(c.long@),
    }
}

/// The mathematical view of a `Cell`.
#[verifier::ext_equal]
pub struct CellDv {
    pub attr: super::meta::AttrV,
    pub align: Alignment,
    pub row_span: int,
    pub col_span: int,
    pub content: Seq<super::block::BlockV>,
}

/// The mathematical view of one cell.
pub open spec fn cell_dv(c: Cell) -> CellDv
    decreases c,
{
    CellDv {
        attr: super::meta::attr_dv(c.attr),
        align: c.align,
        row_span: c.row_span as int,
        col_span: c.col_span as int,
        content: super::block::blocks_dv(c.content@),
    }
}

/// The mathematical views of a sequence of cells.
pub open spec fn cells_dv(cs: Seq<Cell>) -> Seq<CellDv>
    decreases cs,
{
    if cs.len() == 0 {
        Seq::empty()
    } else {
        cells_dv(cs.drop_last()).push(cell_dv(cs.last()))
    }
}

/// The mathematical view of a `Row`.
#[verifier::ext_equal]
pub struct RowDv {
    pub attr: super::meta::AttrV,
    pub cells: Seq<CellDv>,
}

/// The mathematical view of one row.
pub open spec fn row_dv(r: Row) -> RowDv
    decreases r,
{
    RowDv { attr: super::meta::attr_dv(r.attr), cells: cells_dv(r.cells@) }
}

/// The mathematical views of a sequence of rows.
pub open spec fn rows_dv(rs: Seq<Row>) -> Seq<RowDv>
    decreases rs,
{
    if rs.len() == 0 {
        Seq::empty()
    } else {
        rows_dv(rs.drop_last()).push(row_dv(rs.last()))
    }
}

/// The mathematical view of a `TableBody`.
#[verifier::ext_equal]
pub struct TableBodyDv {
    pub attr: super::meta::AttrV,
    pub row_head_columns: int,
    pub head: Seq<RowDv>,
    pub body: Seq<RowDv>,
}

/// The mathematical views of the body sections.
pub open spec fn bodies_dv(bs: Seq<TableBody>) -> Seq<TableBodyDv>
    decreases bs,
{
    if bs.len() == 0 {
        Seq::empty()
    } else {
        bodies_dv(bs.drop_last()).push(
            TableBodyDv {
                attr: super::meta::attr_dv(bs.last().attr),
                row_head_columns: bs.last().row_head_columns as int,
                head: rows_dv(bs.last().head@),
                body: rows_dv(bs.last().body@),
            },
        )
    }
}

/// The mathematical view of a `Table`.
#[verifier::ext_equal]
pub struct TableDv {
    pub attr: super::meta::AttrV,
    pub caption: CaptionDv,
    pub col_specs: Seq<ColSpecDv>,
    pub head_attr: super::meta::AttrV,
    pub head_rows: Seq<RowDv>,
    pub bodies: Seq<TableBodyDv>,
    pub foot_attr: super::meta::AttrV,
    pub foot_rows: Seq<RowDv>,
}

/// The mathematical views of the column specs.
pub open spec fn col_specs_dv(cs: Seq<ColSpec>) -> Seq<ColSpecDv>
    decreases cs,
{
    if cs.len() == 0 {
        Seq::empty()
    } else {
        col_specs_dv(cs.drop_last()).push(
            ColSpecDv {
                align: cs.last().align,
                width: match cs.last().width {
                    ColWidth::Fixed(n) => ColWidthDv::Fixed(n as int),
                    ColWidth::Default => ColWidthDv::Default,
                },
            },
        )
    }
}

/// The mathematical view of one table.
pub open spec fn table_dv(t: Table) -> TableDv
    decreases t,
{
    TableDv {
        attr: super::meta::attr_dv(t.attr),
        caption: caption_dv(t.caption),
        col_specs: col_specs_dv(t.col_specs@),
        head_attr: super::meta::attr_dv(t.head.attr),
        head_rows: rows_dv(t.head.rows@),
        bodies: bodies_dv(t.bodies@),
        foot_attr: super::meta::attr_dv(t.foot.attr),
        foot_rows: rows_dv(t.foot.rows@),
    }
}

} // verus!

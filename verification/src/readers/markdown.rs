//! The Markdown reader.  The raw text is split into front matter and body;
//! the body is rewritten by the grid-table preprocessor and handed to the
//! external Markdown parser, whose concrete-syntax tree comes back as the
//! plain `CstNode` tree; verified code then normalizes that tree and the
//! front-matter value tree into the `Document` model.

use vstd::prelude::*;

use comrak::nodes::NodeValue;

use crate::ast::block::{blocks_dv, Block, BlockV};
use crate::ast::inline::{inlines_dv, Inline, InlineV};
use crate::ast::meta::{
    attr_dv, empty_attr_v, lemma_attr_empty_dv, meta_entries_dv, meta_value_dv, Attr, AttrV,
    Document, Meta, MetaValue, MetaValueV,
};
use crate::ast::table::{
    Alignment, Caption, Cell, CellDv, ColSpec, ColSpecDv, ColWidth, ColWidthDv, Row, RowDv, Table,
    TableBody, TableBodyDv, TableDv, TableFoot, TableHead,
};
use crate::ast::{Format, ListAttrs, TargetV, Target};
use crate::readers::grid_table::preprocess_grid_tables;
use crate::strutil::{
    chars_of, chars_eq_str, spec_trim, spec_trim_start, string_from_chars, trim_chars,
};
use crate::utils::error::PandorustError;
use vstd::string::StrSliceExecFns;

verus! {

/// The column alignment of a parsed table.
#[derive(Debug, Clone, PartialEq)]
pub enum CstAlign {
    Default,
    Left,
    Right,
    Center,
}

/// The kind of one node of the external parser's concrete-syntax tree,
/// with the payloads the normalizer reads.
#[derive(Debug, PartialEq)]
pub enum CstKind {
    Paragraph,
    Heading(u8),
    CodeBlock(String, String),
    BlockQuote,
    List(bool, usize),
    Item,
    ThematicBreak,
    Table(Vec<CstAlign>),
    TableRow(bool),
    TableCell,
    HtmlBlock(String),
    Text(String),
    SoftBreak,
    LineBreak,
    Code(String),
    Emph,
    Strong,
    Strikethrough,
    Superscript,
    Link(String, String),
    Image(String, String),
    HtmlInline(String),
    Other,
}

/// One node of the external parser's concrete-syntax tree.
#[derive(Debug, PartialEq)]
pub struct CstNode {
    pub kind: CstKind,
    pub children: Vec<CstNode>,
}

/// One node of the front-matter value tree, as plain values.
#[derive(Debug, PartialEq)]
pub enum YamlNode {
    Null,
    Bool(bool),
    Number(String),
    Str(String),
    List(Vec<YamlNode>),
    Mapping(Vec<(YamlNode, YamlNode)>),
    Other,
}

// ---------------------------------------------------------------------
// The trusted boundary to the external Markdown parser.
// ---------------------------------------------------------------------

#[verifier::external_type_specification]
#[verifier::external_body]
pub struct ExNodeValue(comrak::nodes::NodeValue);

#[verifier::external_type_specification]
#[verifier::external_body]
pub struct ExTableAlignment(comrak::nodes::TableAlignment);

#[verifier::external_type_specification]
#[verifier::external_body]
pub struct ExComrakOptions<'c>(comrak::Options<'c>);

/// The concrete-syntax tree that the external parser yields for a body
/// text, with the extensions this reader enables.
pub uninterp spec fn md_cst_of(s: Seq<char>) -> Seq<CstNode>;

/// Relies on `comrak::Options::default`: the parser options with the
/// strikethrough, table, task-list and superscript extensions enabled.
#[verifier::external_body]
fn md_options() -> comrak::Options<'static> {
    let mut opts = comrak::Options::default();
    opts.extension.strikethrough = true;
    opts.extension.table = true;
    opts.extension.tasklist = true;
    opts.extension.superscript = true;
    opts
}

/// Relies on `comrak::parse_document` and the arena tree's `traverse`:
/// parses the body and rebuilds the tree as plain `CstNode` values, one
/// per node, children in order.  The result is a function of the text
/// alone.
#[verifier::external_body]
fn md_parse(body: &str) -> (r: Vec<CstNode>)
    ensures
        r@ == md_cst_of(body@),
{
    let arena = comrak::Arena::new();
    let root = comrak::parse_document(&arena, body, &md_options());
    let mut stack: Vec<CstNode> = Vec::new();
    stack.push(CstNode { kind: CstKind::Other, children: Vec::new() });
    for edge in root.traverse() {
        match edge {
            comrak::arena_tree::NodeEdge::Start(n) => stack.push(CstNode { kind: cst_kind(&n.data().value), children: Vec::new() }),
            comrak::arena_tree::NodeEdge::End(_) => { let c = stack.pop().unwrap(); let j = stack.len() - 1; stack[j].children.push(c); }
        }
    }
    stack.pop().unwrap().children.pop().unwrap().children
}

/// Relies on `comrak::nodes::NodeValue`: names the block-level variants
/// the normalizer reads, moving their payload fields.
#[verifier::external_body]
fn cst_kind(v: &comrak::nodes::NodeValue) -> CstKind {
    match v {
        NodeValue::Paragraph => CstKind::Paragraph,
        NodeValue::Heading(h) => CstKind::Heading(h.level),
        NodeValue::CodeBlock(c) => CstKind::CodeBlock(c.info.clone(), c.literal.clone()),
        NodeValue::BlockQuote => CstKind::BlockQuote,
        NodeValue::List(l) => CstKind::List(matches!(l.list_type, comrak::nodes::ListType::Bullet), l.start),
        NodeValue::Item(_) => CstKind::Item,
        NodeValue::TaskItem(_) => CstKind::Item,
        NodeValue::ThematicBreak => CstKind::ThematicBreak,
        other => cst_kind_tables(other),
    }
}

/// Relies on `comrak::nodes::NodeValue`: names the table and raw-block
/// variants, moving their payload fields.
#[verifier::external_body]
fn cst_kind_tables(v: &comrak::nodes::NodeValue) -> CstKind {
    match v {
        NodeValue::Table(t) => CstKind::Table(aligns_of(&t.alignments)),
        NodeValue::TableRow(h) => CstKind::TableRow(*h),
        NodeValue::TableCell => CstKind::TableCell,
        NodeValue::HtmlBlock(h) => CstKind::HtmlBlock(h.literal.clone()),
        other => cst_kind_inline(other),
    }
}

/// Relies on `comrak::nodes::NodeValue`: names the inline variants the
/// normalizer reads, moving their payload fields.
#[verifier::external_body]
fn cst_kind_inline(v: &comrak::nodes::NodeValue) -> CstKind {
    match v {
        NodeValue::Text(t) => CstKind::Text(t.to_string()),
        NodeValue::SoftBreak => CstKind::SoftBreak,
        NodeValue::LineBreak => CstKind::LineBreak,
        NodeValue::Code(c) => CstKind::Code(c.literal.clone()),
        NodeValue::Emph => CstKind::Emph,
        NodeValue::Strong => CstKind::Strong,
        NodeValue::Strikethrough => CstKind::Strikethrough,
        NodeValue::Superscript => CstKind::Superscript,
        NodeValue::HtmlInline(s) => CstKind::HtmlInline(s.clone()),
        other => cst_kind_links(other),
    }
}

/// Relies on `comrak::nodes::NodeValue`: names the link and image
/// variants, moving their URL and title.
#[verifier::external_body]
fn cst_kind_links(v: &comrak::nodes::NodeValue) -> CstKind {
    match v {
        NodeValue::Link(l) => CstKind::Link(l.url.clone(), l.title.clone()),
        NodeValue::Image(l) => CstKind::Image(l.url.clone(), l.title.clone()),
        _ => CstKind::Other,
    }
}

/// Relies on `comrak::nodes::TableAlignment`: maps each alignment to its
/// plain counterpart, one arm per variant.
#[verifier::external_body]
fn aligns_of(v: &Vec<comrak::nodes::TableAlignment>) -> Vec<CstAlign> {
    v.iter().map(|a| match a {
        comrak::nodes::TableAlignment::None => CstAlign::Default,
        comrak::nodes::TableAlignment::Left => CstAlign::Left,
        comrak::nodes::TableAlignment::Right => CstAlign::Right,
        comrak::nodes::TableAlignment::Center => CstAlign::Center,
    }).collect()
}

// ---------------------------------------------------------------------
// The trusted boundary to the external YAML parser.
// ---------------------------------------------------------------------

#[verifier::external_type_specification]
#[verifier::external_body]
pub struct ExYamlValue(serde_yaml::Value);

#[verifier::external_type_specification]
#[verifier::external_body]
pub struct ExYamlError(serde_yaml::Error);

/// The front-matter value tree that the external YAML parser yields for a
/// text, or nothing when the text does not parse.  The result is a
/// function of the text alone.
pub uninterp spec fn yaml_parse_of(s: Seq<char>) -> Option<YamlNode>;

/// Relies on `serde_yaml::from_str`: parses the text into a generic value
/// tree, returned as plain `YamlNode` values.
#[verifier::external_body]
fn parse_yaml(s: &str) -> (r: Result<YamlNode, serde_yaml::Error>)
    ensures
        r matches Ok(n) ==> yaml_parse_of(s@) == Some(n),
        r is Err ==> yaml_parse_of(s@) is None,
{
    match serde_yaml::from_str::<serde_yaml::Value>(s) {
        Ok(v) => Ok(yaml_node_of(v)),
        Err(e) => Err(e),
    }
}

/// Relies on `serde_yaml::Value`: maps each variant to its plain
/// counterpart, one arm per variant, numbers via their display form.
#[verifier::external_body]
fn yaml_node_of(v: serde_yaml::Value) -> YamlNode {
    match v {
        serde_yaml::Value::Null => YamlNode::Null,
        serde_yaml::Value::Bool(b) => YamlNode::Bool(b),
        serde_yaml::Value::Number(n) => YamlNode::Number(n.to_string()),
        serde_yaml::Value::String(s) => YamlNode::Str(s),
        serde_yaml::Value::Sequence(xs) => YamlNode::List(xs.into_iter().map(yaml_node_of).collect()),
        serde_yaml::Value::Mapping(m) => YamlNode::Mapping(m.into_iter().map(|(k, w)| (yaml_node_of(k), yaml_node_of(w))).collect()),
        serde_yaml::Value::Tagged(_) => YamlNode::Other,
    }
}

/// Relies on the `Display` form of `serde_yaml::Error`: its
/// human-readable message.
#[verifier::external_body]
fn yaml_error_message(e: &serde_yaml::Error) -> String {
    e.to_string()
}

// ---------------------------------------------------------------------
// Verified conversion of the front-matter value tree into metadata.
// ---------------------------------------------------------------------

/// The metadata value for one front-matter node: strings and booleans
/// carry over, numbers keep their string form, lists and mappings recurse
/// (dropping non-string keys), and every other kind degrades to an empty
/// string.
pub open spec fn spec_yaml_to_meta(v: YamlNode) -> MetaValueV
    decreases v,
{
    match v {
        YamlNode::Str(s) => MetaValueV::Str(s@),
        YamlNode::Bool(b) => MetaValueV::Bool(b),
        YamlNode::Number(n) => MetaValueV::Str(n@),
        YamlNode::List(xs) => MetaValueV::List(spec_yaml_list_to_meta(xs@)),
        YamlNode::Mapping(ps) => MetaValueV::Mapping(spec_yaml_map_to_meta(ps@)),
        YamlNode::Null => MetaValueV::Str(Seq::empty()),
        YamlNode::Other => MetaValueV::Str(Seq::empty()),
    }
}

/// The metadata values of a front-matter list.
pub open spec fn spec_yaml_list_to_meta(xs: Seq<YamlNode>) -> Seq<MetaValueV>
    decreases xs,
{
    if xs.len() == 0 {
        Seq::empty()
    } else {
        spec_yaml_list_to_meta(xs.drop_last()).push(spec_yaml_to_meta(xs.last()))
    }
}

/// The metadata entries of a front-matter mapping: pairs with string keys
/// carry over in order, all others are dropped.
pub open spec fn spec_yaml_map_to_meta(ps: Seq<(YamlNode, YamlNode)>) -> Seq<
    (Seq<char>, MetaValueV),
>
    decreases ps,
{
    if ps.len() == 0 {
        Seq::empty()
    } else {
        spec_yaml_map_to_meta(ps.drop_last()) + (match ps.last().0 {
            YamlNode::Str(k) => seq![(k@, spec_yaml_to_meta(ps.last().1))],
            _ => Seq::<(Seq<char>, MetaValueV)>::empty(),
        })
    }
}

/// The metadata built from a front-matter root: the entries of a mapping
/// root, and nothing for any other root.
pub open spec fn spec_build_meta(root: YamlNode) -> Seq<(Seq<char>, MetaValueV)> {
    match root {
        YamlNode::Mapping(ps) => spec_yaml_map_to_meta(ps@),
        _ => Seq::empty(),
    }
}

/// Converts one front-matter node into a metadata value.
fn yaml_to_meta(v: &YamlNode) -> (r: MetaValue)
    ensures
        meta_value_dv(r) == spec_yaml_to_meta(*v),
    decreases *v,
{
    match v {
        YamlNode::Str(s) => MetaValue::String(s.clone()),
        YamlNode::Bool(b) => MetaValue::Bool(*b),
        YamlNode::Number(n) => MetaValue::String(n.clone()),
        YamlNode::List(xs) => MetaValue::List(yaml_list_to_meta(xs)),
        YamlNode::Mapping(ps) => MetaValue::Mapping(yaml_map_to_meta(ps)),
        YamlNode::Null => MetaValue::String(String::new()),
        YamlNode::Other => MetaValue::String(String::new()),
    }
}

/// Converts the nodes of a front-matter list.
fn yaml_list_to_meta(xs: &Vec<YamlNode>) -> (r: Vec<MetaValue>)
    ensures
        crate::ast::meta::meta_values_dv(r@) == spec_yaml_list_to_meta(xs@),
    decreases *xs,
{
    let mut out: Vec<MetaValue> = Vec::new();
    let mut i: usize = 0;
    assert(crate::ast::meta::meta_values_dv(out@) =~= spec_yaml_list_to_meta(xs@.take(0)));
    while i < xs.len()
        invariant
            i <= xs@.len(),
            crate::ast::meta::meta_values_dv(out@) == spec_yaml_list_to_meta(xs@.take(i as int)),
        decreases xs@.len() - i,
    {
        let m = yaml_to_meta(&xs[i]);
        let ghost mv = meta_value_dv(m);
        let ghost prev = out@;
        out.push(m);
        proof {
            assert(out@.drop_last() =~= prev);
            assert(crate::ast::meta::meta_values_dv(out@) =~= crate::ast::meta::meta_values_dv(
                prev,
            ).push(mv));
            assert(xs@.take(i + 1).drop_last() =~= xs@.take(i as int));
            assert(xs@.take(i + 1).last() == xs@[i as int]);
            assert(crate::ast::meta::meta_values_dv(out@) =~= spec_yaml_list_to_meta(
                xs@.take(i + 1),
            ));
        }
        i = i + 1;
    }
    assert(xs@.take(xs@.len() as int) =~= xs@);
    out
}

/// Converts the pairs of a front-matter mapping, keeping only string
/// keys.
fn yaml_map_to_meta(ps: &Vec<(YamlNode, YamlNode)>) -> (r: Vec<(String, MetaValue)>)
    ensures
        meta_entries_dv(r@) == spec_yaml_map_to_meta(ps@),
    decreases *ps,
{
    let mut out: Vec<(String, MetaValue)> = Vec::new();
    let mut i: usize = 0;
    assert(meta_entries_dv(out@) =~= spec_yaml_map_to_meta(ps@.take(0)));
    while i < ps.len()
        invariant
            i <= ps@.len(),
            meta_entries_dv(out@) == spec_yaml_map_to_meta(ps@.take(i as int)),
        decreases ps@.len() - i,
    {
        proof {
            assert(decreases_to!(*ps => ps@));
            assert(decreases_to!(ps@ => ps@[i as int]));
            assert(decreases_to!(ps@[i as int] => ps@[i as int].1));
        }
        match &ps[i].0 {
            YamlNode::Str(k) => {
                let m = yaml_to_meta(&ps[i].1);
                let ghost mv = meta_value_dv(m);
                let ghost kv = k@;
                let ghost prev = out@;
                out.push((k.clone(), m));
                proof {
                    assert(out@.drop_last() =~= prev);
                    assert(meta_entries_dv(out@) =~= meta_entries_dv(prev).push((kv, mv)));
                }
            },
            _ => {},
        }
        proof {
            assert(ps@.take(i + 1).drop_last() =~= ps@.take(i as int));
            assert(ps@.take(i + 1).last() == ps@[i as int]);
            assert(meta_entries_dv(out@) =~= spec_yaml_map_to_meta(ps@.take(i + 1)));
        }
        i = i + 1;
    }
    assert(ps@.take(ps@.len() as int) =~= ps@);
    out
}

/// Builds the document metadata from a front-matter root node.
fn build_meta(root: &YamlNode) -> (r: Meta)
    ensures
        meta_entries_dv(r.entries@) == spec_build_meta(*root),
{
    match root {
        YamlNode::Mapping(_) => {
            match yaml_to_meta(root) {
                MetaValue::Mapping(entries) => {
                    assert(meta_entries_dv(entries@) == spec_build_meta(*root));
                    Meta { entries }
                },
                _ => {
                    assert(false);
                    Meta { entries: Vec::new() }
                },
            }
        },
        _ => {
            let r = Meta { entries: Vec::new() };
            assert(meta_entries_dv(r.entries@) =~= Seq::<(Seq<char>, MetaValueV)>::empty());
            r
        },
    }
}

/// Parses an optional front-matter text into metadata: absent or empty
/// text gives empty metadata; text that does not parse gives a
/// `YamlError`.
pub fn parse_yaml_meta(yaml: Option<&str>) -> (r: Result<Meta, PandorustError>)
    ensures
        match yaml {
            None => r matches Ok(m) && m.entries@.len() == 0,
            Some(y) => {
                if y@.len() == 0 {
                    r matches Ok(m) && m.entries@.len() == 0
                } else {
                    match yaml_parse_of(y@) {
                        Some(n) => r matches Ok(m) && meta_entries_dv(m.entries@)
                            == spec_build_meta(n),
                        None => r matches Err(e) && e is YamlError,
                    }
                }
            },
        },
{
    match yaml {
        None => Ok(Meta { entries: Vec::new() }),
        Some(y) => {
            if y.unicode_len() == 0 {
                return Ok(Meta { entries: Vec::new() });
            }
            match parse_yaml(y) {
                Ok(node) => Ok(build_meta(&node)),
                Err(e) => Err(PandorustError::YamlError(yaml_error_message(&e))),
            }
        },
    }
}


// ---------------------------------------------------------------------
// Verified normalization of the concrete-syntax tree.
// ---------------------------------------------------------------------

/// The page-break sentinel that a raw HTML block may hold.
pub open spec fn spec_page_sentinel() -> Seq<char> {
    "<div style=\"page-break-after: always;\"></div>"@
}

/// The block for one parse-tree node, per the fixed node-by-node mapping.
pub open spec fn spec_convert_node(n: CstNode) -> BlockV
    decreases n,
{
    match n.kind {
        CstKind::Paragraph => BlockV::Para(spec_collect_inlines(n.children@)),
        CstKind::Heading(level) => BlockV::Heading(
            empty_attr_v(),
            level,
            spec_collect_inlines(n.children@),
        ),
        CstKind::CodeBlock(info, lit) => BlockV::CodeBlock(
            AttrV {
                id: Seq::empty(),
                classes: if info@.len() == 0 {
                    Seq::empty()
                } else {
                    seq![info@]
                },
                attrs: Seq::empty(),
            },
            lit@,
        ),
        CstKind::BlockQuote => BlockV::BlockQuote(spec_convert_children(n.children@)),
        CstKind::List(bullet, start) => if bullet {
            BlockV::BulletList(spec_convert_items(n.children@))
        } else {
            BlockV::OrderedList(
                ListAttrs {
                    start: start as u32,
                    style: crate::ast::ListNumberStyle::Decimal,
                    delim: crate::ast::ListNumberDelim::Period,
                },
                spec_convert_items(n.children@),
            )
        },
        CstKind::ThematicBreak => BlockV::HorizontalRule,
        CstKind::Table(aligns) => spec_convert_table(n.children@, aligns@),
        CstKind::HtmlBlock(lit) => {
            let t = spec_trim(lit@);
            if t == spec_page_sentinel() || t == "\\newpage"@ {
                BlockV::PageBreak
            } else {
                BlockV::RawBlock("html"@, lit@)
            }
        },
        _ => {
            let is = spec_collect_inlines(n.children@);
            if is.len() == 0 {
                BlockV::Plain(Seq::empty())
            } else {
                BlockV::Para(is)
            }
        },
    }
}

/// The blocks for a sequence of parse-tree nodes.
pub open spec fn spec_convert_children(ns: Seq<CstNode>) -> Seq<BlockV>
    decreases ns,
{
    if ns.len() == 0 {
        Seq::empty()
    } else {
        spec_convert_children(ns.drop_last()).push(spec_convert_node(ns.last()))
    }
}

/// The item block lists of a list node's item children.
pub open spec fn spec_convert_items(items: Seq<CstNode>) -> Seq<Seq<BlockV>>
    decreases items,
{
    if items.len() == 0 {
        Seq::empty()
    } else {
        spec_convert_items(items.drop_last()).push(
            spec_convert_children(items.last().children@),
        )
    }
}

/// The inlines collected from a node sequence, conversions flattened.
pub open spec fn spec_collect_inlines(ns: Seq<CstNode>) -> Seq<InlineV>
    decreases ns,
{
    if ns.len() == 0 {
        Seq::empty()
    } else {
        spec_collect_inlines(ns.drop_last()) + spec_convert_inline(ns.last())
    }
}

/// The inlines for one parse-tree node: recognized inline nodes map to
/// their counterparts; an unrecognized node flattens into its children's
/// conversions.
pub open spec fn spec_convert_inline(n: CstNode) -> Seq<InlineV>
    decreases n,
{
    match n.kind {
        CstKind::Text(s) => seq![InlineV::Str(s@)],
        CstKind::SoftBreak => seq![InlineV::SoftBreak],
        CstKind::LineBreak => seq![InlineV::LineBreak],
        CstKind::Code(lit) => seq![InlineV::Code(empty_attr_v(), lit@)],
        CstKind::Emph => seq![InlineV::Emph(spec_collect_inlines(n.children@))],
        CstKind::Strong => seq![InlineV::Strong(spec_collect_inlines(n.children@))],
        CstKind::Strikethrough => seq![InlineV::Strikeout(spec_collect_inlines(n.children@))],
        CstKind::Superscript => seq![InlineV::Superscript(spec_collect_inlines(n.children@))],
        CstKind::Link(url, title) => seq![
            InlineV::Link(
                empty_attr_v(),
                spec_collect_inlines(n.children@),
                TargetV { url: url@, title: title@ },
            ),
        ],
        CstKind::Image(url, title) => seq![
            InlineV::Image(
                empty_attr_v(),
                spec_collect_inlines(n.children@),
                TargetV { url: url@, title: title@ },
            ),
        ],
        CstKind::HtmlInline(s) => seq![InlineV::RawInline("html"@, s@)],
        _ => spec_collect_inlines(n.children@),
    }
}

/// The column alignment for one parsed alignment.
pub open spec fn spec_align_of(a: CstAlign) -> Alignment {
    match a {
        CstAlign::Default => Alignment::AlignDefault,
        CstAlign::Left => Alignment::AlignLeft,
        CstAlign::Right => Alignment::AlignRight,
        CstAlign::Center => Alignment::AlignCenter,
    }
}

/// The column specs for the parsed alignments: alignment copied, width
/// inherited.
pub open spec fn spec_aligns_cols(aligns: Seq<CstAlign>) -> Seq<ColSpecDv>
    decreases aligns,
{
    if aligns.len() == 0 {
        Seq::empty()
    } else {
        spec_aligns_cols(aligns.drop_last()).push(
            ColSpecDv { align: spec_align_of(aligns.last()), width: ColWidthDv::Default },
        )
    }
}

/// The cells of one parsed table row: default attributes and spans of 1,
/// the content a single plain run of the cell's inlines.
pub open spec fn spec_convert_cells(cells: Seq<CstNode>) -> Seq<CellDv>
    decreases cells,
{
    if cells.len() == 0 {
        Seq::empty()
    } else {
        spec_convert_cells(cells.drop_last()).push(
            CellDv {
                attr: empty_attr_v(),
                align: Alignment::AlignDefault,
                row_span: 1,
                col_span: 1,
                content: seq![BlockV::Plain(spec_collect_inlines(cells.last().children@))],
            },
        )
    }
}

/// One parsed table row.
pub open spec fn spec_convert_row(n: CstNode) -> RowDv
    decreases n,
{
    RowDv { attr: empty_attr_v(), cells: spec_convert_cells(n.children@) }
}

/// The rows of a sequence of parsed row nodes.
pub open spec fn spec_convert_rows(ns: Seq<CstNode>) -> Seq<RowDv>
    decreases ns,
{
    if ns.len() == 0 {
        Seq::empty()
    } else {
        spec_convert_rows(ns.drop_last()).push(spec_convert_row(ns.last()))
    }
}

/// The table for a parsed table node: the first row is the head, every
/// later row lands in a single body section, captions and spans absent.
pub open spec fn spec_convert_table(children: Seq<CstNode>, aligns: Seq<CstAlign>) -> BlockV {
    BlockV::Table(
        TableDv {
            attr: empty_attr_v(),
            caption: crate::ast::table::CaptionDv { short: None, long: Seq::empty() },
            col_specs: spec_aligns_cols(aligns),
            head_attr: empty_attr_v(),
            head_rows: if children.len() > 0 {
                seq![spec_convert_row(children[0])]
            } else {
                Seq::empty()
            },
            bodies: seq![
                TableBodyDv {
                    attr: empty_attr_v(),
                    row_head_columns: 0,
                    head: Seq::empty(),
                    body: if children.len() == 0 {
                        Seq::empty()
                    } else {
                        spec_convert_rows(children.drop_first())
                    },
                },
            ],
            foot_attr: empty_attr_v(),
            foot_rows: Seq::empty(),
        },
    )
}


/// Converts the children of a parse-tree node into blocks.
pub fn convert_children(ns: &Vec<CstNode>) -> (r: Vec<Block>)
    ensures
        blocks_dv(r@) == spec_convert_children(ns@),
    decreases *ns,
{
    let mut out: Vec<Block> = Vec::new();
    let mut i: usize = 0;
    assert(blocks_dv(out@) =~= spec_convert_children(ns@.take(0)));
    while i < ns.len()
        invariant
            i <= ns@.len(),
            blocks_dv(out@) == spec_convert_children(ns@.take(i as int)),
        decreases ns@.len() - i,
    {
        let b = convert_node(&ns[i]);
        let ghost bv = crate::ast::block::block_dv(b);
        let ghost prev = out@;
        out.push(b);
        proof {
            assert(out@.drop_last() =~= prev);
            assert(blocks_dv(out@) =~= blocks_dv(prev).push(bv));
            assert(ns@.take(i + 1).drop_last() =~= ns@.take(i as int));
            assert(ns@.take(i + 1).last() == ns@[i as int]);
            assert(blocks_dv(out@) =~= spec_convert_children(ns@.take(i + 1)));
        }
        i = i + 1;
    }
    assert(ns@.take(ns@.len() as int) =~= ns@);
    out
}

/// Converts the item children of a list node into item block lists.
fn convert_items(items: &Vec<CstNode>) -> (r: Vec<Vec<Block>>)
    ensures
        crate::ast::block::block_lists_dv(r@) == spec_convert_items(items@),
    decreases *items,
{
    let mut out: Vec<Vec<Block>> = Vec::new();
    let mut i: usize = 0;
    assert(crate::ast::block::block_lists_dv(out@) =~= spec_convert_items(items@.take(0)));
    while i < items.len()
        invariant
            i <= items@.len(),
            crate::ast::block::block_lists_dv(out@) == spec_convert_items(items@.take(i as int)),
        decreases items@.len() - i,
    {
        proof {
            assert(decreases_to!(*items => items@));
            assert(decreases_to!(items@ => items@[i as int]));
            assert(decreases_to!(items@[i as int] => items@[i as int].children));
        }
        let bs = convert_children(&items[i].children);
        let ghost bsv = blocks_dv(bs@);
        let ghost prev = out@;
        out.push(bs);
        proof {
            assert(out@.drop_last() =~= prev);
            assert(crate::ast::block::block_lists_dv(out@)
                =~= crate::ast::block::block_lists_dv(prev).push(bsv));
            assert(items@.take(i + 1).drop_last() =~= items@.take(i as int));
            assert(items@.take(i + 1).last() == items@[i as int]);
            assert(crate::ast::block::block_lists_dv(out@) =~= spec_convert_items(
                items@.take(i + 1),
            ));
        }
        i = i + 1;
    }
    assert(items@.take(items@.len() as int) =~= items@);
    out
}

/// Collects the inline conversions of a node sequence, flattened.
pub fn collect_inlines(ns: &Vec<CstNode>) -> (r: Vec<Inline>)
    ensures
        inlines_dv(r@) == spec_collect_inlines(ns@),
    decreases *ns,
{
    let mut out: Vec<Inline> = Vec::new();
    let mut i: usize = 0;
    assert(inlines_dv(out@) =~= spec_collect_inlines(ns@.take(0)));
    while i < ns.len()
        invariant
            i <= ns@.len(),
            inlines_dv(out@) == spec_collect_inlines(ns@.take(i as int)),
        decreases ns@.len() - i,
    {
        let mut part = convert_inline(&ns[i]);
        let ghost partv = part@;
        let ghost prev = out@;
        out.append(&mut part);
        proof {
            crate::ast::inline::lemma_inlines_dv_add(prev, partv);
            assert(ns@.take(i + 1).drop_last() =~= ns@.take(i as int));
            assert(ns@.take(i + 1).last() == ns@[i as int]);
        }
        i = i + 1;
    }
    assert(ns@.take(ns@.len() as int) =~= ns@);
    out
}

/// Converts one parse-tree node into inlines.
#[verifier::rlimit(100)]
fn convert_inline(n: &CstNode) -> (r: Vec<Inline>)
    ensures
        inlines_dv(r@) == spec_convert_inline(*n),
    decreases *n,
{
    let mut out: Vec<Inline> = Vec::new();
    assert(inlines_dv(out@) =~= Seq::<InlineV>::empty());
    match &n.kind {
        CstKind::Text(s) => {
            let v = Inline::Str(s.clone());
            let ghost vv = crate::ast::inline::inline_dv(v);
            out.push(v);
            proof {
                assert(out@.drop_last() =~= Seq::<Inline>::empty());
                assert(inlines_dv(out@) =~= seq![vv]);
                assert(inlines_dv(out@) =~= spec_convert_inline(*n));
            }
        },
        CstKind::SoftBreak => {
            let v = Inline::SoftBreak;
            let ghost vv = crate::ast::inline::inline_dv(v);
            out.push(v);
            proof {
                assert(out@.drop_last() =~= Seq::<Inline>::empty());
                assert(inlines_dv(out@) =~= seq![vv]);
                assert(inlines_dv(out@) =~= spec_convert_inline(*n));
            }
        },
        CstKind::LineBreak => {
            let v = Inline::LineBreak;
            let ghost vv = crate::ast::inline::inline_dv(v);
            out.push(v);
            proof {
                assert(out@.drop_last() =~= Seq::<Inline>::empty());
                assert(inlines_dv(out@) =~= seq![vv]);
                assert(inlines_dv(out@) =~= spec_convert_inline(*n));
            }
        },
        CstKind::Code(lit) => {
            let at = Attr::empty();
            proof {
                lemma_attr_empty_dv(at);
            }
            let v = Inline::Code(at, lit.clone());
            let ghost vv = crate::ast::inline::inline_dv(v);
            out.push(v);
            proof {
                assert(out@.drop_last() =~= Seq::<Inline>::empty());
                assert(inlines_dv(out@) =~= seq![vv]);
                assert(inlines_dv(out@) =~= spec_convert_inline(*n));
            }
        },
        CstKind::Emph => {
            let v = Inline::Emph(collect_inlines(&n.children));
            let ghost vv = crate::ast::inline::inline_dv(v);
            out.push(v);
            proof {
                assert(out@.drop_last() =~= Seq::<Inline>::empty());
                assert(inlines_dv(out@) =~= seq![vv]);
                assert(inlines_dv(out@) =~= spec_convert_inline(*n));
            }
        },
        CstKind::Strong => {
            let v = Inline::Strong(collect_inlines(&n.children));
            let ghost vv = crate::ast::inline::inline_dv(v);
            out.push(v);
            proof {
                assert(out@.drop_last() =~= Seq::<Inline>::empty());
                assert(inlines_dv(out@) =~= seq![vv]);
                assert(inlines_dv(out@) =~= spec_convert_inline(*n));
            }
        },
        CstKind::Strikethrough => {
            let v = Inline::Strikeout(collect_inlines(&n.children));
            let ghost vv = crate::ast::inline::inline_dv(v);
            out.push(v);
            proof {
                assert(out@.drop_last() =~= Seq::<Inline>::empty());
                assert(inlines_dv(out@) =~= seq![vv]);
                assert(inlines_dv(out@) =~= spec_convert_inline(*n));
            }
        },
        CstKind::Superscript => {
            let v = Inline::Superscript(collect_inlines(&n.children));
            let ghost vv = crate::ast::inline::inline_dv(v);
            out.push(v);
            proof {
                assert(out@.drop_last() =~= Seq::<Inline>::empty());
                assert(inlines_dv(out@) =~= seq![vv]);
                assert(inlines_dv(out@) =~= spec_convert_inline(*n));
            }
        },
        CstKind::Link(url, title) => {
            let at = Attr::empty();
            proof {
                lemma_attr_empty_dv(at);
            }
            let v = Inline::Link(
                at,
                collect_inlines(&n.children),
                Target { url: url.clone(), title: title.clone() },
            );
            let ghost vv = crate::ast::inline::inline_dv(v);
            out.push(v);
            proof {
                assert(out@.drop_last() =~= Seq::<Inline>::empty());
                assert(inlines_dv(out@) =~= seq![vv]);
                assert(inlines_dv(out@) =~= spec_convert_inline(*n));
            }
        },
        CstKind::Image(url, title) => {
            let at = Attr::empty();
            proof {
                lemma_attr_empty_dv(at);
            }
            let v = Inline::Image(
                at,
                collect_inlines(&n.children),
                Target { url: url.clone(), title: title.clone() },
            );
            let ghost vv = crate::ast::inline::inline_dv(v);
            out.push(v);
            proof {
                assert(out@.drop_last() =~= Seq::<Inline>::empty());
                assert(inlines_dv(out@) =~= seq![vv]);
                assert(inlines_dv(out@) =~= spec_convert_inline(*n));
            }
        },
        CstKind::HtmlInline(s) => {
            let v = Inline::RawInline(Format("html".to_owned()), s.clone());
            let ghost vv = crate::ast::inline::inline_dv(v);
            out.push(v);
            proof {
                assert(out@.drop_last() =~= Seq::<Inline>::empty());
                assert(inlines_dv(out@) =~= seq![vv]);
                assert(inlines_dv(out@) =~= spec_convert_inline(*n));
            }
        },
        _ => {
            let mut r = collect_inlines(&n.children);
            let ghost rv = r@;
            out.append(&mut r);
            assert(out@ =~= rv);
            assert(inlines_dv(out@) == spec_convert_inline(*n));
        },
    }
    out
}

/// Converts one parsed table row.
fn convert_row(n: &CstNode) -> (r: Row)
    ensures
        crate::ast::table::row_dv(r) == spec_convert_row(*n),
    decreases *n,
{
    let mut cells: Vec<Cell> = Vec::new();
    let mut i: usize = 0;
    assert(crate::ast::table::cells_dv(cells@) =~= spec_convert_cells(n.children@.take(0)));
    while i < n.children.len()
        invariant
            i <= n.children@.len(),
            crate::ast::table::cells_dv(cells@) == spec_convert_cells(
                n.children@.take(i as int),
            ),
        decreases n.children@.len() - i,
    {
        proof {
            assert(decreases_to!(*n => n.children));
            assert(decreases_to!(n.children => n.children@));
            assert(decreases_to!(n.children@ => n.children@[i as int]));
            assert(decreases_to!(n.children@[i as int] => n.children@[i as int].children));
        }
        let inlines = collect_inlines(&n.children[i].children);
        let ghost iv = inlines_dv(inlines@);
        let mut content: Vec<Block> = Vec::new();
        content.push(Block::Plain(inlines));
        let at = Attr::empty();
        proof {
            lemma_attr_empty_dv(at);
        }
        let cell = Cell {
            attr: at,
            align: Alignment::AlignDefault,
            row_span: 1,
            col_span: 1,
            content,
        };
        let ghost cv = crate::ast::table::cell_dv(cell);
        proof {
            assert(cell.content@.drop_last() =~= Seq::<Block>::empty());
            assert(blocks_dv(cell.content@) =~= seq![BlockV::Plain(iv)]);
        }
        let ghost prev = cells@;
        cells.push(cell);
        proof {
            assert(cells@.drop_last() =~= prev);
            assert(crate::ast::table::cells_dv(cells@) =~= crate::ast::table::cells_dv(
                prev,
            ).push(cv));
            assert(n.children@.take(i + 1).drop_last() =~= n.children@.take(i as int));
            assert(n.children@.take(i + 1).last() == n.children@[i as int]);
            assert(crate::ast::table::cells_dv(cells@) =~= spec_convert_cells(
                n.children@.take(i + 1),
            ));
        }
        i = i + 1;
    }
    assert(n.children@.take(n.children@.len() as int) =~= n.children@);
    let at = Attr::empty();
    proof {
        lemma_attr_empty_dv(at);
    }
    let r = Row { attr: at, cells };
    r
}


/// Converts one parsed table node into a table block.
#[verifier::rlimit(100)]
#[verifier::spinoff_prover]
fn convert_table(n: &CstNode, aligns: &Vec<CstAlign>) -> (r: Block)
    ensures
        crate::ast::block::block_dv(r) == spec_convert_table(n.children@, aligns@),
    decreases *n,
{
    // Column specs from the parsed alignments.
    let mut col_specs: Vec<ColSpec> = Vec::new();
    let mut a: usize = 0;
    assert(crate::ast::table::col_specs_dv(col_specs@) =~= spec_aligns_cols(aligns@.take(0)));
    while a < aligns.len()
        invariant
            a <= aligns@.len(),
            crate::ast::table::col_specs_dv(col_specs@) == spec_aligns_cols(
                aligns@.take(a as int),
            ),
        decreases aligns@.len() - a,
    {
        let al = match &aligns[a] {
            CstAlign::Default => Alignment::AlignDefault,
            CstAlign::Left => Alignment::AlignLeft,
            CstAlign::Right => Alignment::AlignRight,
            CstAlign::Center => Alignment::AlignCenter,
        };
        let cs = ColSpec { align: al, width: ColWidth::Default };
        let ghost prev = col_specs@;
        col_specs.push(cs);
        proof {
            assert(col_specs@.drop_last() =~= prev);
            assert(crate::ast::table::col_specs_dv(col_specs@)
                =~= crate::ast::table::col_specs_dv(prev).push(
                ColSpecDv { align: al, width: ColWidthDv::Default },
            ));
            assert(aligns@.take(a + 1).drop_last() =~= aligns@.take(a as int));
            assert(aligns@.take(a + 1).last() == aligns@[a as int]);
            assert(crate::ast::table::col_specs_dv(col_specs@) =~= spec_aligns_cols(
                aligns@.take(a + 1),
            ));
        }
        a = a + 1;
    }
    assert(aligns@.take(aligns@.len() as int) =~= aligns@);

    // The first row is the head; every later row lands in one body.
    let mut head_rows: Vec<Row> = Vec::new();
    let mut body_rows: Vec<Row> = Vec::new();
    if n.children.len() > 0 {
        proof {
            assert(decreases_to!(*n => n.children));
            assert(decreases_to!(n.children => n.children@));
            assert(decreases_to!(n.children@ => n.children@[0]));
        }
        let hr = convert_row(&n.children[0]);
        let ghost hrv = crate::ast::table::row_dv(hr);
        head_rows.push(hr);
        proof {
            assert(head_rows@.len() == 1);
            assert(head_rows@.drop_last() =~= Seq::<Row>::empty());
            assert(crate::ast::table::rows_dv(Seq::<Row>::empty()) =~= Seq::<RowDv>::empty());
            assert(head_rows@.last() == head_rows@[0]);
            assert(crate::ast::table::rows_dv(head_rows@) =~= seq![hrv]);
            assert(crate::ast::table::rows_dv(head_rows@) =~= seq![
                spec_convert_row(n.children@[0]),
            ]);
        }
        let ghost rest = n.children@.drop_first();
        let mut i: usize = 1;
        assert(crate::ast::table::rows_dv(body_rows@) =~= spec_convert_rows(rest.take(0)));
        while i < n.children.len()
            invariant
                1 <= i <= n.children@.len(),
                rest == n.children@.drop_first(),
                crate::ast::table::rows_dv(body_rows@) == spec_convert_rows(rest.take(i - 1)),
            decreases n.children@.len() - i,
        {
            proof {
                assert(decreases_to!(*n => n.children));
                assert(decreases_to!(n.children => n.children@));
                assert(decreases_to!(n.children@ => n.children@[i as int]));
            }
            let row = convert_row(&n.children[i]);
            let ghost rv = crate::ast::table::row_dv(row);
            let ghost prev = body_rows@;
            body_rows.push(row);
            proof {
                assert(body_rows@.drop_last() =~= prev);
                assert(crate::ast::table::rows_dv(body_rows@)
                    =~= crate::ast::table::rows_dv(prev).push(rv));
                assert(rest.take(i as int).drop_last() =~= rest.take(i - 1));
                assert(rest.take(i as int).last() == rest[i - 1]);
                assert(rest[i - 1] == n.children@[i as int]);
                assert(crate::ast::table::rows_dv(body_rows@) =~= spec_convert_rows(
                    rest.take(i as int),
                ));
            }
            i = i + 1;
        }
        assert(rest.take(n.children@.len() - 1) =~= rest);
    }

    let a1 = Attr::empty();
    let a2 = Attr::empty();
    let a3 = Attr::empty();
    let a4 = Attr::empty();
    proof {
        lemma_attr_empty_dv(a1);
        lemma_attr_empty_dv(a2);
        lemma_attr_empty_dv(a3);
        lemma_attr_empty_dv(a4);
    }
    let mut bs: Vec<TableBody> = Vec::new();
    bs.push(TableBody { attr: a3, row_head_columns: 0, head: Vec::new(), body: body_rows });
    let t = Table {
        attr: a1,
        caption: Caption { short: None, long: Vec::new() },
        col_specs,
        head: TableHead { attr: a2, rows: head_rows },
        bodies: bs,
        foot: TableFoot { attr: a4, rows: Vec::new() },
    };
    let r = Block::Table(t);
    proof {
        let tv = crate::ast::table::table_dv(t);
        let sv = spec_convert_table(n.children@, aligns@);
        assert(t.bodies@.drop_last() =~= Seq::<TableBody>::empty());
        assert(crate::ast::table::bodies_dv(Seq::<TableBody>::empty()) =~= Seq::<
            TableBodyDv,
        >::empty());
        assert(t.bodies@.last().head@ =~= Seq::<Row>::empty());
        assert(crate::ast::table::rows_dv(Seq::<Row>::empty()) =~= Seq::<RowDv>::empty());
        assert(tv.bodies =~= seq![tv.bodies[0]]);
        if n.children@.len() == 0 {
            assert(tv.head_rows =~= Seq::<RowDv>::empty());
            assert(tv.bodies[0].body =~= Seq::<RowDv>::empty());
        }
        assert(crate::ast::block::blocks_dv(Seq::<Block>::empty()) =~= Seq::<BlockV>::empty());
        assert(tv.caption.long =~= Seq::<BlockV>::empty());
        assert(tv.foot_rows =~= Seq::<RowDv>::empty());
        assert(tv.attr =~~= empty_attr_v());
        assert(tv.caption =~~= crate::ast::table::CaptionDv { short: None, long: Seq::empty() });
        assert(tv.col_specs =~~= spec_aligns_cols(aligns@));
        assert(tv.head_attr =~~= empty_attr_v());
        assert(tv.head_rows =~~= (if n.children@.len() > 0 {
            seq![spec_convert_row(n.children@[0])]
        } else {
            Seq::<RowDv>::empty()
        }));
        assert(tv.bodies =~~= seq![
            TableBodyDv {
                attr: empty_attr_v(),
                row_head_columns: 0,
                head: Seq::empty(),
                body: if n.children@.len() == 0 {
                    Seq::<RowDv>::empty()
                } else {
                    spec_convert_rows(n.children@.drop_first())
                },
            },
        ]);
        assert(tv.foot_attr =~~= empty_attr_v());
        assert(tv.foot_rows =~~= Seq::<RowDv>::empty());
        assert(crate::ast::block::block_dv(r) =~~= sv);
    }
    r
}

/// Converts one parse-tree node into a block, per the fixed node-by-node
/// mapping.
#[verifier::rlimit(100)]
#[verifier::spinoff_prover]
pub fn convert_node(n: &CstNode) -> (r: Block)
    ensures
        crate::ast::block::block_dv(r) == spec_convert_node(*n),
    decreases *n,
{
    match &n.kind {
        CstKind::Paragraph => {
            let r = Block::Para(collect_inlines(&n.children));
            assert(crate::ast::block::block_dv(r) == spec_convert_node(*n));
            r
        },
        CstKind::Heading(level) => {
            let at = Attr::empty();
            proof {
                lemma_attr_empty_dv(at);
            }
            let r = Block::Heading(at, *level, collect_inlines(&n.children));
            assert(crate::ast::block::block_dv(r) == spec_convert_node(*n));
            r
        },
        CstKind::CodeBlock(info, lit) => {
            let attr = if info.as_str().unicode_len() == 0 {
                let at = Attr::empty();
                proof {
                    lemma_attr_empty_dv(at);
                }
                at
            } else {
                let mut classes: Vec<String> = Vec::new();
                classes.push(info.clone());
                let at = Attr { id: String::new(), classes, attrs: Vec::new() };
                proof {
                    assert(at.classes@.drop_last() =~= Seq::<String>::empty());
                    assert(attr_dv(at).classes =~= seq![info@]);
                    assert(attr_dv(at).id =~= Seq::<char>::empty());
                    assert(attr_dv(at).attrs =~= Seq::<(Seq<char>, Seq<char>)>::empty());
                }
                at
            };
            let r = Block::CodeBlock(attr, lit.clone());
            assert(crate::ast::block::block_dv(r) == spec_convert_node(*n));
            r
        },
        CstKind::BlockQuote => {
            let r = Block::BlockQuote(convert_children(&n.children));
            assert(crate::ast::block::block_dv(r) == spec_convert_node(*n));
            r
        },
        CstKind::List(bullet, start) => {
            let items = convert_items(&n.children);
            if *bullet {
                let r = Block::BulletList(items);
                assert(crate::ast::block::block_dv(r) == spec_convert_node(*n));
                r
            } else {
                let st: u32 = #[verifier::truncate] (*start as u32);
                let r = Block::OrderedList(
                    ListAttrs {
                        start: st,
                        style: crate::ast::ListNumberStyle::Decimal,
                        delim: crate::ast::ListNumberDelim::Period,
                    },
                    items,
                );
                assert(crate::ast::block::block_dv(r) == spec_convert_node(*n));
                r
            }
        },
        CstKind::ThematicBreak => {
            let r = Block::HorizontalRule;
            assert(crate::ast::block::block_dv(r) == spec_convert_node(*n));
            r
        },
        CstKind::Table(aligns) => {
            let r = convert_table(n, aligns);
            assert(crate::ast::block::block_dv(r) == spec_convert_node(*n));
            r
        },
        CstKind::HtmlBlock(lit) => {
            let cs = chars_of(lit.as_str());
            let t = trim_chars(cs.as_slice());
            let is_sentinel = chars_eq_str(
                t.as_slice(),
                "<div style=\"page-break-after: always;\"></div>",
            ) || chars_eq_str(t.as_slice(), "\\newpage");
            if is_sentinel {
                let r = Block::PageBreak;
                assert(crate::ast::block::block_dv(r) == spec_convert_node(*n));
                r
            } else {
                let r = Block::RawBlock(Format("html".to_owned()), lit.clone());
                assert(crate::ast::block::block_dv(r) == spec_convert_node(*n));
                r
            }
        },
        _ => {
            let inlines = collect_inlines(&n.children);
            if inlines.len() == 0 {
                let r = Block::Plain(inlines);
                proof {
                    assert(inlines_dv(Seq::<Inline>::empty()) =~= Seq::<InlineV>::empty());
                }
                assert(crate::ast::block::block_dv(r) == spec_convert_node(*n));
                r
            } else {
                let r = Block::Para(inlines);
                assert(crate::ast::block::block_dv(r) == spec_convert_node(*n));
                r
            }
        },
    }
}


// ---------------------------------------------------------------------
// Front-matter splitting and the top-level reader.
// ---------------------------------------------------------------------

/// The index of the first occurrence of a newline followed by three
/// dashes, or -1 when there is none.
pub open spec fn spec_find_close(s: Seq<char>) -> int
    decreases s.len(),
{
    if s.len() < 4 {
        -1
    } else if s.take(4) == "\n---"@ {
        0
    } else {
        let r = spec_find_close(s.drop_first());
        if r < 0 {
            -1
        } else {
            1 + r
        }
    }
}

/// When nothing before `m` matches and `m` matches, `m` is the first
/// match.
proof fn lemma_find_close_at(s: Seq<char>, m: int)
    requires
        0 <= m,
        m + 4 <= s.len(),
        s.subrange(m, m + 4) == "\n---"@,
        forall|k: int| 0 <= k < m ==> #[trigger] s.subrange(k, k + 4) != "\n---"@,
    ensures
        spec_find_close(s) == m,
    decreases m,
{
    if m == 0 {
        assert(s.take(4) =~= s.subrange(0int, 0int + 4));
    } else {
        assert(s.subrange(0int, 0int + 4) != "\n---"@);
        assert(s.take(4) =~= s.subrange(0int, 0int + 4));
        assert forall|k: int| 0 <= k < m - 1 implies #[trigger] s.drop_first().subrange(
            k,
            k + 4,
        ) != "\n---"@ by {
            assert(s.drop_first().subrange(k, k + 4) =~= s.subrange(k + 1, (k + 1) + 4));
            assert(s.subrange(k + 1, (k + 1) + 4) != "\n---"@);
        }
        assert(s.drop_first().subrange(m - 1, (m - 1) + 4) =~= s.subrange(m, m + 4));
        lemma_find_close_at(s.drop_first(), m - 1);
    }
}

/// When no window matches, there is no first match.
proof fn lemma_find_close_none(s: Seq<char>)
    requires
        forall|k: int| 0 <= k && k + 4 <= s.len() ==> #[trigger] s.subrange(k, k + 4) != "\n---"@,
    ensures
        spec_find_close(s) == -1,
    decreases s.len(),
{
    if s.len() >= 4 {
        assert(s.subrange(0int, 0int + 4) != "\n---"@);
        assert(s.take(4) =~= s.subrange(0int, 0int + 4));
        assert forall|k: int| 0 <= k && k + 4 <= s.drop_first().len() implies #[trigger] s
            .drop_first().subrange(k, k + 4) != "\n---"@ by {
            assert(s.drop_first().subrange(k, k + 4) =~= s.subrange(k + 1, (k + 1) + 4));
            assert(s.subrange(k + 1, (k + 1) + 4) != "\n---"@);
        }
        lemma_find_close_none(s.drop_first());
    }
}

/// Whether the text opens with a front-matter marker: a line of exactly
/// three dashes.  The three dashes must be followed by a line break (or
/// be the whole text); a line that merely begins with three dashes is no
/// marker.
pub open spec fn spec_fm_opens(t: Seq<char>) -> bool {
    &&& t.len() >= 3
    &&& t.take(3) == "---"@
    &&& (t.len() == 3 || t[3] == '\n' || (t.len() >= 5 && t[3] == '\r' && t[4] == '\n'))
}

/// The front matter and body of a source text.  When the text, after its
/// leading whitespace, opens with a line of exactly three dashes and a
/// later line starts with three dashes, the trimmed text between the two
/// markers is the front matter and what follows the closing marker is the
/// body; otherwise there is no front matter and the body is the whole
/// text.
pub open spec fn spec_fm_parts(s: Seq<char>) -> (Option<Seq<char>>, Seq<char>) {
    let t = spec_trim_start(s);
    if spec_fm_opens(t) {
        let rest = t.skip(3);
        let p = spec_find_close(rest);
        if p >= 0 {
            (Some(spec_trim(rest.take(p))), rest.skip(p + 4))
        } else {
            (None, s)
        }
    } else {
        (None, s)
    }
}

/// Splits a source text into its front matter, when present, and body.
#[verifier::rlimit(100)]
pub fn split_front_matter(input: &str) -> (r: (Option<String>, String))
    ensures
        ({
            let parts = spec_fm_parts(input@);
            &&& (match r.0 {
                Some(y) => parts.0 == Some(y@),
                None => parts.0 is None,
            })
            &&& r.1@ == parts.1
        }),
{
    proof {
        reveal_strlit("---");
        reveal_strlit("\n---");
    }
    let cs = chars_of(input);
    let len = cs.len();
    // Skip the leading whitespace.
    let mut a: usize = 0;
    assert(cs@.subrange(0, len as int) =~= cs@);
    while a < len && crate::strutil::is_space(cs[a])
        invariant
            a <= len,
            len == cs@.len(),
            cs@ == input@,
            spec_trim_start(input@) == spec_trim_start(cs@.subrange(a as int, len as int)),
        decreases len - a,
    {
        assert(cs@.subrange(a as int, len as int).drop_first() =~= cs@.subrange(
            a + 1,
            len as int,
        ));
        a = a + 1;
    }
    let ghost t = spec_trim_start(input@);
    assert(t == cs@.subrange(a as int, len as int));
    // Check the opening marker: a line of exactly three dashes.
    let opens = len - a >= 3 && cs[a] == '-' && cs[a + 1] == '-' && cs[a + 2] == '-';
    let exact = opens && (len - a == 3 || cs[a + 3] == '\n' || (len - a >= 5 && cs[a + 3]
        == '\r' && cs[a + 4] == '\n'));
    proof {
        assert(t.len() == len - a);
        if len - a >= 3 {
            assert(t.take(3) =~= seq![cs@[a as int], cs@[a + 1], cs@[a + 2]]);
            if cs@[a as int] == '-' && cs@[a + 1] == '-' && cs@[a + 2] == '-' {
                assert(t.take(3) =~= "---"@);
            } else {
                assert(t.take(3) != "---"@);
            }
            if len - a > 3 {
                assert(t[3] == cs@[a + 3]);
            }
            if len - a >= 5 {
                assert(t[4] == cs@[a + 4]);
            }
        }
        assert(exact == spec_fm_opens(t));
    }
    if !exact {
        return (None, input.to_owned());
    }
    let rs = a + 3;
    let ghost rest = t.skip(3);
    assert(rest =~= cs@.subrange(rs as int, len as int));
    // Scan for the closing marker.
    let mut j: usize = rs;
    let mut found = false;
    while !found && len - j >= 4
        invariant
            rs <= j <= len,
            len == cs@.len(),
            cs@ == input@,
            rest == cs@.subrange(rs as int, len as int),
            !found ==> forall|k: int|
                0 <= k < j - rs ==> #[trigger] rest.subrange(k, k + 4) != "\n---"@,
            found ==> {
                &&& j + 4 <= len
                &&& rest.subrange(j - rs, j - rs + 4) == "\n---"@
                &&& forall|k: int| 0 <= k < j - rs ==> #[trigger] rest.subrange(k, k + 4) != "\n---"@
            },
        decreases len - j + (if found {
            0int
        } else {
            1int
        }),
    {
        proof {
            reveal_strlit("\n---");
        }
        if cs[j] == '\n' && cs[j + 1] == '-' && cs[j + 2] == '-' && cs[j + 3] == '-' {
            proof {
                assert(rest.subrange(j - rs, j - rs + 4) =~= seq![
                    cs@[j as int],
                    cs@[j + 1],
                    cs@[j + 2],
                    cs@[j + 3],
                ]);
                assert(rest.subrange(j - rs, j - rs + 4) =~= "\n---"@);
            }
            found = true;
        } else {
            proof {
                assert(rest.subrange(j - rs, j - rs + 4) =~= seq![
                    cs@[j as int],
                    cs@[j + 1],
                    cs@[j + 2],
                    cs@[j + 3],
                ]);
                assert(rest.subrange(j - rs, j - rs + 4) != "\n---"@);
            }
            j = j + 1;
        }
    }
    if !found {
        proof {
            assert forall|k: int| 0 <= k && k + 4 <= rest.len() implies #[trigger] rest.subrange(
                k,
                k + 4,
            ) != "\n---"@ by {
                assert(k < j - rs);
            }
            lemma_find_close_none(rest);
        }
        return (None, input.to_owned());
    }
    proof {
        lemma_find_close_at(rest, j - rs);
    }
    // The front matter is the trimmed text between the markers; the body
    // follows the closing marker.
    let ysub = vstd::slice::slice_subrange(cs.as_slice(), rs, j);
    let ytrim = trim_chars(ysub);
    let yaml = string_from_chars(ytrim.as_slice());
    let bsub = vstd::slice::slice_subrange(cs.as_slice(), j + 4, len);
    let body = string_from_chars(bsub);
    proof {
        let p = spec_find_close(rest);
        assert(rest.take(p) =~= cs@.subrange(rs as int, j as int));
        assert(rest.skip(p + 4) =~= cs@.subrange(j + 4, len as int));
    }
    (Some(yaml), body)
}

/// Parses a source text into a document: the front matter becomes the
/// metadata, and the body, rewritten by the grid-table preprocessor and
/// parsed by the external Markdown parser, becomes the blocks.  The one
/// failure is a front-matter block that does not parse.
pub fn read_markdown(input: &str) -> (r: Result<Document, PandorustError>)
    ensures
        ({
            let parts = spec_fm_parts(input@);
            match r {
                Ok(doc) => {
                    &&& blocks_dv(doc.blocks@) == spec_convert_children(
                        md_cst_of(crate::readers::grid_table::spec_preprocess(parts.1)),
                    )
                    &&& (match parts.0 {
                        None => doc.meta.entries@.len() == 0,
                        Some(y) => if y.len() == 0 {
                            doc.meta.entries@.len() == 0
                        } else {
                            yaml_parse_of(y) matches Some(nd) && meta_entries_dv(
                                doc.meta.entries@,
                            ) == spec_build_meta(nd)
                        },
                    })
                },
                Err(e) => {
                    &&& e is YamlError
                    &&& parts.0 matches Some(y) && y.len() > 0 && yaml_parse_of(y) is None
                },
            }
        }),
{
    let (yaml_opt, body) = split_front_matter(input);
    let yaml_ref: Option<&str> = match &yaml_opt {
        Some(y) => Some(y.as_str()),
        None => None,
    };
    let meta = match parse_yaml_meta(yaml_ref) {
        Ok(m) => m,
        Err(e) => {
            return Err(e);
        },
    };
    let pre = preprocess_grid_tables(body.as_str());
    let cst = md_parse(pre.as_str());
    let blocks = convert_children(&cst);
    Ok(Document { meta, blocks })
}

} // verus!

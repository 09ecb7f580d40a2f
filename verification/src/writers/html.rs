//! The HTML renderer: turns a `Document` into a self-contained styled HTML
//! string.  Rendering is a pure function of the document; the exact output
//! is pinned down by the `spec_*` functions in this module.

use vstd::prelude::*;

use crate::ast::block::Block;
use crate::ast::inline::Inline;
use crate::ast::meta::{spec_meta_get_str, Attr, Document, Meta};
use crate::ast::table::{Alignment, Cell, Row, Table, TableBody};
use crate::ast::{MathType, QuoteType};
use crate::strutil::{
    append_decimal, append_str, chars_of, spec_decimal, str_eq, string_from_chars,
};
use vstd::string::StrSliceExecFns;

verus! {

/// The escaped form of one character in HTML text content: `& < > " '`
/// become entities, everything else stands as itself.
pub open spec fn spec_escape_html_char(c: char) -> Seq<char> {
    if c == '&' {
        "&amp;"@
    } else if c == '<' {
        "&lt;"@
    } else if c == '>' {
        "&gt;"@
    } else if c == '"' {
        "&quot;"@
    } else if c == '\'' {
        "&#39;"@
    } else {
        seq![c]
    }
}

/// The escaped form of HTML text content.
pub open spec fn spec_escape_html(s: Seq<char>) -> Seq<char>
    decreases s.len(),
{
    if s.len() == 0 {
        Seq::empty()
    } else {
        spec_escape_html(s.drop_last()) + spec_escape_html_char(s.last())
    }
}

/// The escaped form of one character in a double-quoted attribute value:
/// `& " < >` become entities, everything else stands as itself.
pub open spec fn spec_escape_attr_char(c: char) -> Seq<char> {
    if c == '&' {
        "&amp;"@
    } else if c == '"' {
        "&quot;"@
    } else if c == '<' {
        "&lt;"@
    } else if c == '>' {
        "&gt;"@
    } else {
        seq![c]
    }
}

/// The escaped form of an attribute value.
pub open spec fn spec_escape_attr(s: Seq<char>) -> Seq<char>
    decreases s.len(),
{
    if s.len() == 0 {
        Seq::empty()
    } else {
        spec_escape_attr(s.drop_last()) + spec_escape_attr_char(s.last())
    }
}

/// Appends the text-content escaping of `s` to `out`.
fn push_escaped_html(out: &mut Vec<char>, s: &str)
    ensures
        final(out)@ == old(out)@ + spec_escape_html(s@),
{
    let cs = chars_of(s);
    let mut i: usize = 0;
    assert(spec_escape_html(s@.take(0)) =~= Seq::<char>::empty());
    assert(out@ =~= old(out)@ + spec_escape_html(s@.take(0)));
    while i < cs.len()
        invariant
            i <= cs@.len(),
            cs@ == s@,
            out@ == old(out)@ + spec_escape_html(s@.take(i as int)),
        decreases cs@.len() - i,
    {
        let c = cs[i];
        if c == '&' {
            append_str(out, "&amp;");
        } else if c == '<' {
            append_str(out, "&lt;");
        } else if c == '>' {
            append_str(out, "&gt;");
        } else if c == '"' {
            append_str(out, "&quot;");
        } else if c == '\'' {
            append_str(out, "&#39;");
        } else {
            out.push(c);
            assert(spec_escape_html_char(c) =~= seq![c]);
        }
        proof {
            assert(s@.take(i + 1).drop_last() =~= s@.take(i as int));
            assert(s@.take(i + 1).last() == s@[i as int]);
            assert(out@ =~= old(out)@ + spec_escape_html(s@.take(i as int))
                + spec_escape_html_char(s@[i as int]));
        }
        i = i + 1;
    }
    assert(s@.take(cs@.len() as int) =~= s@);
}

/// Appends the attribute-value escaping of `s` to `out`.
fn push_escaped_attr(out: &mut Vec<char>, s: &str)
    ensures
        final(out)@ == old(out)@ + spec_escape_attr(s@),
{
    let cs = chars_of(s);
    let mut i: usize = 0;
    assert(spec_escape_attr(s@.take(0)) =~= Seq::<char>::empty());
    assert(out@ =~= old(out)@ + spec_escape_attr(s@.take(0)));
    while i < cs.len()
        invariant
            i <= cs@.len(),
            cs@ == s@,
            out@ == old(out)@ + spec_escape_attr(s@.take(i as int)),
        decreases cs@.len() - i,
    {
        let c = cs[i];
        if c == '&' {
            append_str(out, "&amp;");
        } else if c == '"' {
            append_str(out, "&quot;");
        } else if c == '<' {
            append_str(out, "&lt;");
        } else if c == '>' {
            append_str(out, "&gt;");
        } else {
            out.push(c);
            assert(spec_escape_attr_char(c) =~= seq![c]);
        }
        proof {
            assert(s@.take(i + 1).drop_last() =~= s@.take(i as int));
            assert(s@.take(i + 1).last() == s@[i as int]);
            assert(out@ =~= old(out)@ + spec_escape_attr(s@.take(i as int))
                + spec_escape_attr_char(s@[i as int]));
        }
        i = i + 1;
    }
    assert(s@.take(cs@.len() as int) =~= s@);
}

/// Escapes the characters that are special in HTML text content.
pub fn escape_html(s: &str) -> (r: String)
    ensures
        r@ == spec_escape_html(s@),
{
    let mut out: Vec<char> = Vec::new();
    push_escaped_html(&mut out, s);
    string_from_chars(out.as_slice())
}

/// Escapes the characters that are special inside double-quoted HTML
/// attribute values.
pub fn escape_attr(s: &str) -> (r: String)
    ensures
        r@ == spec_escape_attr(s@),
{
    let mut out: Vec<char> = Vec::new();
    push_escaped_attr(&mut out, s);
    string_from_chars(out.as_slice())
}

/// Escaped text content never holds a raw markup character: no `<`, `>`,
/// `"` or `'` survives escaping.
pub proof fn lemma_escape_html_no_markup(s: Seq<char>)
    ensures
        forall|i: int|
            0 <= i < spec_escape_html(s).len() ==> (#[trigger] spec_escape_html(s)[i]) != '<'
                && spec_escape_html(s)[i] != '>' && spec_escape_html(s)[i] != '"'
                && spec_escape_html(s)[i] != '\'',
    decreases s.len(),
{
    reveal_strlit("&amp;");
    reveal_strlit("&lt;");
    reveal_strlit("&gt;");
    reveal_strlit("&quot;");
    reveal_strlit("&#39;");
    if s.len() > 0 {
        lemma_escape_html_no_markup(s.drop_last());
        let c = s.last();
        assert forall|k: int|
            0 <= k < spec_escape_html_char(c).len() implies (#[trigger] spec_escape_html_char(
            c,
        )[k]) != '<' && spec_escape_html_char(c)[k] != '>' && spec_escape_html_char(c)[k] != '"'
            && spec_escape_html_char(c)[k] != '\'' by {
            if c != '&' && c != '<' && c != '>' && c != '"' && c != '\'' {
                assert(spec_escape_html_char(c) == seq![c]);
            }
        }
        let pre = spec_escape_html(s.drop_last());
        let cp = spec_escape_html_char(c);
        assert(spec_escape_html(s) == pre + cp);
        assert forall|i: int|
            0 <= i < spec_escape_html(s).len() implies (#[trigger] spec_escape_html(s)[i]) != '<'
            && spec_escape_html(s)[i] != '>' && spec_escape_html(s)[i] != '"'
            && spec_escape_html(s)[i] != '\'' by {
            if i < pre.len() {
                assert(spec_escape_html(s)[i] == pre[i]);
            } else {
                assert(spec_escape_html(s)[i] == cp[i - pre.len()]);
            }
        }
    }
}

/// Escaped attribute values never hold a raw `<`, `>` or `"`.
pub proof fn lemma_escape_attr_no_markup(s: Seq<char>)
    ensures
        forall|i: int|
            0 <= i < spec_escape_attr(s).len() ==> (#[trigger] spec_escape_attr(s)[i]) != '<'
                && spec_escape_attr(s)[i] != '>' && spec_escape_attr(s)[i] != '"',
    decreases s.len(),
{
    reveal_strlit("&amp;");
    reveal_strlit("&lt;");
    reveal_strlit("&gt;");
    reveal_strlit("&quot;");
    if s.len() > 0 {
        lemma_escape_attr_no_markup(s.drop_last());
        let c = s.last();
        assert forall|k: int|
            0 <= k < spec_escape_attr_char(c).len() implies (#[trigger] spec_escape_attr_char(
            c,
        )[k]) != '<' && spec_escape_attr_char(c)[k] != '>' && spec_escape_attr_char(c)[k] != '"' by {
            if c != '&' && c != '<' && c != '>' && c != '"' {
                assert(spec_escape_attr_char(c) == seq![c]);
            }
        }
        let pre = spec_escape_attr(s.drop_last());
        let cp = spec_escape_attr_char(c);
        assert(spec_escape_attr(s) == pre + cp);
        assert forall|i: int|
            0 <= i < spec_escape_attr(s).len() implies (#[trigger] spec_escape_attr(s)[i]) != '<'
            && spec_escape_attr(s)[i] != '>' && spec_escape_attr(s)[i] != '"' by {
            if i < pre.len() {
                assert(spec_escape_attr(s)[i] == pre[i]);
            } else {
                assert(spec_escape_attr(s)[i] == cp[i - pre.len()]);
            }
        }
    }
}

/// The heading tag for a level: `h1` through `h6`, with everything above 6
/// clamped to `h6`.
pub open spec fn spec_heading_tag(level: u8) -> Seq<char> {
    if level == 1 {
        "h1"@
    } else if level == 2 {
        "h2"@
    } else if level == 3 {
        "h3"@
    } else if level == 4 {
        "h4"@
    } else if level == 5 {
        "h5"@
    } else {
        "h6"@
    }
}

/// The heading tag for a level.
pub fn heading_tag(level: u8) -> (r: &'static str)
    ensures
        r@ == spec_heading_tag(level),
{
    match level {
        1 => "h1",
        2 => "h2",
        3 => "h3",
        4 => "h4",
        5 => "h5",
        _ => "h6",
    }
}

/// The inline style attribute rendered for a cell alignment; default
/// alignment renders nothing.
pub open spec fn spec_alignment_style(align: Alignment) -> Seq<char> {
    match align {
        Alignment::AlignLeft => " style=\"text-align: left;\""@,
        Alignment::AlignRight => " style=\"text-align: right;\""@,
        Alignment::AlignCenter => " style=\"text-align: center;\""@,
        Alignment::AlignDefault => Seq::empty(),
    }
}

/// The inline style attribute for a cell alignment.
pub fn alignment_style(align: &Alignment) -> (r: String)
    ensures
        r@ == spec_alignment_style(*align),
{
    match align {
        Alignment::AlignLeft => " style=\"text-align: left;\"".to_owned(),
        Alignment::AlignRight => " style=\"text-align: right;\"".to_owned(),
        Alignment::AlignCenter => " style=\"text-align: center;\"".to_owned(),
        Alignment::AlignDefault => String::new(),
    }
}

/// The span attributes rendered for a cell: `rowspan` and `colspan` appear
/// only when greater than 1.
pub open spec fn spec_cell_span_attrs(row_span: u32, col_span: u32) -> Seq<char> {
    (if row_span > 1 {
        " rowspan=\""@ + spec_decimal(row_span as nat) + "\""@
    } else {
        Seq::empty()
    }) + (if col_span > 1 {
        " colspan=\""@ + spec_decimal(col_span as nat) + "\""@
    } else {
        Seq::empty()
    })
}

/// The span attributes for a cell.
pub fn cell_span_attrs(row_span: u32, col_span: u32) -> (r: String)
    ensures
        r@ == spec_cell_span_attrs(row_span, col_span),
{
    let mut out: Vec<char> = Vec::new();
    push_cell_span_attrs(&mut out, row_span, col_span);
    string_from_chars(out.as_slice())
}

/// Appends the span attributes for a cell to `out`.
fn push_cell_span_attrs(out: &mut Vec<char>, row_span: u32, col_span: u32)
    ensures
        final(out)@ == old(out)@ + spec_cell_span_attrs(row_span, col_span),
{
    let ghost base = out@;
    if row_span > 1 {
        append_str(out, " rowspan=\"");
        append_decimal(out, row_span as u128);
        append_str(out, "\"");
    }
    if col_span > 1 {
        append_str(out, " colspan=\"");
        append_decimal(out, col_span as u128);
        append_str(out, "\"");
    }
    assert(out@ =~= base + spec_cell_span_attrs(row_span, col_span));
}

/// The escaped class names joined by single spaces.
pub open spec fn spec_classes_join(cs: Seq<String>) -> Seq<char>
    decreases cs.len(),
{
    if cs.len() == 0 {
        Seq::empty()
    } else if cs.len() == 1 {
        spec_escape_attr(cs[0]@)
    } else {
        spec_classes_join(cs.drop_last()) + " "@ + spec_escape_attr(cs.last()@)
    }
}

/// The rendered key/value attribute pairs.
pub open spec fn spec_kv_attrs(kvs: Seq<(String, String)>) -> Seq<char>
    decreases kvs.len(),
{
    if kvs.len() == 0 {
        Seq::empty()
    } else {
        spec_kv_attrs(kvs.drop_last()) + " "@ + spec_escape_attr(kvs.last().0@) + "=\""@
            + spec_escape_attr(kvs.last().1@) + "\""@
    }
}

/// The rendered attribute string of an `Attr`: optional `id`, optional
/// `class` list, then the key/value pairs, every value escaped.
pub open spec fn spec_render_attr(a: Attr) -> Seq<char> {
    (if a.id@.len() > 0 {
        " id=\""@ + spec_escape_attr(a.id@) + "\""@
    } else {
        Seq::empty()
    }) + (if a.classes@.len() > 0 {
        " class=\""@ + spec_classes_join(a.classes@) + "\""@
    } else {
        Seq::empty()
    }) + spec_kv_attrs(a.attrs@)
}

/// Appends the rendered attribute string of `attr` to `out`.
fn push_render_attr(out: &mut Vec<char>, attr: &Attr)
    ensures
        final(out)@ == old(out)@ + spec_render_attr(*attr),
{
    let ghost base = out@;
    if attr.id.as_str().unicode_len() > 0 {
        append_str(out, " id=\"");
        push_escaped_attr(out, attr.id.as_str());
        append_str(out, "\"");
    }
    let ghost after_id = out@;
    if attr.classes.len() > 0 {
        append_str(out, " class=\"");
        let mut c: usize = 0;
        assert(spec_classes_join(attr.classes@.take(0)) =~= Seq::<char>::empty());
        let ghost base2 = out@;
        while c < attr.classes.len()
            invariant
                c <= attr.classes@.len(),
                base2 == after_id + " class=\""@,
                out@ == base2 + spec_classes_join(attr.classes@.take(c as int)),
            decreases attr.classes@.len() - c,
        {
            if c > 0 {
                append_str(out, " ");
            }
            push_escaped_attr(out, attr.classes[c].as_str());
            proof {
                assert(attr.classes@.take(c + 1).drop_last() =~= attr.classes@.take(c as int));
                assert(attr.classes@.take(c + 1).last() == attr.classes@[c as int]);
                if c == 0 {
                    assert(spec_classes_join(attr.classes@.take(1)) == spec_escape_attr(
                        attr.classes@.take(1)[0]@,
                    ));
                    assert(out@ =~= base2 + spec_classes_join(attr.classes@.take(1)));
                } else {
                    assert(out@ =~= base2 + spec_classes_join(attr.classes@.take(c + 1)));
                }
            }
            c = c + 1;
        }
        assert(attr.classes@.take(attr.classes@.len() as int) =~= attr.classes@);
        append_str(out, "\"");
    }
    let ghost after_classes = out@;
    let mut k: usize = 0;
    assert(spec_kv_attrs(attr.attrs@.take(0)) =~= Seq::<char>::empty());
    while k < attr.attrs.len()
        invariant
            k <= attr.attrs@.len(),
            out@ == after_classes + spec_kv_attrs(attr.attrs@.take(k as int)),
        decreases attr.attrs@.len() - k,
    {
        append_str(out, " ");
        push_escaped_attr(out, attr.attrs[k].0.as_str());
        append_str(out, "=\"");
        push_escaped_attr(out, attr.attrs[k].1.as_str());
        append_str(out, "\"");
        proof {
            assert(attr.attrs@.take(k + 1).drop_last() =~= attr.attrs@.take(k as int));
            assert(attr.attrs@.take(k + 1).last() == attr.attrs@[k as int]);
            assert(out@ =~= after_classes + spec_kv_attrs(attr.attrs@.take(k + 1)));
        }
        k = k + 1;
    }
    assert(attr.attrs@.take(attr.attrs@.len() as int) =~= attr.attrs@);
    assert(out@ =~= base + spec_render_attr(*attr));
}

/// Builds the HTML attribute string for an `Attr`.
pub fn render_attr(attr: &Attr) -> (r: String)
    ensures
        r@ == spec_render_attr(*attr),
{
    let mut out: Vec<char> = Vec::new();
    push_render_attr(&mut out, attr);
    string_from_chars(out.as_slice())
}

/// The rendering of a sequence of inlines: each in order.
pub open spec fn spec_inlines_html(is: Seq<Inline>) -> Seq<char>
    decreases is,
{
    if is.len() == 0 {
        Seq::empty()
    } else {
        spec_inlines_html(is.drop_last()) + spec_inline_html(is.last())
    }
}

/// The rendering of one inline element.
pub open spec fn spec_inline_html(i: Inline) -> Seq<char>
    decreases i,
{
    match i {
        Inline::Str(s) => spec_escape_html(s@),
        Inline::Space => " "@,
        Inline::SoftBreak => "\n"@,
        Inline::LineBreak => "<br>\n"@,
        Inline::Emph(is) => "<em>"@ + spec_inlines_html(is@) + "</em>"@,
        Inline::Strong(is) => "<strong>"@ + spec_inlines_html(is@) + "</strong>"@,
        Inline::Underline(is) => "<u>"@ + spec_inlines_html(is@) + "</u>"@,
        Inline::Strikeout(is) => "<del>"@ + spec_inlines_html(is@) + "</del>"@,
        Inline::Superscript(is) => "<sup>"@ + spec_inlines_html(is@) + "</sup>"@,
        Inline::Subscript(is) => "<sub>"@ + spec_inlines_html(is@) + "</sub>"@,
        Inline::SmallCaps(is) => "<span style=\"font-variant: small-caps;\">"@ + spec_inlines_html(
            is@,
        ) + "</span>"@,
        Inline::Quoted(qt, is) => match qt {
            QuoteType::SingleQuote => "&#8216;"@ + spec_inlines_html(is@) + "&#8217;"@,
            QuoteType::DoubleQuote => "&#8220;"@ + spec_inlines_html(is@) + "&#8221;"@,
        },
        Inline::Code(_attr, code) => "<code>"@ + spec_escape_html(code@) + "</code>"@,
        Inline::Math(mt, content) => match mt {
            MathType::InlineMath => "\\("@ + spec_escape_html(content@) + "\\)"@,
            MathType::DisplayMath => "\\["@ + spec_escape_html(content@) + "\\]"@,
        },
        Inline::Link(attr, is, target) => "<a href=\""@ + spec_escape_attr(target.url@) + "\""@ + (
        if target.title@.len() > 0 {
            " title=\""@ + spec_escape_attr(target.title@) + "\""@
        } else {
            Seq::empty()
        }) + spec_render_attr(attr) + ">"@ + spec_inlines_html(is@) + "</a>"@,
        Inline::Image(attr, is, target) => "<img src=\""@ + spec_escape_attr(target.url@)
            + "\" alt=\""@ + spec_escape_attr(spec_inlines_html(is@)) + "\""@ + (
        if target.title@.len() > 0 {
            " title=\""@ + spec_escape_attr(target.title@) + "\""@
        } else {
            Seq::empty()
        }) + spec_render_attr(attr) + ">"@,
        Inline::Note(blocks) => "<span class=\"footnote\">"@ + spec_blocks_html(blocks@)
            + "</span>"@,
        Inline::Span(attr, is) => "<span"@ + spec_render_attr(attr) + ">"@ + spec_inlines_html(is@)
            + "</span>"@,
        Inline::RawInline(fmt, content) => if fmt.0@ == "html"@ {
            content@
        } else {
            Seq::empty()
        },
    }
}

/// The rendering of a sequence of blocks: each in order.
pub open spec fn spec_blocks_html(bs: Seq<Block>) -> Seq<char>
    decreases bs,
{
    if bs.len() == 0 {
        Seq::empty()
    } else {
        spec_blocks_html(bs.drop_last()) + spec_block_html(bs.last())
    }
}

/// The collapsed rendering of list-item or cell content: a single
/// plain/paragraph block renders its inlines bare; anything else renders
/// in full.
pub open spec fn spec_collapsed_blocks(v: Vec<Block>) -> Seq<char>
    decreases v,
{
    if v@.len() == 1 && (v@[0] is Para || v@[0] is Plain) {
        match v@[0] {
            Block::Para(is) => spec_inlines_html(is@),
            Block::Plain(is) => spec_inlines_html(is@),
            _ => Seq::empty(),
        }
    } else {
        spec_blocks_html(v@)
    }
}

/// The rendering of list items: each wrapped in a list-item element.
pub open spec fn spec_items_html(items: Seq<Vec<Block>>) -> Seq<char>
    decreases items,
{
    if items.len() == 0 {
        Seq::empty()
    } else {
        spec_items_html(items.drop_last()) + "<li>"@ + spec_collapsed_blocks(items.last())
            + "</li>\n"@
    }
}

/// The rendering of the definition bodies of one definition-list item.
pub open spec fn spec_def_bodies(ds: Seq<Vec<Block>>) -> Seq<char>
    decreases ds,
{
    if ds.len() == 0 {
        Seq::empty()
    } else {
        spec_def_bodies(ds.drop_last()) + "<dd>"@ + spec_collapsed_blocks(ds.last()) + "</dd>\n"@
    }
}

/// The rendering of definition-list items: a term then its definitions.
pub open spec fn spec_defs_html(items: Seq<(Vec<Inline>, Vec<Vec<Block>>)>) -> Seq<char>
    decreases items,
{
    if items.len() == 0 {
        Seq::empty()
    } else {
        spec_defs_html(items.drop_last()) + "<dt>"@ + spec_inlines_html(items.last().0@)
            + "</dt>\n"@ + spec_def_bodies(items.last().1@)
    }
}

/// The rendering of a line block's lines, each followed by a break.
pub open spec fn spec_lineblock_html(lines: Seq<Vec<Inline>>) -> Seq<char>
    decreases lines,
{
    if lines.len() == 0 {
        Seq::empty()
    } else {
        spec_lineblock_html(lines.drop_last()) + spec_inlines_html(lines.last()@) + "<br>\n"@
    }
}

/// The rendering of one table cell, as a header or data cell.
pub open spec fn spec_cell_html(c: Cell, head: bool) -> Seq<char>
    decreases c,
{
    (if head {
        "<th"@
    } else {
        "<td"@
    }) + spec_alignment_style(c.align) + spec_cell_span_attrs(c.row_span, c.col_span) + ">"@
        + spec_collapsed_blocks(c.content) + (if head {
        "</th>"@
    } else {
        "</td>"@
    })
}

/// The rendering of a row's cells.
pub open spec fn spec_cells_html(cells: Seq<Cell>, head: bool) -> Seq<char>
    decreases cells,
{
    if cells.len() == 0 {
        Seq::empty()
    } else {
        spec_cells_html(cells.drop_last(), head) + spec_cell_html(cells.last(), head)
    }
}

/// The rendering of one table row.
pub open spec fn spec_row_html(row: Row, head: bool) -> Seq<char>
    decreases row,
{
    "<tr>"@ + spec_cells_html(row.cells@, head) + "</tr>\n"@
}

/// The rendering of a sequence of table rows.
pub open spec fn spec_rows_html(rows: Seq<Row>, head: bool) -> Seq<char>
    decreases rows,
{
    if rows.len() == 0 {
        Seq::empty()
    } else {
        spec_rows_html(rows.drop_last(), head) + spec_row_html(rows.last(), head)
    }
}

/// Whether any body section has rows.
pub open spec fn spec_has_body(bodies: Seq<TableBody>) -> bool {
    exists|i: int|
        0 <= i < bodies.len() && (bodies[i].head@.len() > 0 || bodies[i].body@.len() > 0)
}

/// The rendering of the rows of all body sections, sub-head rows first
/// within each section.
pub open spec fn spec_bodies_html(bodies: Seq<TableBody>) -> Seq<char>
    decreases bodies,
{
    if bodies.len() == 0 {
        Seq::empty()
    } else {
        spec_bodies_html(bodies.drop_last()) + spec_rows_html(bodies.last().head@, false)
            + spec_rows_html(bodies.last().body@, false)
    }
}

/// The rendering of a full table: head, bodies and foot sections, each
/// emitted only when it has rows.
pub open spec fn spec_table_html(t: Table) -> Seq<char>
    decreases t,
{
    "<table>\n"@ + (if t.head.rows@.len() > 0 {
        "<thead>\n"@ + spec_rows_html(t.head.rows@, true) + "</thead>\n"@
    } else {
        Seq::empty()
    }) + (if spec_has_body(t.bodies@) {
        "<tbody>\n"@ + spec_bodies_html(t.bodies@) + "</tbody>\n"@
    } else {
        Seq::empty()
    }) + (if t.foot.rows@.len() > 0 {
        "<tfoot>\n"@ + spec_rows_html(t.foot.rows@, false) + "</tfoot>\n"@
    } else {
        Seq::empty()
    }) + "</table>\n"@
}

/// The rendering of one block element.
pub open spec fn spec_block_html(b: Block) -> Seq<char>
    decreases b,
{
    match b {
        Block::Plain(is) => "<p>"@ + spec_inlines_html(is@) + "</p>\n"@,
        Block::Para(is) => "<p>"@ + spec_inlines_html(is@) + "</p>\n"@,
        Block::LineBlock(lines) => "<div class=\"line-block\">\n"@ + spec_lineblock_html(lines@)
            + "</div>\n"@,
        Block::Heading(attr, level, is) => "<"@ + spec_heading_tag(level) + spec_render_attr(attr)
            + ">"@ + spec_inlines_html(is@) + "</"@ + spec_heading_tag(level) + ">\n"@,
        Block::CodeBlock(attr, code) => (if attr.classes@.len() == 0 || attr.classes@[0]@.len()
            == 0 {
            "<pre><code>"@
        } else {
            "<pre><code class=\"language-"@ + spec_escape_attr(attr.classes@[0]@) + "\">"@
        }) + spec_escape_html(code@) + "</code></pre>\n"@,
        Block::RawBlock(fmt, content) => if fmt.0@ == "html"@ {
            content@ + (if content@.len() > 0 && content@.last() == '\n' {
                Seq::<char>::empty()
            } else {
                seq!['\n']
            })
        } else {
            Seq::empty()
        },
        Block::BlockQuote(bs) => "<blockquote>\n"@ + spec_blocks_html(bs@) + "</blockquote>\n"@,
        Block::BulletList(items) => "<ul>\n"@ + spec_items_html(items@) + "</ul>\n"@,
        Block::OrderedList(attrs, items) => (if attrs.start == 1 {
            "<ol>\n"@
        } else {
            "<ol start=\""@ + spec_decimal(attrs.start as nat) + "\">\n"@
        }) + spec_items_html(items@) + "</ol>\n"@,
        Block::DefinitionList(items) => "<dl>\n"@ + spec_defs_html(items@) + "</dl>\n"@,
        Block::Table(t) => spec_table_html(t),
        Block::Figure(attr, _caption, bs) => "<figure"@ + spec_render_attr(attr) + ">\n"@
            + spec_blocks_html(bs@) + "</figure>\n"@,
        Block::Div(attr, bs) => "<div"@ + spec_render_attr(attr) + ">\n"@ + spec_blocks_html(bs@)
            + "</div>\n"@,
        Block::HorizontalRule => "<hr>\n"@,
        Block::PageBreak => "<div style=\"page-break-after: always;\"></div>\n"@,
    }
}

/// Appends the alignment style of a cell to `out`.
fn push_alignment_style(out: &mut Vec<char>, align: &Alignment)
    ensures
        final(out)@ == old(out)@ + spec_alignment_style(*align),
{
    match align {
        Alignment::AlignLeft => append_str(out, " style=\"text-align: left;\""),
        Alignment::AlignRight => append_str(out, " style=\"text-align: right;\""),
        Alignment::AlignCenter => append_str(out, " style=\"text-align: center;\""),
        Alignment::AlignDefault => {},
    }
}

/// Renders a sequence of inlines into `out`.
fn write_inlines(out: &mut Vec<char>, inlines: &Vec<Inline>)
    ensures
        final(out)@ == old(out)@ + spec_inlines_html(inlines@),
    decreases *inlines,
{
    let ghost base = out@;
    let mut i: usize = 0;
    assert(spec_inlines_html(inlines@.take(0)) =~= Seq::<char>::empty());
    while i < inlines.len()
        invariant
            i <= inlines@.len(),
            out@ == base + spec_inlines_html(inlines@.take(i as int)),
        decreases inlines@.len() - i,
    {
        write_inline(out, &inlines[i]);
        proof {
            assert(inlines@.take(i + 1).drop_last() =~= inlines@.take(i as int));
            assert(inlines@.take(i + 1).last() == inlines@[i as int]);
            assert(out@ =~= base + spec_inlines_html(inlines@.take(i + 1)));
        }
        i = i + 1;
    }
    assert(inlines@.take(inlines@.len() as int) =~= inlines@);
}

/// Renders one inline element into `out`.
#[verifier::rlimit(100)]
fn write_inline(out: &mut Vec<char>, il: &Inline)
    ensures
        final(out)@ == old(out)@ + spec_inline_html(*il),
    decreases *il,
{
    let ghost base = out@;
    match il {
        Inline::Str(s) => {
            push_escaped_html(out, s.as_str());
        },
        Inline::Space => {
            append_str(out, " ");
        },
        Inline::SoftBreak => {
            append_str(out, "\n");
        },
        Inline::LineBreak => {
            append_str(out, "<br>\n");
        },
        Inline::Emph(is) => {
            append_str(out, "<em>");
            write_inlines(out, is);
            append_str(out, "</em>");
            assert(out@ =~= base + spec_inline_html(*il));
        },
        Inline::Strong(is) => {
            append_str(out, "<strong>");
            write_inlines(out, is);
            append_str(out, "</strong>");
            assert(out@ =~= base + spec_inline_html(*il));
        },
        Inline::Underline(is) => {
            append_str(out, "<u>");
            write_inlines(out, is);
            append_str(out, "</u>");
            assert(out@ =~= base + spec_inline_html(*il));
        },
        Inline::Strikeout(is) => {
            append_str(out, "<del>");
            write_inlines(out, is);
            append_str(out, "</del>");
            assert(out@ =~= base + spec_inline_html(*il));
        },
        Inline::Superscript(is) => {
            append_str(out, "<sup>");
            write_inlines(out, is);
            append_str(out, "</sup>");
            assert(out@ =~= base + spec_inline_html(*il));
        },
        Inline::Subscript(is) => {
            append_str(out, "<sub>");
            write_inlines(out, is);
            append_str(out, "</sub>");
            assert(out@ =~= base + spec_inline_html(*il));
        },
        Inline::SmallCaps(is) => {
            append_str(out, "<span style=\"font-variant: small-caps;\">");
            write_inlines(out, is);
            append_str(out, "</span>");
            assert(out@ =~= base + spec_inline_html(*il));
        },
        Inline::Quoted(qt, is) => {
            match qt {
                QuoteType::SingleQuote => {
                    append_str(out, "&#8216;");
                    write_inlines(out, is);
                    append_str(out, "&#8217;");
                },
                QuoteType::DoubleQuote => {
                    append_str(out, "&#8220;");
                    write_inlines(out, is);
                    append_str(out, "&#8221;");
                },
            }
            assert(out@ =~= base + spec_inline_html(*il));
        },
        Inline::Code(_attr, code) => {
            append_str(out, "<code>");
            push_escaped_html(out, code.as_str());
            append_str(out, "</code>");
            assert(out@ =~= base + spec_inline_html(*il));
        },
        Inline::Math(mt, content) => {
            match mt {
                MathType::InlineMath => {
                    append_str(out, "\\(");
                    push_escaped_html(out, content.as_str());
                    append_str(out, "\\)");
                },
                MathType::DisplayMath => {
                    append_str(out, "\\[");
                    push_escaped_html(out, content.as_str());
                    append_str(out, "\\]");
                },
            }
            assert(out@ =~= base + spec_inline_html(*il));
        },
        Inline::Link(attr, is, target) => {
            append_str(out, "<a href=\"");
            push_escaped_attr(out, target.url.as_str());
            append_str(out, "\"");
            if target.title.as_str().unicode_len() > 0 {
                append_str(out, " title=\"");
                push_escaped_attr(out, target.title.as_str());
                append_str(out, "\"");
            }
            push_render_attr(out, attr);
            append_str(out, ">");
            write_inlines(out, is);
            append_str(out, "</a>");
            assert(out@ =~= base + spec_inline_html(*il));
        },
        Inline::Image(attr, is, target) => {
            append_str(out, "<img src=\"");
            push_escaped_attr(out, target.url.as_str());
            append_str(out, "\" alt=\"");
            let mut alt: Vec<char> = Vec::new();
            write_inlines(&mut alt, is);
            push_escaped_attr_chars(out, alt.as_slice());
            append_str(out, "\"");
            if target.title.as_str().unicode_len() > 0 {
                append_str(out, " title=\"");
                push_escaped_attr(out, target.title.as_str());
                append_str(out, "\"");
            }
            push_render_attr(out, attr);
            append_str(out, ">");
            assert(out@ =~= base + spec_inline_html(*il));
        },
        Inline::Note(blocks) => {
            append_str(out, "<span class=\"footnote\">");
            write_blocks(out, blocks);
            append_str(out, "</span>");
            assert(out@ =~= base + spec_inline_html(*il));
        },
        Inline::Span(attr, is) => {
            append_str(out, "<span");
            push_render_attr(out, attr);
            append_str(out, ">");
            write_inlines(out, is);
            append_str(out, "</span>");
            assert(out@ =~= base + spec_inline_html(*il));
        },
        Inline::RawInline(fmt, content) => {
            if str_eq(fmt.0.as_str(), "html") {
                append_str(out, content.as_str());
            }
            assert(out@ =~= base + spec_inline_html(*il));
        },
    }
}

/// Renders a sequence of blocks into `out`.
fn write_blocks(out: &mut Vec<char>, blocks: &Vec<Block>)
    ensures
        final(out)@ == old(out)@ + spec_blocks_html(blocks@),
    decreases *blocks,
{
    let ghost base = out@;
    let mut i: usize = 0;
    assert(spec_blocks_html(blocks@.take(0)) =~= Seq::<char>::empty());
    while i < blocks.len()
        invariant
            i <= blocks@.len(),
            out@ == base + spec_blocks_html(blocks@.take(i as int)),
        decreases blocks@.len() - i,
    {
        write_block(out, &blocks[i]);
        proof {
            assert(blocks@.take(i + 1).drop_last() =~= blocks@.take(i as int));
            assert(blocks@.take(i + 1).last() == blocks@[i as int]);
            assert(out@ =~= base + spec_blocks_html(blocks@.take(i + 1)));
        }
        i = i + 1;
    }
    assert(blocks@.take(blocks@.len() as int) =~= blocks@);
}

/// Renders list-item block content: a single plain/paragraph block renders
/// its inlines bare, everything else renders in full.
fn write_list_item_blocks(out: &mut Vec<char>, blocks: &Vec<Block>)
    ensures
        final(out)@ == old(out)@ + spec_collapsed_blocks(*blocks),
    decreases *blocks,
{
    let ghost base = out@;
    if blocks.len() == 1 {
        match &blocks[0] {
            Block::Para(is) => {
                write_inlines(out, is);
                assert(out@ =~= base + spec_collapsed_blocks(*blocks));
                return ;
            },
            Block::Plain(is) => {
                write_inlines(out, is);
                assert(out@ =~= base + spec_collapsed_blocks(*blocks));
                return ;
            },
            _ => {},
        }
    }
    let mut i: usize = 0;
    assert(spec_blocks_html(blocks@.take(0)) =~= Seq::<char>::empty());
    while i < blocks.len()
        invariant
            i <= blocks@.len(),
            out@ == base + spec_blocks_html(blocks@.take(i as int)),
        decreases blocks@.len() - i,
    {
        write_block(out, &blocks[i]);
        proof {
            assert(blocks@.take(i + 1).drop_last() =~= blocks@.take(i as int));
            assert(blocks@.take(i + 1).last() == blocks@[i as int]);
            assert(out@ =~= base + spec_blocks_html(blocks@.take(i + 1)));
        }
        i = i + 1;
    }
    assert(blocks@.take(blocks@.len() as int) =~= blocks@);
}

/// Renders table cell content, collapsing a single plain/paragraph block.
fn write_cell_content(out: &mut Vec<char>, blocks: &Vec<Block>)
    ensures
        final(out)@ == old(out)@ + spec_collapsed_blocks(*blocks),
    decreases *blocks,
{
    let ghost base = out@;
    if blocks.len() == 1 {
        match &blocks[0] {
            Block::Para(is) => {
                write_inlines(out, is);
                assert(out@ =~= base + spec_collapsed_blocks(*blocks));
                return ;
            },
            Block::Plain(is) => {
                write_inlines(out, is);
                assert(out@ =~= base + spec_collapsed_blocks(*blocks));
                return ;
            },
            _ => {},
        }
    }
    let mut i: usize = 0;
    assert(spec_blocks_html(blocks@.take(0)) =~= Seq::<char>::empty());
    while i < blocks.len()
        invariant
            i <= blocks@.len(),
            out@ == base + spec_blocks_html(blocks@.take(i as int)),
        decreases blocks@.len() - i,
    {
        write_block(out, &blocks[i]);
        proof {
            assert(blocks@.take(i + 1).drop_last() =~= blocks@.take(i as int));
            assert(blocks@.take(i + 1).last() == blocks@[i as int]);
            assert(out@ =~= base + spec_blocks_html(blocks@.take(i + 1)));
        }
        i = i + 1;
    }
    assert(blocks@.take(blocks@.len() as int) =~= blocks@);
}

/// Renders the items of a list into `out`.
fn write_items(out: &mut Vec<char>, items: &Vec<Vec<Block>>)
    ensures
        final(out)@ == old(out)@ + spec_items_html(items@),
    decreases *items,
{
    let ghost base = out@;
    let mut i: usize = 0;
    assert(spec_items_html(items@.take(0)) =~= Seq::<char>::empty());
    while i < items.len()
        invariant
            i <= items@.len(),
            out@ == base + spec_items_html(items@.take(i as int)),
        decreases items@.len() - i,
    {
        append_str(out, "<li>");
        write_list_item_blocks(out, &items[i]);
        append_str(out, "</li>\n");
        proof {
            assert(items@.take(i + 1).drop_last() =~= items@.take(i as int));
            assert(items@.take(i + 1).last() == items@[i as int]);
            assert(out@ =~= base + spec_items_html(items@.take(i + 1)));
        }
        i = i + 1;
    }
    assert(items@.take(items@.len() as int) =~= items@);
}

/// Renders the definition bodies of one definition-list item into `out`.
fn write_def_bodies(out: &mut Vec<char>, defs: &Vec<Vec<Block>>)
    ensures
        final(out)@ == old(out)@ + spec_def_bodies(defs@),
    decreases *defs,
{
    let ghost base = out@;
    let mut d: usize = 0;
    assert(spec_def_bodies(defs@.take(0)) =~= Seq::<char>::empty());
    while d < defs.len()
        invariant
            d <= defs@.len(),
            out@ == base + spec_def_bodies(defs@.take(d as int)),
        decreases defs@.len() - d,
    {
        append_str(out, "<dd>");
        write_list_item_blocks(out, &defs[d]);
        append_str(out, "</dd>\n");
        proof {
            assert(defs@.take(d + 1).drop_last() =~= defs@.take(d as int));
            assert(defs@.take(d + 1).last() == defs@[d as int]);
            assert(out@ =~= base + spec_def_bodies(defs@.take(d + 1)));
        }
        d = d + 1;
    }
    assert(defs@.take(defs@.len() as int) =~= defs@);
}

/// Renders the items of a definition list into `out`.
fn write_defs(out: &mut Vec<char>, items: &Vec<(Vec<Inline>, Vec<Vec<Block>>)>)
    ensures
        final(out)@ == old(out)@ + spec_defs_html(items@),
    decreases *items,
{
    let ghost base = out@;
    let mut i: usize = 0;
    assert(spec_defs_html(items@.take(0)) =~= Seq::<char>::empty());
    while i < items.len()
        invariant
            i <= items@.len(),
            out@ == base + spec_defs_html(items@.take(i as int)),
        decreases items@.len() - i,
    {
        append_str(out, "<dt>");
        write_inlines(out, &items[i].0);
        append_str(out, "</dt>\n");
        proof {
            assert(decreases_to!(*items => items@));
            assert(decreases_to!(items@ => items@[i as int]));
            assert(decreases_to!(items@[i as int] => items@[i as int].1));
        }
        write_def_bodies(out, &items[i].1);
        proof {
            assert(items@.take(i + 1).drop_last() =~= items@.take(i as int));
            assert(items@.take(i + 1).last() == items@[i as int]);
            assert(out@ =~= base + spec_defs_html(items@.take(i + 1)));
        }
        i = i + 1;
    }
    assert(items@.take(items@.len() as int) =~= items@);
}

/// Renders the lines of a line block into `out`.
fn write_lineblock(out: &mut Vec<char>, lines: &Vec<Vec<Inline>>)
    ensures
        final(out)@ == old(out)@ + spec_lineblock_html(lines@),
    decreases *lines,
{
    let ghost base = out@;
    let mut i: usize = 0;
    assert(spec_lineblock_html(lines@.take(0)) =~= Seq::<char>::empty());
    while i < lines.len()
        invariant
            i <= lines@.len(),
            out@ == base + spec_lineblock_html(lines@.take(i as int)),
        decreases lines@.len() - i,
    {
        write_inlines(out, &lines[i]);
        append_str(out, "<br>\n");
        proof {
            assert(lines@.take(i + 1).drop_last() =~= lines@.take(i as int));
            assert(lines@.take(i + 1).last() == lines@[i as int]);
            assert(out@ =~= base + spec_lineblock_html(lines@.take(i + 1)));
        }
        i = i + 1;
    }
    assert(lines@.take(lines@.len() as int) =~= lines@);
}

/// Renders one table row into `out`.
fn write_row(out: &mut Vec<char>, row: &Row, head: bool)
    ensures
        final(out)@ == old(out)@ + spec_row_html(*row, head),
    decreases *row,
{
    let ghost base = out@;
    append_str(out, "<tr>");
    let ghost mid = out@;
    let mut c: usize = 0;
    assert(spec_cells_html(row.cells@.take(0), head) =~= Seq::<char>::empty());
    while c < row.cells.len()
        invariant
            c <= row.cells@.len(),
            out@ == mid + spec_cells_html(row.cells@.take(c as int), head),
            mid == base + "<tr>"@,
        decreases row.cells@.len() - c,
    {
        let ghost cbase = out@;
        let cell = &row.cells[c];
        if head {
            append_str(out, "<th");
        } else {
            append_str(out, "<td");
        }
        push_alignment_style(out, &cell.align);
        push_cell_span_attrs(out, cell.row_span, cell.col_span);
        append_str(out, ">");
        write_cell_content(out, &cell.content);
        if head {
            append_str(out, "</th>");
        } else {
            append_str(out, "</td>");
        }
        proof {
            assert(out@ =~= cbase + spec_cell_html(row.cells@[c as int], head));
            assert(row.cells@.take(c + 1).drop_last() =~= row.cells@.take(c as int));
            assert(row.cells@.take(c + 1).last() == row.cells@[c as int]);
            assert(out@ =~= mid + spec_cells_html(row.cells@.take(c + 1), head));
        }
        c = c + 1;
    }
    assert(row.cells@.take(row.cells@.len() as int) =~= row.cells@);
    append_str(out, "</tr>\n");
    assert(out@ =~= base + spec_row_html(*row, head));
}

/// Whether any body section of the table has rows.
fn table_has_body(bodies: &Vec<TableBody>) -> (r: bool)
    ensures
        r == spec_has_body(bodies@),
{
    let mut i: usize = 0;
    while i < bodies.len()
        invariant
            i <= bodies@.len(),
            forall|k: int|
                0 <= k < i ==> (bodies@[k].head@.len() == 0 && bodies@[k].body@.len() == 0),
        decreases bodies@.len() - i,
    {
        if bodies[i].head.len() > 0 || bodies[i].body.len() > 0 {
            assert(bodies@[i as int].head@.len() > 0 || bodies@[i as int].body@.len() > 0);
            return true;
        }
        i = i + 1;
    }
    false
}

/// Renders a sequence of rows into `out`.
fn write_rows(out: &mut Vec<char>, rows: &Vec<Row>, head: bool)
    ensures
        final(out)@ == old(out)@ + spec_rows_html(rows@, head),
    decreases *rows,
{
    let ghost base = out@;
    let mut i: usize = 0;
    assert(spec_rows_html(rows@.take(0), head) =~= Seq::<char>::empty());
    while i < rows.len()
        invariant
            i <= rows@.len(),
            out@ == base + spec_rows_html(rows@.take(i as int), head),
        decreases rows@.len() - i,
    {
        write_row(out, &rows[i], head);
        proof {
            assert(rows@.take(i + 1).drop_last() =~= rows@.take(i as int));
            assert(rows@.take(i + 1).last() == rows@[i as int]);
            assert(out@ =~= base + spec_rows_html(rows@.take(i + 1), head));
        }
        i = i + 1;
    }
    assert(rows@.take(rows@.len() as int) =~= rows@);
}

/// Renders the body sections of a table into `out`, when any has rows.
fn write_tbody(out: &mut Vec<char>, bodies: &Vec<TableBody>)
    ensures
        final(out)@ == old(out)@ + (if spec_has_body(bodies@) {
            "<tbody>\n"@ + spec_bodies_html(bodies@) + "</tbody>\n"@
        } else {
            Seq::<char>::empty()
        }),
    decreases *bodies,
{
    let ghost base = out@;
    if table_has_body(bodies) {
        append_str(out, "<tbody>\n");
        let ghost tb = out@;
        let mut b: usize = 0;
        assert(spec_bodies_html(bodies@.take(0)) =~= Seq::<char>::empty());
        while b < bodies.len()
            invariant
                b <= bodies@.len(),
                out@ == tb + spec_bodies_html(bodies@.take(b as int)),
            decreases bodies@.len() - b,
        {
            write_rows(out, &bodies[b].head, false);
            write_rows(out, &bodies[b].body, false);
            proof {
                assert(bodies@.take(b + 1).drop_last() =~= bodies@.take(b as int));
                assert(bodies@.take(b + 1).last() == bodies@[b as int]);
                assert(out@ =~= tb + spec_bodies_html(bodies@.take(b + 1)));
            }
            b = b + 1;
        }
        assert(bodies@.take(bodies@.len() as int) =~= bodies@);
        append_str(out, "</tbody>\n");
        assert(out@ =~= base + ("<tbody>\n"@ + spec_bodies_html(bodies@) + "</tbody>\n"@));
    }
}

/// Renders a full table into `out`.
#[verifier::rlimit(100)]
#[verifier::spinoff_prover]
fn write_table(out: &mut Vec<char>, t: &Table)
    ensures
        final(out)@ == old(out)@ + spec_table_html(*t),
    decreases *t,
{
    let ghost base = out@;
    let ghost g1 = if t.head.rows@.len() > 0 {
        "<thead>\n"@ + spec_rows_html(t.head.rows@, true) + "</thead>\n"@
    } else {
        Seq::<char>::empty()
    };
    let ghost g2 = if spec_has_body(t.bodies@) {
        "<tbody>\n"@ + spec_bodies_html(t.bodies@) + "</tbody>\n"@
    } else {
        Seq::<char>::empty()
    };
    let ghost g3 = if t.foot.rows@.len() > 0 {
        "<tfoot>\n"@ + spec_rows_html(t.foot.rows@, false) + "</tfoot>\n"@
    } else {
        Seq::<char>::empty()
    };
    append_str(out, "<table>\n");
    if t.head.rows.len() > 0 {
        append_str(out, "<thead>\n");
        write_rows(out, &t.head.rows, true);
        append_str(out, "</thead>\n");
    }
    assert(out@ =~= base + "<table>\n"@ + g1);
    let ghost after_head = out@;
    proof {
        assert(decreases_to!(*t => t.bodies));
    }
    write_tbody(out, &t.bodies);
    assert(out@ =~= after_head + g2);
    let ghost after_body = out@;
    if t.foot.rows.len() > 0 {
        append_str(out, "<tfoot>\n");
        write_rows(out, &t.foot.rows, false);
        append_str(out, "</tfoot>\n");
    }
    assert(out@ =~= after_body + g3);
    append_str(out, "</table>\n");
    assert(out@ =~= base + ("<table>\n"@ + g1 + g2 + g3 + "</table>\n"@));
    assert(out@ =~= base + spec_table_html(*t));
}

/// Renders one block element into `out`.
#[verifier::rlimit(100)]
fn write_block(out: &mut Vec<char>, block: &Block)
    ensures
        final(out)@ == old(out)@ + spec_block_html(*block),
    decreases *block,
{
    let ghost base = out@;
    match block {
        Block::Plain(is) => {
            append_str(out, "<p>");
            write_inlines(out, is);
            append_str(out, "</p>\n");
            assert(out@ =~= base + spec_block_html(*block));
        },
        Block::Para(is) => {
            append_str(out, "<p>");
            write_inlines(out, is);
            append_str(out, "</p>\n");
            assert(out@ =~= base + spec_block_html(*block));
        },
        Block::LineBlock(lines) => {
            append_str(out, "<div class=\"line-block\">\n");
            write_lineblock(out, lines);
            append_str(out, "</div>\n");
            assert(out@ =~= base + spec_block_html(*block));
        },
        Block::Heading(attr, level, is) => {
            append_str(out, "<");
            append_str(out, heading_tag(*level));
            push_render_attr(out, attr);
            append_str(out, ">");
            write_inlines(out, is);
            append_str(out, "</");
            append_str(out, heading_tag(*level));
            append_str(out, ">\n");
            assert(out@ =~= base + spec_block_html(*block));
        },
        Block::CodeBlock(attr, code) => {
            let has_lang = attr.classes.len() > 0 && attr.classes[0].as_str().unicode_len() > 0;
            if has_lang {
                append_str(out, "<pre><code class=\"language-");
                push_escaped_attr(out, attr.classes[0].as_str());
                append_str(out, "\">");
            } else {
                append_str(out, "<pre><code>");
            }
            push_escaped_html(out, code.as_str());
            append_str(out, "</code></pre>\n");
            assert(out@ =~= base + spec_block_html(*block));
        },
        Block::RawBlock(fmt, content) => {
            if str_eq(fmt.0.as_str(), "html") {
                append_str(out, content.as_str());
                let n = content.as_str().unicode_len();
                if n == 0 || content.as_str().get_char(n - 1) != '\n' {
                    out.push('\n');
                }
            }
            assert(out@ =~= base + spec_block_html(*block));
        },
        Block::BlockQuote(bs) => {
            append_str(out, "<blockquote>\n");
            write_blocks(out, bs);
            append_str(out, "</blockquote>\n");
            assert(out@ =~= base + spec_block_html(*block));
        },
        Block::BulletList(items) => {
            append_str(out, "<ul>\n");
            write_items(out, items);
            append_str(out, "</ul>\n");
            assert(out@ =~= base + spec_block_html(*block));
        },
        Block::OrderedList(attrs, items) => {
            if attrs.start == 1 {
                append_str(out, "<ol>\n");
            } else {
                append_str(out, "<ol start=\"");
                append_decimal(out, attrs.start as u128);
                append_str(out, "\">\n");
            }
            write_items(out, items);
            append_str(out, "</ol>\n");
            assert(out@ =~= base + spec_block_html(*block));
        },
        Block::DefinitionList(items) => {
            append_str(out, "<dl>\n");
            write_defs(out, items);
            append_str(out, "</dl>\n");
            assert(out@ =~= base + spec_block_html(*block));
        },
        Block::Table(t) => {
            write_table(out, t);
        },
        Block::Figure(attr, _caption, bs) => {
            append_str(out, "<figure");
            push_render_attr(out, attr);
            append_str(out, ">\n");
            write_blocks(out, bs);
            append_str(out, "</figure>\n");
            assert(out@ =~= base + spec_block_html(*block));
        },
        Block::Div(attr, bs) => {
            append_str(out, "<div");
            push_render_attr(out, attr);
            append_str(out, ">\n");
            write_blocks(out, bs);
            append_str(out, "</div>\n");
            assert(out@ =~= base + spec_block_html(*block));
        },
        Block::HorizontalRule => {
            append_str(out, "<hr>\n");
        },
        Block::PageBreak => {
            append_str(out, "<div style=\"page-break-after: always;\"></div>\n");
        },
    }
}

/// Appends the attribute-value escaping of the characters `v` to `out`.
fn push_escaped_attr_chars(out: &mut Vec<char>, v: &[char])
    ensures
        final(out)@ == old(out)@ + spec_escape_attr(v@),
{
    let mut i: usize = 0;
    assert(spec_escape_attr(v@.take(0)) =~= Seq::<char>::empty());
    assert(out@ =~= old(out)@ + spec_escape_attr(v@.take(0)));
    while i < v.len()
        invariant
            i <= v@.len(),
            out@ == old(out)@ + spec_escape_attr(v@.take(i as int)),
        decreases v@.len() - i,
    {
        let c = v[i];
        if c == '&' {
            append_str(out, "&amp;");
        } else if c == '"' {
            append_str(out, "&quot;");
        } else if c == '<' {
            append_str(out, "&lt;");
        } else if c == '>' {
            append_str(out, "&gt;");
        } else {
            out.push(c);
            assert(spec_escape_attr_char(c) =~= seq![c]);
        }
        proof {
            assert(v@.take(i + 1).drop_last() =~= v@.take(i as int));
            assert(v@.take(i + 1).last() == v@[i as int]);
            assert(out@ =~= old(out)@ + spec_escape_attr(v@.take(i as int))
                + spec_escape_attr_char(v@[i as int]));
        }
        i = i + 1;
    }
    assert(v@.take(v@.len() as int) =~= v@);
}


/// The document title drawn from metadata, or empty when absent.
pub open spec fn spec_title_str(m: Meta) -> Seq<char> {
    match spec_meta_get_str(m.entries@, "title"@) {
        Some(s) => s,
        None => Seq::empty(),
    }
}

/// The body font size drawn from metadata, or the default token.
pub open spec fn spec_fontsize_str(m: Meta) -> Seq<char> {
    match spec_meta_get_str(m.entries@, "fontsize"@) {
        Some(s) => s,
        None => "12pt"@,
    }
}

/// The metadata header element: emitted only when a title, subtitle,
/// author or date is present, and holding only the parts that are.
pub open spec fn spec_meta_header(m: Meta) -> Seq<char> {
    let t = spec_title_str(m);
    let sub = spec_meta_get_str(m.entries@, "subtitle"@);
    let auth = spec_meta_get_str(m.entries@, "author"@);
    let dt = spec_meta_get_str(m.entries@, "date"@);
    if t.len() > 0 || sub is Some || auth is Some || dt is Some {
        "<header>\n"@ + (if t.len() > 0 {
            "<h1 class=\"title\">"@ + spec_escape_html(t) + "</h1>\n"@
        } else {
            Seq::empty()
        }) + (match sub {
            Some(s) => "<p class=\"subtitle\">"@ + spec_escape_html(s) + "</p>\n"@,
            None => Seq::empty(),
        }) + (match auth {
            Some(s) => "<p class=\"author\">"@ + spec_escape_html(s) + "</p>\n"@,
            None => Seq::empty(),
        }) + (match dt {
            Some(s) => "<p class=\"date\">"@ + spec_escape_html(s) + "</p>\n"@,
            None => Seq::empty(),
        }) + "</header>\n"@
    } else {
        Seq::empty()
    }
}

/// The full HTML document for `doc`.
pub open spec fn spec_write_html(doc: Document) -> Seq<char> {
    let title = spec_title_str(doc.meta);
    "<!DOCTYPE html>\n<html>\n<head>\n<meta charset=\"UTF-8\">\n"@ + (if title.len() > 0 {
        "<title>"@ + spec_escape_html(title) + "</title>\n"@
    } else {
        Seq::empty()
    })
        + "<style>\nbody { font-family: \"Calibri\", \"Segoe UI\", \"Arial\", sans-serif; font-size: "@
        + spec_escape_html(spec_fontsize_str(doc.meta))
        + "; line-height: 1.6; max-width: 800px; margin: 0 auto; padding: 2em; color: #333; }\ntable { border-collapse: collapse; width: 100%; margin: 1em 0; }\nth, td { border: 1px solid #999; padding: 8px 12px; text-align: left; }\nth { background-color: #1F4E79; color: white; font-weight: bold; }\ntr:nth-child(even) { background-color: #EDF2F7; }\npre { background: #f5f5f5; padding: 1em; overflow-x: auto; border-radius: 4px; }\ncode { font-family: \"Courier New\", monospace; }\nblockquote { border-left: 4px solid #1F4E79; margin: 1em 0; padding: 0.5em 1em; background: #f9f9f9; }\nh1, h2, h3 { color: #1F4E79; }\nhr { border: none; border-top: 2px solid #ccc; margin: 2em 0; }\n</style>\n"@
        + "</head>\n<body>\n"@ + spec_meta_header(doc.meta) + spec_blocks_html(doc.blocks@)
        + "</body>\n</html>"@
}

/// Renders the metadata header element into `out`.
#[verifier::rlimit(100)]
#[verifier::spinoff_prover]
fn write_meta_header(out: &mut Vec<char>, meta: &Meta)
    ensures
        final(out)@ == old(out)@ + spec_meta_header(*meta),
{
    let ghost base = out@;
    let ghost t = spec_title_str(*meta);
    let ghost sub = spec_meta_get_str(meta.entries@, "subtitle"@);
    let ghost auth = spec_meta_get_str(meta.entries@, "author"@);
    let ghost dt = spec_meta_get_str(meta.entries@, "date"@);
    let has_title: bool = match meta.title() {
        Some(s) => s.unicode_len() > 0,
        None => false,
    };
    assert(has_title == (t.len() > 0));
    let has_sub = meta.subtitle().is_some();
    let has_auth = meta.author().is_some();
    let has_dt = meta.date().is_some();
    assert(has_sub == (sub is Some));
    assert(has_auth == (auth is Some));
    assert(has_dt == (dt is Some));
    if has_title || has_sub || has_auth || has_dt {
        append_str(out, "<header>\n");
        if has_title {
            if let Some(s) = meta.title() {
                append_str(out, "<h1 class=\"title\">");
                push_escaped_html(out, s);
                append_str(out, "</h1>\n");
            }
        }
        let ghost p1 = out@;
        assert(p1 =~= base + "<header>\n"@ + (if t.len() > 0 {
            "<h1 class=\"title\">"@ + spec_escape_html(t) + "</h1>\n"@
        } else {
            Seq::<char>::empty()
        }));
        if let Some(s) = meta.subtitle() {
            append_str(out, "<p class=\"subtitle\">");
            push_escaped_html(out, s);
            append_str(out, "</p>\n");
        }
        let ghost p2 = out@;
        assert(p2 =~= p1 + (match sub {
            Some(ss) => "<p class=\"subtitle\">"@ + spec_escape_html(ss) + "</p>\n"@,
            None => Seq::<char>::empty(),
        }));
        if let Some(s) = meta.author() {
            append_str(out, "<p class=\"author\">");
            push_escaped_html(out, s);
            append_str(out, "</p>\n");
        }
        let ghost p3 = out@;
        assert(p3 =~= p2 + (match auth {
            Some(ss) => "<p class=\"author\">"@ + spec_escape_html(ss) + "</p>\n"@,
            None => Seq::<char>::empty(),
        }));
        if let Some(s) = meta.date() {
            append_str(out, "<p class=\"date\">");
            push_escaped_html(out, s);
            append_str(out, "</p>\n");
        }
        let ghost p4 = out@;
        assert(p4 =~= p3 + (match dt {
            Some(ss) => "<p class=\"date\">"@ + spec_escape_html(ss) + "</p>\n"@,
            None => Seq::<char>::empty(),
        }));
        append_str(out, "</header>\n");
        assert(out@ =~= base + spec_meta_header(*meta));
    } else {
        assert(out@ =~= base + spec_meta_header(*meta));
    }
}

/// Converts a `Document` into a full HTML string: head with charset, an
/// optional title element, an embedded style block parameterized by the
/// metadata font size, a metadata header block, then the rendered body.
#[verifier::rlimit(100)]
#[verifier::spinoff_prover]
pub fn write_html(doc: &Document) -> (r: String)
    ensures
        r@ == spec_write_html(*doc),
{
    let mut out: Vec<char> = Vec::new();
    let ghost t = spec_title_str(doc.meta);
    append_str(&mut out, "<!DOCTYPE html>\n<html>\n<head>\n<meta charset=\"UTF-8\">\n");
    let has_title: bool = match doc.meta.title() {
        Some(s) => s.unicode_len() > 0,
        None => false,
    };
    assert(has_title == (t.len() > 0));
    if has_title {
        if let Some(s) = doc.meta.title() {
            append_str(&mut out, "<title>");
            push_escaped_html(&mut out, s);
            append_str(&mut out, "</title>\n");
        }
    }
    let ghost p1 = out@;
    assert(p1 =~= "<!DOCTYPE html>\n<html>\n<head>\n<meta charset=\"UTF-8\">\n"@ + (
    if t.len() > 0 {
        "<title>"@ + spec_escape_html(t) + "</title>\n"@
    } else {
        Seq::<char>::empty()
    }));
    append_str(
        &mut out,
        "<style>\nbody { font-family: \"Calibri\", \"Segoe UI\", \"Arial\", sans-serif; font-size: ",
    );
    match doc.meta.get_str("fontsize") {
        Some(f) => push_escaped_html(&mut out, f),
        None => push_escaped_html(&mut out, "12pt"),
    }
    append_str(
        &mut out,
        "; line-height: 1.6; max-width: 800px; margin: 0 auto; padding: 2em; color: #333; }\ntable { border-collapse: collapse; width: 100%; margin: 1em 0; }\nth, td { border: 1px solid #999; padding: 8px 12px; text-align: left; }\nth { background-color: #1F4E79; color: white; font-weight: bold; }\ntr:nth-child(even) { background-color: #EDF2F7; }\npre { background: #f5f5f5; padding: 1em; overflow-x: auto; border-radius: 4px; }\ncode { font-family: \"Courier New\", monospace; }\nblockquote { border-left: 4px solid #1F4E79; margin: 1em 0; padding: 0.5em 1em; background: #f9f9f9; }\nh1, h2, h3 { color: #1F4E79; }\nhr { border: none; border-top: 2px solid #ccc; margin: 2em 0; }\n</style>\n",
    );
    append_str(&mut out, "</head>\n<body>\n");
    let ghost p2 = out@;
    assert(p2 =~= p1
        + "<style>\nbody { font-family: \"Calibri\", \"Segoe UI\", \"Arial\", sans-serif; font-size: "@
        + spec_escape_html(spec_fontsize_str(doc.meta))
        + "; line-height: 1.6; max-width: 800px; margin: 0 auto; padding: 2em; color: #333; }\ntable { border-collapse: collapse; width: 100%; margin: 1em 0; }\nth, td { border: 1px solid #999; padding: 8px 12px; text-align: left; }\nth { background-color: #1F4E79; color: white; font-weight: bold; }\ntr:nth-child(even) { background-color: #EDF2F7; }\npre { background: #f5f5f5; padding: 1em; overflow-x: auto; border-radius: 4px; }\ncode { font-family: \"Courier New\", monospace; }\nblockquote { border-left: 4px solid #1F4E79; margin: 1em 0; padding: 0.5em 1em; background: #f9f9f9; }\nh1, h2, h3 { color: #1F4E79; }\nhr { border: none; border-top: 2px solid #ccc; margin: 2em 0; }\n</style>\n"@
        + "</head>\n<body>\n"@);
    write_meta_header(&mut out, &doc.meta);
    let ghost p3 = out@;
    write_blocks(&mut out, &doc.blocks);
    append_str(&mut out, "</body>\n</html>");
    assert(out@ =~= p3 + spec_blocks_html(doc.blocks@) + "</body>\n</html>"@);
    assert(out@ =~= spec_write_html(*doc));
    string_from_chars(out.as_slice())
}

/// Literal text reaches text content only through the text-content
/// escaping, applied exactly once: the rendering of a literal inline is
/// precisely the escaped form of its characters, in which no `<`, `>`,
/// `"` or `'` survives.
pub proof fn lemma_literal_text_escaped(s: String)
    ensures
        spec_inline_html(Inline::Str(s)) == spec_escape_html(s@),
        forall|i: int|
            0 <= i < spec_escape_html(s@).len() ==> (#[trigger] spec_escape_html(s@)[i]) != '<'
                && spec_escape_html(s@)[i] != '>' && spec_escape_html(s@)[i] != '"'
                && spec_escape_html(s@)[i] != '\'',
{
    lemma_escape_html_no_markup(s@);
}

/// Rendering is a pure function of the document: any two renderings of
/// the same document are character-identical.
pub proof fn lemma_write_html_pure(doc: Document, a: Seq<char>, b: Seq<char>)
    requires
        a == spec_write_html(doc),
        b == spec_write_html(doc),
    ensures
        a == b,
{
}

/// When no reserved metadata key is bound to a string, no metadata header
/// element is emitted at all.
pub proof fn lemma_meta_header_optional(m: Meta)
    requires
        spec_meta_get_str(m.entries@, "title"@) is None,
        spec_meta_get_str(m.entries@, "subtitle"@) is None,
        spec_meta_get_str(m.entries@, "author"@) is None,
        spec_meta_get_str(m.entries@, "date"@) is None,
    ensures
        spec_meta_header(m) == Seq::<char>::empty(),
{
}

} // verus!

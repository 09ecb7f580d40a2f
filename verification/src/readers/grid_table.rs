//! A line-oriented preprocessor that rewrites grid tables and a few escape
//! notations into forms the downstream Markdown parser accepts.
//!
//! Grid tables look like:
//!
//! ```text
//! +-----+--------+
//! | No. | Module |
//! +=====+========+
//! | 1   | POS    |
//! +-----+--------+
//! ```
//!
//! and are rewritten as pipe tables with one header row, one `---` separator
//! row, and the body rows.  Independently, a standalone `\newpage` line
//! becomes an HTML page-break sentinel, a standalone `\` line becomes a blank
//! line, and fenced-div `:::` marker lines are dropped.

use vstd::prelude::*;

use crate::strutil::{
    append_chars, append_str, chars_contain, chars_eq_str, chars_start_with_str, chars_of,
    first_nl, is_space, lemma_first_nl_at, lemma_lines_of_concat, lemma_lines_of_pop,
    lemma_lines_of_single, lemma_lines_no_nl, lemma_trim_end_prefix, lemma_trim_no_nl,
    lemma_trim_strip_cr, no_nl, spec_lines_of, spec_trim, spec_trim_end, spec_trim_start,
    split_lines, string_from_chars, strip_cr, trim_chars, views_of,
};
use vstd::string::StrSliceExecFns;

verus! {

/// Whether a line is a grid-table border: it starts and ends with `+`, has
/// length at least 3, and holds only `+`, `-` and `=`.
pub open spec fn spec_is_border(s: Seq<char>) -> bool {
    &&& s.len() >= 3
    &&& s[0] == '+'
    &&& s.last() == '+'
    &&& forall|i: int| 0 <= i < s.len() ==> (s[i] == '+' || s[i] == '-' || s[i] == '=')
}

/// Whether a line is a grid-table data line: its trimmed form starts and
/// ends with `|`.
pub open spec fn spec_is_data(s: Seq<char>) -> bool {
    let t = spec_trim(s);
    t.len() >= 1 && t[0] == '|' && t.last() == '|'
}

/// Whether a line is a header separator: a border that uses `=`.
pub open spec fn spec_is_header_sep(s: Seq<char>) -> bool {
    let t = spec_trim(s);
    spec_is_border(t) && t.contains('=')
}

/// The positions of the `+` characters in `s`, in ascending order.
pub open spec fn spec_boundaries(s: Seq<char>) -> Seq<int>
    decreases s.len(),
{
    if s.len() == 0 {
        Seq::empty()
    } else if s.last() == '+' {
        spec_boundaries(s.drop_last()).push(s.len() - 1)
    } else {
        spec_boundaries(s.drop_last())
    }
}

/// The content of the cell between boundary positions `start` and `end` of
/// a data line: the trimmed characters strictly between them, or empty when
/// the positions do not fit in the line.
pub open spec fn spec_extract_cell(line: Seq<char>, start: int, end: int) -> Seq<char> {
    if 0 <= start && start + 1 < end && end <= line.len() {
        spec_trim(line.subrange(start + 1, end))
    } else {
        Seq::empty()
    }
}

/// Checks a character vector against the border-line shape.
fn is_border_chars(v: &[char]) -> (r: bool)
    ensures
        r == spec_is_border(v@),
{
    if v.len() < 3 {
        return false;
    }
    if v[0] != '+' || v[v.len() - 1] != '+' {
        return false;
    }
    let mut i: usize = 0;
    while i < v.len()
        invariant
            i <= v@.len(),
            forall|j: int| 0 <= j < i ==> (v@[j] == '+' || v@[j] == '-' || v@[j] == '='),
        decreases v@.len() - i,
    {
        let c = v[i];
        if c != '+' && c != '-' && c != '=' {
            return false;
        }
        i = i + 1;
    }
    true
}

/// Whether a line is a grid-table border line.
pub fn is_border_line(line: &str) -> (r: bool)
    ensures
        r == spec_is_border(line@),
{
    let cs = chars_of(line);
    is_border_chars(cs.as_slice())
}

/// Whether a line is a grid-table data line.
pub fn is_data_line(line: &str) -> (r: bool)
    ensures
        r == spec_is_data(line@),
{
    let cs = chars_of(line);
    let t = trim_chars(cs.as_slice());
    t.len() >= 1 && t[0] == '|' && t[t.len() - 1] == '|'
}

/// Whether a line is a grid-table header separator.
pub fn is_header_separator(line: &str) -> (r: bool)
    ensures
        r == spec_is_header_sep(line@),
{
    let cs = chars_of(line);
    let t = trim_chars(cs.as_slice());
    is_border_chars(t.as_slice()) && chars_contain(t.as_slice(), '=')
}

/// Finds the positions of `+` characters in a border line.
pub fn find_column_boundaries(border_line: &str) -> (r: Vec<usize>)
    ensures
        r@.map_values(|u: usize| u as int) == spec_boundaries(border_line@),
{
    let cs = chars_of(border_line);
    boundaries_chars(cs.as_slice())
}

/// Finds the positions of `+` characters in a character vector.
fn boundaries_chars(v: &[char]) -> (r: Vec<usize>)
    ensures
        r@.map_values(|u: usize| u as int) == spec_boundaries(v@),
        forall|k: int| 0 <= k < r@.len() ==> r@[k] < v@.len(),
{
    let mut r: Vec<usize> = Vec::new();
    let mut i: usize = 0;
    assert(r@.map_values(|u: usize| u as int) =~= spec_boundaries(v@.take(0)));
    while i < v.len()
        invariant
            i <= v@.len(),
            r@.map_values(|u: usize| u as int) == spec_boundaries(v@.take(i as int)),
            forall|k: int| 0 <= k < r@.len() ==> r@[k] < i,
        decreases v@.len() - i,
    {
        assert(v@.take(i + 1).drop_last() =~= v@.take(i as int));
        assert(v@.take(i + 1).last() == v@[i as int]);
        if v[i] == '+' {
            r.push(i);
            assert(r@.map_values(|u: usize| u as int) =~= spec_boundaries(v@.take(i + 1)));
        }
        i = i + 1;
    }
    assert(v@.take(v@.len() as int) =~= v@);
    r
}

/// Extracts one cell's content from a data line, given two boundary
/// positions.
pub fn extract_cell(line: &str, start: usize, end: usize) -> (r: String)
    ensures
        r@ == spec_extract_cell(line@, start as int, end as int),
{
    let cs = chars_of(line);
    extract_cell_chars(cs.as_slice(), start, end)
}

/// Extracts one cell's content from the characters of a data line.
fn extract_cell_chars(v: &[char], start: usize, end: usize) -> (r: String)
    ensures
        r@ == spec_extract_cell(v@, start as int, end as int),
{
    if start < end && start + 1 < end && end <= v.len() {
        let sub = vstd::slice::slice_subrange(v, start + 1, end);
        let t = trim_chars(sub);
        string_from_chars(t.as_slice())
    } else {
        String::new()
    }
}

/// How one accumulated cell grows by a new fragment: an empty fragment
/// changes nothing; otherwise the fragment is appended, after a single
/// space when the cell already has content.
pub open spec fn spec_cell_add(cell: Seq<char>, content: Seq<char>) -> Seq<char> {
    if content.len() == 0 {
        cell
    } else if cell.len() == 0 {
        content
    } else {
        cell + seq![' '] + content
    }
}

/// The cells of a row after one data line is folded in.
pub open spec fn spec_row_add_line(
    cells: Seq<Seq<char>>,
    line: Seq<char>,
    bounds: Seq<int>,
) -> Seq<Seq<char>> {
    Seq::new(
        cells.len(),
        |col: int|
            if col + 1 < bounds.len() {
                spec_cell_add(cells[col], spec_extract_cell(line, bounds[col], bounds[col + 1]))
            } else {
                cells[col]
            },
    )
}

/// A single logical grid-table row.  One logical row may span several data
/// lines; this accumulates the content of each cell across those lines,
/// joining the non-empty fragments of a cell with single spaces, in order.
pub struct GridRow {
    pub cells: Vec<String>,
}

/// The views of a row's cells.
pub open spec fn cell_views(cells: Seq<String>) -> Seq<Seq<char>> {
    Seq::new(cells.len(), |i: int| cells[i]@)
}

impl GridRow {
    /// A row of `num_cols` empty cells.
    pub fn new(num_cols: usize) -> (r: GridRow)
        ensures
            r.cells@.len() == num_cols,
            forall|i: int| 0 <= i < num_cols ==> r.cells@[i]@.len() == 0,
    {
        let mut cells: Vec<String> = Vec::new();
        let mut i: usize = 0;
        while i < num_cols
            invariant
                i <= num_cols,
                cells@.len() == i,
                forall|j: int| 0 <= j < i ==> cells@[j]@.len() == 0,
            decreases num_cols - i,
        {
            cells.push(String::new());
            i = i + 1;
        }
        GridRow { cells }
    }

    /// Folds the content of one data line into the row: each cell gains the
    /// fragment between its boundary positions, joined to what it already
    /// holds by a single space when both are non-empty.
    pub fn add_line(&mut self, line: &str, boundaries: &[usize])
        ensures
            cell_views(final(self).cells@) == spec_row_add_line(
                cell_views(old(self).cells@),
                line@,
                boundaries@.map_values(|u: usize| u as int),
            ),
    {
        let cs = chars_of(line);
        self.add_line_chars(cs.as_slice(), boundaries);
    }

    /// As `add_line`, over the characters of the data line.
    pub fn add_line_chars(&mut self, line: &[char], boundaries: &[usize])
        ensures
            cell_views(final(self).cells@) == spec_row_add_line(
                cell_views(old(self).cells@),
                line@,
                boundaries@.map_values(|u: usize| u as int),
            ),
    {
        let ghost bs = boundaries@.map_values(|u: usize| u as int);
        let ghost old_cells = cell_views(old(self).cells@);
        let num_cols = self.cells.len();
        let mut new_cells: Vec<String> = Vec::new();
        let mut col: usize = 0;
        while col < num_cols
            invariant
                col <= num_cols,
                num_cols == self.cells@.len(),
                self.cells@ == old(self).cells@,
                bs == boundaries@.map_values(|u: usize| u as int),
                old_cells == cell_views(old(self).cells@),
                new_cells@.len() == col,
                forall|j: int|
                    0 <= j < col ==> new_cells@[j]@ == spec_row_add_line(old_cells, line@, bs)[j],
            decreases num_cols - col,
        {
            let updated: String = if col + 1 < boundaries.len() {
                let content = extract_cell_chars(line, boundaries[col], boundaries[col + 1]);
                if content.as_str().unicode_len() == 0 {
                    self.cells[col].clone()
                } else if self.cells[col].as_str().unicode_len() == 0 {
                    content
                } else {
                    let mut s = self.cells[col].clone();
                    s.push(' ');
                    s.append(content.as_str());
                    assert(s@ =~= old_cells[col as int] + seq![' '] + content@);
                    s
                }
            } else {
                self.cells[col].clone()
            };
            new_cells.push(updated);
            col = col + 1;
        }
        self.cells = new_cells;
        assert(cell_views(self.cells@) =~= spec_row_add_line(old_cells, line@, bs));
    }
}

/// A row of `ncols` empty cells.
pub open spec fn empty_row(ncols: int) -> Seq<Seq<char>> {
    Seq::new(ncols as nat, |c: int| Seq::<char>::empty())
}

/// Whether any cell of the row holds content.
pub open spec fn row_has_content(row: Seq<Seq<char>>) -> bool {
    exists|c: int| 0 <= c < row.len() && row[c].len() > 0
}

/// The row-collection state while walking a grid table's lines: finished
/// header and body rows, the row being accumulated, whether accumulation is
/// still in the header, and whether the first border has been passed.
pub struct GridCollect {
    pub header: Seq<Seq<Seq<char>>>,
    pub body: Seq<Seq<Seq<char>>>,
    pub current: Seq<Seq<char>>,
    pub in_header: bool,
    pub past_first: bool,
}

/// One step of row collection: a border line ends the logical row (pushing
/// it to the header or body when it has content, and leaving the header when
/// the border is a separator); a data line folds into the current row.
pub open spec fn spec_collect_step(
    st: GridCollect,
    line: Seq<char>,
    bounds: Seq<int>,
    ncols: int,
) -> GridCollect {
    let t = spec_trim(line);
    if spec_is_border(t) {
        if st.past_first {
            GridCollect {
                header: if row_has_content(st.current) && st.in_header {
                    st.header.push(st.current)
                } else {
                    st.header
                },
                body: if row_has_content(st.current) && !st.in_header {
                    st.body.push(st.current)
                } else {
                    st.body
                },
                current: empty_row(ncols),
                in_header: if t.contains('=') {
                    false
                } else {
                    st.in_header
                },
                past_first: true,
            }
        } else {
            GridCollect { past_first: true, ..st }
        }
    } else if t.len() >= 1 && t[0] == '|' && t.last() == '|' {
        GridCollect { current: spec_row_add_line(st.current, t, bounds), ..st }
    } else {
        st
    }
}

/// The row-collection state after walking all of `lines`.
pub open spec fn spec_collect(
    lines: Seq<Seq<char>>,
    bounds: Seq<int>,
    ncols: int,
    start_in_header: bool,
) -> GridCollect
    decreases lines.len(),
{
    if lines.len() == 0 {
        GridCollect {
            header: Seq::empty(),
            body: Seq::empty(),
            current: empty_row(ncols),
            in_header: start_in_header,
            past_first: false,
        }
    } else {
        spec_collect_step(
            spec_collect(lines.drop_last(), bounds, ncols, start_in_header),
            lines.last(),
            bounds,
            ncols,
        )
    }
}

/// The parts joined by the separator.
pub open spec fn spec_join(parts: Seq<Seq<char>>, sep: Seq<char>) -> Seq<char>
    decreases parts.len(),
{
    if parts.len() == 0 {
        Seq::empty()
    } else if parts.len() == 1 {
        parts[0]
    } else {
        spec_join(parts.drop_last(), sep) + sep + parts.last()
    }
}

/// One emitted pipe-table line for a row's cells.
pub open spec fn spec_row_line(cells: Seq<Seq<char>>) -> Seq<char> {
    "| "@ + spec_join(cells, " | "@) + " |\n"@
}

/// The cells of the `---` separator row.
pub open spec fn sep_cells(ncols: int) -> Seq<Seq<char>> {
    Seq::new(ncols as nat, |i: int| "---"@)
}

/// The emitted pipe-table lines for a sequence of rows.
pub open spec fn spec_rows_out(rows: Seq<Seq<Seq<char>>>) -> Seq<char>
    decreases rows.len(),
{
    if rows.len() == 0 {
        Seq::empty()
    } else {
        spec_rows_out(rows.drop_last()) + spec_row_line(rows.last())
    }
}

/// The lines joined with newlines, without a trailing newline.
pub open spec fn spec_join_lines(lines: Seq<Seq<char>>) -> Seq<char> {
    spec_join(lines, seq!['\n'])
}

/// Each line followed by a newline.
pub open spec fn spec_verbatim(lines: Seq<Seq<char>>) -> Seq<char>
    decreases lines.len(),
{
    if lines.len() == 0 {
        Seq::empty()
    } else {
        spec_verbatim(lines.drop_last()) + lines.last() + seq!['\n']
    }
}

/// The pipe-table text for a collected block of grid-table lines: the first
/// header row (or, when no header separator was seen, the first body row),
/// one `---` separator row, and the remaining body rows.  A block whose
/// first border yields fewer than two boundaries, or which yields no rows at
/// all, is passed through joined by newlines.
pub open spec fn spec_convert_gfm(lines: Seq<Seq<char>>) -> Seq<char> {
    let first = spec_trim(lines[0]);
    let bounds = spec_boundaries(first);
    if bounds.len() < 2 {
        spec_join_lines(lines)
    } else {
        let ncols = bounds.len() - 1;
        let has_sep = exists|k: int| 0 <= k < lines.len() && spec_is_header_sep(lines[k]);
        let st = spec_collect(lines, bounds, ncols as int, has_sep);
        if st.header.len() > 0 {
            spec_row_line(st.header[0]) + spec_row_line(sep_cells(ncols as int)) + spec_rows_out(
                st.body,
            )
        } else if st.body.len() > 0 {
            spec_row_line(st.body[0]) + spec_row_line(sep_cells(ncols as int)) + spec_rows_out(
                st.body.drop_first(),
            )
        } else {
            spec_join_lines(lines)
        }
    }
}

/// The views of a sequence of rows.
pub open spec fn row_views(rows: Seq<GridRow>) -> Seq<Seq<Seq<char>>> {
    Seq::new(rows.len(), |i: int| cell_views(rows[i].cells@))
}

/// Checks the trimmed characters of a line against the header-separator
/// shape.
fn is_header_sep_chars(v: &[char]) -> (r: bool)
    ensures
        r == spec_is_header_sep(v@),
{
    let t = trim_chars(v);
    is_border_chars(t.as_slice()) && chars_contain(t.as_slice(), '=')
}

/// Whether any line in `[lo, hi)` is a header separator.
fn any_header_sep(lines: &Vec<Vec<char>>, lo: usize, hi: usize) -> (r: bool)
    requires
        lo <= hi <= lines@.len(),
    ensures
        r == exists|k: int| lo <= k < hi && spec_is_header_sep(views_of(lines@)[k]),
{
    let mut m: usize = lo;
    while m < hi
        invariant
            lo <= m <= hi <= lines@.len(),
            forall|k: int| lo <= k < m ==> !spec_is_header_sep(views_of(lines@)[k]),
        decreases hi - m,
    {
        if is_header_sep_chars(lines[m].as_slice()) {
            assert(spec_is_header_sep(views_of(lines@)[m as int]));
            return true;
        }
        m = m + 1;
    }
    false
}

/// Whether any cell of the row holds content.
fn grid_row_has_content(row: &GridRow) -> (r: bool)
    ensures
        r == row_has_content(cell_views(row.cells@)),
{
    let mut c: usize = 0;
    while c < row.cells.len()
        invariant
            c <= row.cells@.len(),
            forall|k: int| 0 <= k < c ==> cell_views(row.cells@)[k].len() == 0,
        decreases row.cells@.len() - c,
    {
        if row.cells[c].as_str().unicode_len() != 0 {
            assert(cell_views(row.cells@)[c as int].len() > 0);
            return true;
        }
        c = c + 1;
    }
    false
}

/// Appends one pipe-table line for a row's cells.
fn append_row_line(out: &mut Vec<char>, cells: &Vec<String>)
    ensures
        final(out)@ == old(out)@ + spec_row_line(cell_views(cells@)),
{
    let ghost cv = cell_views(cells@);
    append_str(out, "| ");
    let mut c: usize = 0;
    while c < cells.len()
        invariant
            c <= cells@.len(),
            cv == cell_views(cells@),
            out@ == old(out)@ + "| "@ + spec_join(cv.take(c as int), " | "@),
        decreases cells@.len() - c,
    {
        if c > 0 {
            append_str(out, " | ");
        }
        append_str(out, cells[c].as_str());
        proof {
            assert(cv.take(c + 1).drop_last() =~= cv.take(c as int));
            assert(cv.take(c + 1).last() == cv[c as int]);
            if c == 0 {
                assert(spec_join(cv.take(1), " | "@) == cv[0]);
            }
        }
        c = c + 1;
    }
    assert(cv.take(cells@.len() as int) =~= cv);
    append_str(out, " |\n");
}

/// Appends the `---` separator row for `ncols` columns.
fn append_sep_line(out: &mut Vec<char>, ncols: usize)
    ensures
        final(out)@ == old(out)@ + spec_row_line(sep_cells(ncols as int)),
{
    let ghost cv = sep_cells(ncols as int);
    append_str(out, "| ");
    let mut c: usize = 0;
    while c < ncols
        invariant
            c <= ncols,
            cv == sep_cells(ncols as int),
            out@ == old(out)@ + "| "@ + spec_join(cv.take(c as int), " | "@),
        decreases ncols - c,
    {
        if c > 0 {
            append_str(out, " | ");
        }
        append_str(out, "---");
        proof {
            assert(cv.take(c + 1).drop_last() =~= cv.take(c as int));
            assert(cv.take(c + 1).last() == cv[c as int]);
            if c == 0 {
                assert(spec_join(cv.take(1), " | "@) == cv[0]);
            }
        }
        c = c + 1;
    }
    assert(cv.take(ncols as int) =~= cv);
    append_str(out, " |\n");
}

/// Converts the collected grid-table lines `[lo, hi)` into pipe-table text.
fn convert_grid_to_gfm_chars(lines: &Vec<Vec<char>>, lo: usize, hi: usize) -> (r: Vec<char>)
    requires
        lo < hi <= lines@.len(),
    ensures
        r@ == spec_convert_gfm(views_of(lines@).subrange(lo as int, hi as int)),
{
    let ghost tbl = views_of(lines@).subrange(lo as int, hi as int);
    let first = trim_chars(lines[lo].as_slice());
    assert(first@ == spec_trim(tbl[0]));
    let boundaries = boundaries_chars(first.as_slice());
    let ghost bs = boundaries@.map_values(|u: usize| u as int);
    if boundaries.len() < 2 {
        // Not enough columns: pass the block through joined by newlines.
        let mut out: Vec<char> = Vec::new();
        append_chars(&mut out, lines[lo].as_slice());
        assert(out@ =~= spec_join(tbl.take(1), seq!['\n']));
        let mut k: usize = lo + 1;
        while k < hi
            invariant
                lo + 1 <= k <= hi <= lines@.len(),
                tbl == views_of(lines@).subrange(lo as int, hi as int),
                out@ == spec_join(tbl.take(k - lo), seq!['\n']),
            decreases hi - k,
        {
            out.push('\n');
            append_chars(&mut out, lines[k].as_slice());
            proof {
                assert(tbl.take(k - lo + 1).drop_last() =~= tbl.take(k - lo));
                assert(tbl.take(k - lo + 1).last() == tbl[k - lo]);
                assert(tbl[k - lo] == lines@[k as int]@);
            }
            k = k + 1;
        }
        assert(tbl.take(hi - lo) =~= tbl);
        return out;
    }
    let num_cols = boundaries.len() - 1;
    let has_sep = any_header_sep(lines, lo, hi);
    proof {
        if exists|k: int| lo <= k < hi && spec_is_header_sep(views_of(lines@)[k]) {
            let k = choose|k: int| lo <= k < hi && spec_is_header_sep(views_of(lines@)[k]);
            assert(tbl[k - lo] == views_of(lines@)[k]);
            assert(spec_is_header_sep(tbl[k - lo]));
        }
        if exists|k: int| 0 <= k < tbl.len() && spec_is_header_sep(tbl[k]) {
            let k = choose|k: int| 0 <= k < tbl.len() && spec_is_header_sep(tbl[k]);
            assert(views_of(lines@)[lo + k] == tbl[k]);
            assert(spec_is_header_sep(views_of(lines@)[lo + k]));
        }
        assert((exists|k: int| lo <= k < hi && spec_is_header_sep(views_of(lines@)[k])) == (
        exists|k: int| 0 <= k < tbl.len() && spec_is_header_sep(tbl[k])));
    }

    let mut header_rows: Vec<GridRow> = Vec::new();
    let mut body_rows: Vec<GridRow> = Vec::new();
    let mut current = GridRow::new(num_cols);
    let mut in_header = has_sep;
    let mut past_first = false;
    assert(cell_views(current.cells@) =~~= empty_row(num_cols as int));
    assert(row_views(header_rows@) =~= Seq::<Seq<Seq<char>>>::empty());
    assert(row_views(body_rows@) =~= Seq::<Seq<Seq<char>>>::empty());
    assert(tbl.take(0) =~= Seq::<Seq<char>>::empty());

    let mut m: usize = lo;
    while m < hi
        invariant
            lo <= m <= hi <= lines@.len(),
            tbl == views_of(lines@).subrange(lo as int, hi as int),
            bs == boundaries@.map_values(|u: usize| u as int),
            boundaries@.len() == num_cols + 1,
            ({
                let st = spec_collect(tbl.take(m - lo), bs, num_cols as int, has_sep);
                &&& row_views(header_rows@) == st.header
                &&& row_views(body_rows@) == st.body
                &&& cell_views(current.cells@) == st.current
                &&& in_header == st.in_header
                &&& past_first == st.past_first
            }),
        decreases hi - m,
    {
        let ghost st = spec_collect(tbl.take(m - lo), bs, num_cols as int, has_sep);
        proof {
            assert(tbl.take(m - lo + 1).drop_last() =~= tbl.take(m - lo));
            assert(tbl.take(m - lo + 1).last() == tbl[m - lo]);
            assert(tbl[m - lo] == lines@[m as int]@);
        }
        let t = trim_chars(lines[m].as_slice());
        if is_border_chars(t.as_slice()) {
            if past_first {
                let has_content = grid_row_has_content(&current);
                if has_content {
                    if in_header {
                        let ghost hprev = header_rows@;
                        header_rows.push(current);
                        assert(row_views(header_rows@) =~~= row_views(hprev).push(
                            cell_views(header_rows@.last().cells@),
                        ));
                    } else {
                        let ghost bprev = body_rows@;
                        body_rows.push(current);
                        assert(row_views(body_rows@) =~~= row_views(bprev).push(
                            cell_views(body_rows@.last().cells@),
                        ));
                    }
                } else {
                    // The accumulated row is empty and is dropped.
                }
                current = GridRow::new(num_cols);
                assert(cell_views(current.cells@) =~~= empty_row(num_cols as int));
                if chars_contain(t.as_slice(), '=') {
                    in_header = false;
                }
            } else {
                past_first = true;
            }
        } else if t.len() >= 1 && t[0] == '|' && t[t.len() - 1] == '|' {
            current.add_line_chars(t.as_slice(), boundaries.as_slice());
        } else {
            // Neither border nor data: the line contributes nothing.
        }
        m = m + 1;
    }
    assert(tbl.take(hi - lo) =~= tbl);
    let ghost stf = spec_collect(tbl, bs, num_cols as int, has_sep);

    let mut out: Vec<char> = Vec::new();
    if header_rows.len() > 0 {
        append_row_line(&mut out, &header_rows[0].cells);
        assert(cell_views(header_rows@[0].cells@) == stf.header[0]);
        append_sep_line(&mut out, num_cols);
        let mut k: usize = 0;
        assert(stf.body.take(0) =~= Seq::<Seq<Seq<char>>>::empty());
        while k < body_rows.len()
            invariant
                k <= body_rows@.len(),
                row_views(body_rows@) == stf.body,
                out@ == spec_row_line(stf.header[0]) + spec_row_line(sep_cells(num_cols as int))
                    + spec_rows_out(stf.body.take(k as int)),
            decreases body_rows@.len() - k,
        {
            append_row_line(&mut out, &body_rows[k].cells);
            proof {
                assert(stf.body.take(k + 1).drop_last() =~= stf.body.take(k as int));
                assert(stf.body.take(k + 1).last() == stf.body[k as int]);
                assert(stf.body[k as int] == cell_views(body_rows@[k as int].cells@));
            }
            k = k + 1;
        }
        assert(stf.body.take(body_rows@.len() as int) =~= stf.body);
        out
    } else if body_rows.len() > 0 {
        append_row_line(&mut out, &body_rows[0].cells);
        assert(cell_views(body_rows@[0].cells@) == stf.body[0]);
        append_sep_line(&mut out, num_cols);
        let ghost brest = stf.body.drop_first();
        let mut k: usize = 1;
        assert(brest.take(0) =~= Seq::<Seq<Seq<char>>>::empty());
        while k < body_rows.len()
            invariant
                1 <= k <= body_rows@.len(),
                row_views(body_rows@) == stf.body,
                brest == stf.body.drop_first(),
                out@ == spec_row_line(stf.body[0]) + spec_row_line(sep_cells(num_cols as int))
                    + spec_rows_out(brest.take(k - 1)),
            decreases body_rows@.len() - k,
        {
            append_row_line(&mut out, &body_rows[k].cells);
            proof {
                assert(brest.take(k as int).drop_last() =~= brest.take(k - 1));
                assert(brest.take(k as int).last() == brest[k - 1]);
                assert(brest[k - 1] == stf.body[k as int]);
                assert(stf.body[k as int] == cell_views(body_rows@[k as int].cells@));
            }
            k = k + 1;
        }
        assert(brest.take(body_rows@.len() - 1) =~= brest);
        out
    } else {
        // No rows were collected: pass the block through joined by newlines.
        append_chars(&mut out, lines[lo].as_slice());
        assert(out@ =~= spec_join(tbl.take(1), seq!['\n']));
        let mut k: usize = lo + 1;
        while k < hi
            invariant
                lo + 1 <= k <= hi <= lines@.len(),
                tbl == views_of(lines@).subrange(lo as int, hi as int),
                out@ == spec_join(tbl.take(k - lo), seq!['\n']),
            decreases hi - k,
        {
            out.push('\n');
            append_chars(&mut out, lines[k].as_slice());
            proof {
                assert(tbl.take(k - lo + 1).drop_last() =~= tbl.take(k - lo));
                assert(tbl.take(k - lo + 1).last() == tbl[k - lo]);
                assert(tbl[k - lo] == lines@[k as int]@);
            }
            k = k + 1;
        }
        assert(tbl.take(hi - lo) =~= tbl);
        out
    }
}

/// Whether a line belongs to a grid-table block: a border or a data line.
pub open spec fn spec_collectible(s: Seq<char>) -> bool {
    spec_is_border(spec_trim(s)) || spec_is_data(s)
}

/// The first index at or after `j` whose line is neither border nor data,
/// or the number of lines.
pub open spec fn spec_table_end(lines: Seq<Seq<char>>, j: int) -> int
    decreases lines.len() - j,
{
    if j < 0 || j >= lines.len() {
        lines.len() as int
    } else if spec_collectible(lines[j]) {
        spec_table_end(lines, j + 1)
    } else {
        j
    }
}

/// The table end lies between `j` and the number of lines.
pub proof fn lemma_table_end_bounds(lines: Seq<Seq<char>>, j: int)
    requires
        0 <= j <= lines.len(),
    ensures
        j <= spec_table_end(lines, j) <= lines.len(),
    decreases lines.len() - j,
{
    if j < lines.len() && spec_collectible(lines[j]) {
        lemma_table_end_bounds(lines, j + 1);
    }
}

/// If every line in `[j, m)` is collectible and `m` is the end or not
/// collectible, then `m` is the table end from `j`.
pub proof fn lemma_table_end_at(lines: Seq<Seq<char>>, j: int, m: int)
    requires
        0 <= j <= m <= lines.len(),
        forall|k: int| j <= k < m ==> spec_collectible(lines[k]),
        m < lines.len() ==> !spec_collectible(lines[m]),
    ensures
        spec_table_end(lines, j) == m,
    decreases m - j,
{
    if j < m {
        lemma_table_end_at(lines, j + 1, m);
    }
}

/// The HTML sentinel emitted for a `\newpage` line.
pub open spec fn spec_page_break_line() -> Seq<char> {
    "<div style=\"page-break-after: always;\"></div>\n"@
}

/// The rewritten text from line `i` on.  A `\newpage` line becomes the
/// page-break sentinel, a `\` line becomes a blank line, a `:::` marker line
/// is dropped, a border line opens a grid-table block that is converted when
/// valid and passed through otherwise, and any other line passes through.
pub open spec fn spec_process(lines: Seq<Seq<char>>, i: int) -> Seq<char>
    decreases lines.len() - i,
    via spec_process_dec
{
    if i < 0 || i >= lines.len() {
        Seq::empty()
    } else {
        let t = spec_trim(lines[i]);
        if t == "\\newpage"@ {
            spec_page_break_line() + spec_process(lines, i + 1)
        } else if t == "\\"@ {
            seq!['\n'] + spec_process(lines, i + 1)
        } else if t.len() >= 3 && t.take(3) == ":::"@ {
            spec_process(lines, i + 1)
        } else if spec_is_border(t) {
            let j = spec_table_end(lines, i + 1);
            let tbl = lines.subrange(i, j);
            let chunk = if j - i >= 3 && spec_is_border(spec_trim(lines[j - 1])) {
                let g = spec_convert_gfm(tbl);
                if g.len() > 0 && g.last() == '\n' {
                    g
                } else {
                    g + seq!['\n']
                }
            } else {
                spec_verbatim(tbl)
            };
            chunk + spec_process(lines, j)
        } else {
            lines[i] + seq!['\n'] + spec_process(lines, i + 1)
        }
    }
}

#[via_fn]
proof fn spec_process_dec(lines: Seq<Seq<char>>, i: int) {
    if 0 <= i < lines.len() {
        lemma_table_end_bounds(lines, i + 1);
    }
}

/// The full rewrite: every line is processed, and the output carries a
/// trailing newline exactly when the input did (an empty output stays
/// empty).
pub open spec fn spec_preprocess(s: Seq<char>) -> Seq<char> {
    let out = spec_process(spec_lines_of(s), 0);
    if !(s.len() > 0 && s.last() == '\n') && out.len() > 0 && out.last() == '\n' {
        out.drop_last()
    } else {
        out
    }
}

/// Checks the trimmed characters of a line for the collectible shapes.
fn collectible_chars(v: &[char]) -> (r: bool)
    ensures
        r == spec_collectible(v@),
{
    let t = trim_chars(v);
    is_border_chars(t.as_slice()) || (t.len() >= 1 && t[0] == '|' && t[t.len() - 1] == '|')
}

/// Rewrites the input text: grid tables become pipe tables, `\newpage`
/// becomes an HTML page-break sentinel, a standalone `\` becomes a blank
/// line, and fenced-div `:::` marker lines are dropped.  Unrecognized text
/// passes through unchanged, and a trailing newline is kept exactly when
/// the input had one.
pub fn preprocess_grid_tables(input: &str) -> (r: String)
    ensures
        r@ == spec_preprocess(input@),
{
    let ichars = chars_of(input);
    let lines = split_lines(ichars.as_slice());
    let ghost lv = views_of(lines@);
    let mut out: Vec<char> = Vec::new();
    let mut i: usize = 0;
    while i < lines.len()
        invariant
            i <= lines@.len(),
            lv == views_of(lines@),
            spec_process(lv, 0) == out@ + spec_process(lv, i as int),
        decreases lines@.len() - i,
    {
        let ghost rest = spec_process(lv, i as int);
        let t = trim_chars(lines[i].as_slice());
        assert(t@ == spec_trim(lv[i as int]));
        proof {
            reveal_strlit(":::");
        }
        if chars_eq_str(t.as_slice(), "\\newpage") {
            let ghost base = out@;
            append_str(&mut out, "<div style=\"page-break-after: always;\"></div>\n");
            proof {
                assert(rest == spec_page_break_line() + spec_process(lv, i + 1));
                assert(out@ =~= base + spec_page_break_line());
                assert(base + rest =~= out@ + spec_process(lv, i + 1));
            }
            i = i + 1;
        } else if chars_eq_str(t.as_slice(), "\\") {
            let ghost base = out@;
            out.push('\n');
            proof {
                assert(rest == seq!['\n'] + spec_process(lv, i + 1));
                assert(out@ =~= base.push('\n'));
                assert(base + rest =~= out@ + spec_process(lv, i + 1));
            }
            i = i + 1;
        } else if chars_start_with_str(t.as_slice(), ":::") {
            assert(rest == spec_process(lv, i + 1));
            i = i + 1;
        } else if is_border_chars(t.as_slice()) {
            let ghost base = out@;
            let mut j: usize = i + 1;
            while j < lines.len() && collectible_chars(lines[j].as_slice())
                invariant
                    i + 1 <= j <= lines@.len(),
                    lv == views_of(lines@),
                    forall|k: int| i + 1 <= k < j ==> spec_collectible(lv[k]),
                decreases lines@.len() - j,
            {
                j = j + 1;
            }
            proof {
                lemma_table_end_at(lv, i + 1, j as int);
            }
            let ghost tbl = lv.subrange(i as int, j as int);
            let valid = j - i >= 3 && {
                let tlast = trim_chars(lines[j - 1].as_slice());
                is_border_chars(tlast.as_slice())
            };
            assert(valid == (j - i >= 3 && spec_is_border(spec_trim(lv[j - 1]))));
            let ghost chunk = if j - i >= 3 && spec_is_border(spec_trim(lv[j - 1])) {
                let g = spec_convert_gfm(tbl);
                if g.len() > 0 && g.last() == '\n' {
                    g
                } else {
                    g + seq!['\n']
                }
            } else {
                spec_verbatim(tbl)
            };
            proof {
                assert(rest == chunk + spec_process(lv, j as int));
            }
            if valid {
                let g = convert_grid_to_gfm_chars(&lines, i, j);
                let push_nl = g.len() == 0 || g[g.len() - 1] != '\n';
                append_chars(&mut out, g.as_slice());
                if push_nl {
                    out.push('\n');
                    assert(out@ =~= base + (g@ + seq!['\n']));
                }
                assert(out@ == base + chunk);
            } else {
                let mut k: usize = i;
                assert(tbl.take(0) =~= Seq::<Seq<char>>::empty());
                while k < j
                    invariant
                        i <= k <= j <= lines@.len(),
                        lv == views_of(lines@),
                        tbl == lv.subrange(i as int, j as int),
                        out@ == base + spec_verbatim(tbl.take(k - i)),
                    decreases j - k,
                {
                    append_chars(&mut out, lines[k].as_slice());
                    out.push('\n');
                    proof {
                        assert(tbl.take(k - i + 1).drop_last() =~= tbl.take(k - i));
                        assert(tbl.take(k - i + 1).last() == tbl[k - i]);
                        assert(tbl[k - i] == lv[k as int]);
                        assert(base + spec_verbatim(tbl.take(k - i + 1)) =~= base + spec_verbatim(
                            tbl.take(k - i),
                        ) + lv[k as int] + seq!['\n']);
                    }
                    k = k + 1;
                }
                assert(tbl.take(j - i) =~= tbl);
                assert(out@ == base + chunk);
            }
            assert(spec_process(lv, 0) == out@ + spec_process(lv, j as int));
            i = j;
        } else {
            let ghost base = out@;
            append_chars(&mut out, lines[i].as_slice());
            out.push('\n');
            proof {
                assert(rest == lv[i as int] + seq!['\n'] + spec_process(lv, i + 1));
                assert(out@ =~= base + lv[i as int] + seq!['\n']);
                assert(base + rest =~= out@ + spec_process(lv, i + 1));
            }
            i = i + 1;
        }
    }
    assert(spec_process(lv, lines@.len() as int) =~= Seq::<char>::empty());
    assert(out@ =~= spec_process(lv, 0));
    assert(lv == spec_lines_of(input@));
    let ends_nl = ichars.len() > 0 && ichars[ichars.len() - 1] == '\n';
    assert(ends_nl == (input@.len() > 0 && input@.last() == '\n'));
    if !ends_nl && out.len() > 0 && out[out.len() - 1] == '\n' {
        let _ = out.pop();
        assert(out@ =~= spec_preprocess(input@));
    }
    string_from_chars(out.as_slice())
}

/// One cell accumulated across any number of data-line fragments: the
/// fold of the per-line joining rule.
pub open spec fn spec_cell_fold(frags: Seq<Seq<char>>) -> Seq<char>
    decreases frags.len(),
{
    if frags.len() == 0 {
        Seq::empty()
    } else {
        spec_cell_add(spec_cell_fold(frags.drop_last()), frags.last())
    }
}

/// The non-empty fragments, in their original order.
pub open spec fn spec_nonempty(frags: Seq<Seq<char>>) -> Seq<Seq<char>>
    decreases frags.len(),
{
    if frags.len() == 0 {
        Seq::empty()
    } else if frags.last().len() == 0 {
        spec_nonempty(frags.drop_last())
    } else {
        spec_nonempty(frags.drop_last()).push(frags.last())
    }
}

/// Every kept fragment is non-empty.
proof fn lemma_nonempty_lens(frags: Seq<Seq<char>>)
    ensures
        forall|i: int|
            0 <= i < spec_nonempty(frags).len() ==> (#[trigger] spec_nonempty(frags)[i]).len()
                > 0,
    decreases frags.len(),
{
    if frags.len() > 0 {
        lemma_nonempty_lens(frags.drop_last());
        if frags.last().len() > 0 {
            let ne = spec_nonempty(frags.drop_last());
            assert forall|i: int|
                0 <= i < spec_nonempty(frags).len() implies (#[trigger] spec_nonempty(
                frags,
            )[i]).len() > 0 by {
                if i < ne.len() {
                    assert(spec_nonempty(frags)[i] == ne[i]);
                } else {
                    assert(spec_nonempty(frags)[i] == frags.last());
                }
            }
        }
    }
}

/// A join of non-empty parts is empty only when there are no parts.
proof fn lemma_join_len(parts: Seq<Seq<char>>, sep: Seq<char>)
    requires
        forall|i: int| 0 <= i < parts.len() ==> (#[trigger] parts[i]).len() > 0,
        parts.len() > 0,
    ensures
        spec_join(parts, sep).len() > 0,
{
    if parts.len() == 1 {
        assert(spec_join(parts, sep) == parts[0]);
    } else {
        assert(spec_join(parts, sep) == spec_join(parts.drop_last(), sep) + sep + parts.last());
        assert(parts.last().len() > 0);
    }
}

/// The multiline-cell join law: a cell accumulated from any number of
/// data-line fragments holds exactly its non-empty fragments joined with
/// single spaces, in their original order.
pub proof fn lemma_multiline_cell_join(frags: Seq<Seq<char>>)
    ensures
        spec_cell_fold(frags) == spec_join(spec_nonempty(frags), " "@),
    decreases frags.len(),
{
    reveal_strlit(" ");
    if frags.len() > 0 {
        lemma_multiline_cell_join(frags.drop_last());
        lemma_nonempty_lens(frags.drop_last());
        let prev = spec_cell_fold(frags.drop_last());
        let ne = spec_nonempty(frags.drop_last());
        let f = frags.last();
        if f.len() == 0 {
            assert(spec_cell_fold(frags) == prev);
            assert(spec_nonempty(frags) == ne);
        } else {
            assert(spec_nonempty(frags) == ne.push(f));
            assert(ne.push(f).drop_last() =~= ne);
            assert(ne.push(f).last() == f);
            if prev.len() == 0 {
                if ne.len() > 0 {
                    lemma_join_len(ne, " "@);
                    assert(false);
                }
                assert(ne.push(f).len() == 1);
                assert(spec_join(ne.push(f), " "@) == ne.push(f)[0]);
                assert(spec_cell_fold(frags) == f);
            } else {
                assert(ne.len() > 0);
                assert(ne.push(f).len() >= 2);
                assert(spec_join(ne.push(f), " "@) == spec_join(ne, " "@) + " "@ + f);
                assert(spec_cell_fold(frags) == prev + seq![' '] + f);
                assert(" "@ =~= seq![' ']);
            }
        }
    }
}

/// A row accumulated across data lines: the fold of the per-line rule,
/// starting from a row of empty cells.
pub open spec fn spec_row_fold(lines: Seq<Seq<char>>, bounds: Seq<int>, ncols: int) -> Seq<
    Seq<char>,
>
    decreases lines.len(),
{
    if lines.len() == 0 {
        empty_row(ncols)
    } else {
        spec_row_add_line(spec_row_fold(lines.drop_last(), bounds, ncols), lines.last(), bounds)
    }
}

/// The fragments one column draws from a sequence of data lines.
pub open spec fn spec_extracts(lines: Seq<Seq<char>>, bounds: Seq<int>, col: int) -> Seq<
    Seq<char>,
>
    decreases lines.len(),
{
    if lines.len() == 0 {
        Seq::empty()
    } else {
        spec_extracts(lines.drop_last(), bounds, col).push(
            spec_extract_cell(lines.last(), bounds[col], bounds[col + 1]),
        )
    }
}

/// The multiline-cell law lifted to a whole row: after folding any number
/// of data lines into a row, each column inside the boundary list holds
/// its non-empty fragments joined with single spaces, in order.
pub proof fn lemma_row_fold_cell(lines: Seq<Seq<char>>, bounds: Seq<int>, ncols: int, col: int)
    requires
        0 <= col < ncols,
        col + 1 < bounds.len(),
    ensures
        spec_row_fold(lines, bounds, ncols).len() == ncols,
        spec_row_fold(lines, bounds, ncols)[col] == spec_join(
            spec_nonempty(spec_extracts(lines, bounds, col)),
            " "@,
        ),
    decreases lines.len(),
{
    if lines.len() == 0 {
        lemma_multiline_cell_join(Seq::empty());
    } else {
        lemma_row_fold_cell(lines.drop_last(), bounds, ncols, col);
        let prevrow = spec_row_fold(lines.drop_last(), bounds, ncols);
        let exts = spec_extracts(lines.drop_last(), bounds, col);
        assert(spec_row_fold(lines, bounds, ncols)[col] == spec_cell_add(
            prevrow[col],
            spec_extract_cell(lines.last(), bounds[col], bounds[col + 1]),
        ));
        lemma_multiline_cell_join(exts);
        lemma_multiline_cell_join(
            exts.push(spec_extract_cell(lines.last(), bounds[col], bounds[col + 1])),
        );
        assert(exts.push(
            spec_extract_cell(lines.last(), bounds[col], bounds[col + 1]),
        ).drop_last() =~= exts);
        assert(spec_cell_fold(
            exts.push(spec_extract_cell(lines.last(), bounds[col], bounds[col + 1])),
        ) == spec_cell_add(
            spec_cell_fold(exts),
            spec_extract_cell(lines.last(), bounds[col], bounds[col + 1]),
        ));
    }
}

/// A fenced-div marker line — an opening `:::` with or without attributes,
/// or a closing `:::` — contributes nothing to the rewritten text: the
/// rewrite continues with the next line as if the marker were not there.
pub proof fn lemma_fenced_div_line_dropped(lines: Seq<Seq<char>>, i: int)
    requires
        0 <= i < lines.len(),
        spec_trim(lines[i]).len() >= 3,
        spec_trim(lines[i]).take(3) == ":::"@,
    ensures
        spec_process(lines, i) == spec_process(lines, i + 1),
{
    reveal_strlit(":::");
    reveal_strlit("\\newpage");
    reveal_strlit("\\");
    let t = spec_trim(lines[i]);
    assert(t[0] == ':') by {
        assert(t.take(3)[0] == t[0]);
    }
    assert(t != "\\newpage"@);
    assert(t != "\\"@);
}

/// Whether a line, after trimming, is a fenced-div marker line.
pub open spec fn is_marker_line(x: Seq<char>) -> bool {
    spec_trim(x).len() >= 3 && spec_trim(x).take(3) == ":::"@
}

/// Whether no line of the text is a fenced-div marker line.
pub open spec fn spec_marker_free(s: Seq<char>) -> bool {
    forall|k: int|
        0 <= k < spec_lines_of(s).len() ==> !is_marker_line(#[trigger] spec_lines_of(s)[k])
}

/// Marker-freedom is preserved by joining a newline-complete text to
/// another.
proof fn lemma_marker_free_concat(a: Seq<char>, b: Seq<char>)
    requires
        a.len() > 0,
        a.last() == '\n',
        spec_marker_free(a),
        spec_marker_free(b),
    ensures
        spec_marker_free(a + b),
{
    lemma_lines_of_concat(a, b);
    assert forall|k: int|
        0 <= k < spec_lines_of(a + b).len() implies !is_marker_line(
        #[trigger] spec_lines_of(a + b)[k]) by {
        if k < spec_lines_of(a).len() {
            assert(spec_lines_of(a + b)[k] == spec_lines_of(a)[k]);
        } else {
            assert(spec_lines_of(a + b)[k] == spec_lines_of(b)[k - spec_lines_of(a).len()]);
        }
    }
}

/// A single newline-terminated non-marker line is marker-free.
proof fn lemma_marker_free_line(x: Seq<char>)
    requires
        no_nl(x),
        !is_marker_line(x),
    ensures
        spec_marker_free(x + seq!['\n']),
        (x + seq!['\n']).last() == '\n',
{
    lemma_lines_of_single(x);
    lemma_trim_strip_cr(x);
    assert(spec_lines_of(x + seq!['\n'])[0] == strip_cr(x));
}

/// A line whose trimmed head is not a colon is no marker line.
proof fn lemma_nonmarker_by_trim_head(x: Seq<char>)
    requires
        spec_trim(x).len() == 0 || spec_trim(x)[0] != ':',
    ensures
        !is_marker_line(x),
{
    reveal_strlit(":::");
    let t = spec_trim(x);
    if t.len() >= 3 && t.take(3) == ":::"@ {
        assert(t.take(3)[0] == t[0]);
        assert(t[0] == ':');
    }
}

/// A border or data line is no marker line: its trimmed head is `+` or
/// `|`.
proof fn lemma_collectible_nonmarker(x: Seq<char>)
    requires
        spec_collectible(x),
    ensures
        !is_marker_line(x),
{
    reveal_strlit(":::");
    let t = spec_trim(x);
    if spec_is_border(t) {
        assert(t[0] == '+');
    } else {
        assert(t[0] == '|');
    }
    lemma_nonmarker_by_trim_head(x);
}

/// Concatenation preserves newline-freedom.
proof fn lemma_no_nl_concat(a: Seq<char>, b: Seq<char>)
    requires
        no_nl(a),
        no_nl(b),
    ensures
        no_nl(a + b),
{
    assert forall|j: int| 0 <= j < (a + b).len() implies (a + b)[j] != '\n' by {
        if j < a.len() {
            assert((a + b)[j] == a[j]);
        } else {
            assert((a + b)[j] == b[j - a.len()]);
        }
    }
}

/// A join of newline-free parts by a newline-free separator is
/// newline-free.
proof fn lemma_join_no_nl(parts: Seq<Seq<char>>, sep: Seq<char>)
    requires
        forall|i: int| 0 <= i < parts.len() ==> no_nl(#[trigger] parts[i]),
        no_nl(sep),
    ensures
        no_nl(spec_join(parts, sep)),
    decreases parts.len(),
{
    if parts.len() == 0 {
    } else if parts.len() == 1 {
        assert(spec_join(parts, sep) == parts[0]);
    } else {
        lemma_join_no_nl(parts.drop_last(), sep);
        lemma_no_nl_concat(spec_join(parts.drop_last(), sep), sep);
        lemma_no_nl_concat(spec_join(parts.drop_last(), sep) + sep, parts.last());
    }
}

/// The verbatim pass-through of newline-free non-marker lines is
/// marker-free and, when any line exists, newline-terminated.
proof fn lemma_verbatim_marker_free(tbl: Seq<Seq<char>>)
    requires
        forall|k: int| 0 <= k < tbl.len() ==> no_nl(#[trigger] tbl[k]),
        forall|k: int| 0 <= k < tbl.len() ==> !is_marker_line(#[trigger] tbl[k]),
    ensures
        spec_marker_free(spec_verbatim(tbl)),
        tbl.len() > 0 ==> spec_verbatim(tbl).len() > 0 && spec_verbatim(tbl).last() == '\n',
    decreases tbl.len(),
{
    if tbl.len() > 0 {
        lemma_verbatim_marker_free(tbl.drop_last());
        lemma_marker_free_line(tbl.last());
        let chunk = tbl.last() + seq!['\n'];
        assert(spec_verbatim(tbl) =~= spec_verbatim(tbl.drop_last()) + chunk);
        if tbl.len() == 1 {
            assert(spec_verbatim(tbl.drop_last()) =~= Seq::<char>::empty());
            assert(spec_verbatim(tbl) =~= chunk);
        } else {
            lemma_marker_free_concat(spec_verbatim(tbl.drop_last()), chunk);
        }
        assert(spec_verbatim(tbl).last() == '\n');
    } else {
        assert(spec_lines_of(spec_verbatim(tbl)) =~= Seq::<Seq<char>>::empty());
    }
}

/// Whether every cell of the row is newline-free.
pub open spec fn cells_no_nl(row: Seq<Seq<char>>) -> bool {
    forall|c: int| 0 <= c < row.len() ==> no_nl(#[trigger] row[c])
}

/// Whether every cell of every row is newline-free.
pub open spec fn rows_cells_no_nl(rows: Seq<Seq<Seq<char>>>) -> bool {
    forall|r: int| 0 <= r < rows.len() ==> cells_no_nl(#[trigger] rows[r])
}

/// The row-collection state built from newline-free lines holds only
/// newline-free cells.
proof fn lemma_collect_no_nl(lines: Seq<Seq<char>>, bounds: Seq<int>, ncols: int, sep: bool)
    requires
        forall|k: int| 0 <= k < lines.len() ==> no_nl(#[trigger] lines[k]),
    ensures
        cells_no_nl(spec_collect(lines, bounds, ncols, sep).current),
        rows_cells_no_nl(spec_collect(lines, bounds, ncols, sep).header),
        rows_cells_no_nl(spec_collect(lines, bounds, ncols, sep).body),
    decreases lines.len(),
{
    if lines.len() == 0 {
        assert(cells_no_nl(empty_row(ncols)));
    } else {
        lemma_collect_no_nl(lines.drop_last(), bounds, ncols, sep);
        let prev = spec_collect(lines.drop_last(), bounds, ncols, sep);
        let st = spec_collect(lines, bounds, ncols, sep);
        let line = lines.last();
        let t = spec_trim(line);
        lemma_trim_no_nl(line);
        if spec_is_border(t) {
            if prev.past_first {
                assert(cells_no_nl(empty_row(ncols)));
                assert forall|r: int|
                    0 <= r < st.header.len() implies cells_no_nl(#[trigger] st.header[r]) by {
                    if r < prev.header.len() {
                        assert(st.header[r] == prev.header[r]);
                    } else {
                        assert(st.header[r] == prev.current);
                    }
                }
                assert forall|r: int|
                    0 <= r < st.body.len() implies cells_no_nl(#[trigger] st.body[r]) by {
                    if r < prev.body.len() {
                        assert(st.body[r] == prev.body[r]);
                    } else {
                        assert(st.body[r] == prev.current);
                    }
                }
            }
        } else if t.len() >= 1 && t[0] == '|' && t.last() == '|' {
            assert forall|c: int|
                0 <= c < st.current.len() implies no_nl(#[trigger] st.current[c]) by {
                if c + 1 < bounds.len() {
                    let frag = spec_extract_cell(t, bounds[c], bounds[c + 1]);
                    assert(no_nl(frag)) by {
                        if 0 <= bounds[c] && bounds[c] + 1 < bounds[c + 1] && bounds[c + 1]
                            <= t.len() {
                            let sub = t.subrange(bounds[c] + 1, bounds[c + 1]);
                            assert forall|j: int| 0 <= j < sub.len() implies sub[j]
                                != '\n' by {
                                assert(sub[j] == t[bounds[c] + 1 + j]);
                            }
                            lemma_trim_no_nl(sub);
                        }
                    }
                    assert(no_nl(spec_cell_add(prev.current[c], frag))) by {
                        lemma_no_nl_concat(prev.current[c], seq![' ']);
                        lemma_no_nl_concat(prev.current[c] + seq![' '], frag);
                    }
                    assert(st.current[c] == spec_cell_add(prev.current[c], frag));
                } else {
                    assert(st.current[c] == prev.current[c]);
                }
            }
        }
    }
}

/// A newline-complete marker-free chunk followed by a marker-free
/// newline-complete remainder is marker-free and newline-complete.
proof fn lemma_chunk_then_rest(chunk: Seq<char>, rest: Seq<char>)
    requires
        chunk.len() > 0,
        chunk.last() == '\n',
        spec_marker_free(chunk),
        spec_marker_free(rest),
        rest.len() == 0 || rest.last() == '\n',
    ensures
        spec_marker_free(chunk + rest),
        (chunk + rest).len() > 0,
        (chunk + rest).last() == '\n',
{
    lemma_marker_free_concat(chunk, rest);
    if rest.len() == 0 {
        assert(chunk + rest =~= chunk);
    } else {
        assert((chunk + rest).last() == rest.last());
    }
}

/// One emitted pipe-table row line is a single marker-free line: it
/// begins with a pipe and ends with its newline.
proof fn lemma_row_line_marker_free(cells: Seq<Seq<char>>)
    requires
        cells_no_nl(cells),
    ensures
        spec_marker_free(spec_row_line(cells)),
        spec_row_line(cells).len() > 0,
        spec_row_line(cells).last() == '\n',
{
    reveal_strlit("| ");
    reveal_strlit(" | ");
    reveal_strlit(" |");
    reveal_strlit(" |\n");
    let x = "| "@ + spec_join(cells, " | "@) + " |"@;
    assert(" |\n"@ =~= " |"@ + seq!['\n']);
    assert(spec_row_line(cells) =~= x + seq!['\n']);
    lemma_join_no_nl(cells, " | "@);
    lemma_no_nl_concat("| "@, spec_join(cells, " | "@));
    lemma_no_nl_concat("| "@ + spec_join(cells, " | "@), " |"@);
    assert(x[0] == '|');
    assert(spec_trim_start(x) == x);
    assert(spec_trim(x) == spec_trim_end(x));
    lemma_trim_end_prefix(x);
    if spec_trim(x).len() > 0 {
        assert(spec_trim(x)[0] == x[0]);
    }
    lemma_nonmarker_by_trim_head(x);
    lemma_marker_free_line(x);
    assert(spec_marker_free(x + seq!['\n']));
    assert(spec_row_line(cells).last() == '\n');
}

/// The emitted row lines of a row sequence are marker-free and, when any
/// row exists, newline-terminated.
proof fn lemma_rows_out_marker_free(rows: Seq<Seq<Seq<char>>>)
    requires
        rows_cells_no_nl(rows),
    ensures
        spec_marker_free(spec_rows_out(rows)),
        rows.len() > 0 ==> spec_rows_out(rows).len() > 0 && spec_rows_out(rows).last() == '\n',
    decreases rows.len(),
{
    if rows.len() == 0 {
        assert(spec_lines_of(spec_rows_out(rows)) =~= Seq::<Seq<char>>::empty());
    } else {
        lemma_rows_out_marker_free(rows.drop_last());
        lemma_row_line_marker_free(rows.last());
        if rows.len() == 1 {
            assert(spec_rows_out(rows.drop_last()) =~= Seq::<char>::empty());
            assert(spec_rows_out(rows) =~= spec_row_line(rows.last()));
        } else {
            lemma_chunk_then_rest(spec_rows_out(rows.drop_last()), spec_row_line(rows.last()));
        }
    }
}

/// The separator row's cells are newline-free.
proof fn lemma_sep_cells_no_nl(ncols: int)
    ensures
        cells_no_nl(sep_cells(ncols)),
{
    reveal_strlit("---");
    assert forall|c: int| 0 <= c < sep_cells(ncols).len() implies no_nl(
        #[trigger] sep_cells(ncols)[c]) by {
        assert(sep_cells(ncols)[c] == "---"@);
    }
}

/// Joining lines by newlines and terminating the result is the verbatim
/// pass-through.
proof fn lemma_join_nl_verbatim(parts: Seq<Seq<char>>)
    requires
        parts.len() >= 1,
    ensures
        spec_join(parts, seq!['\n']) + seq!['\n'] == spec_verbatim(parts),
    decreases parts.len(),
{
    if parts.len() == 1 {
        assert(spec_verbatim(parts.drop_last()) =~= Seq::<char>::empty());
        assert(spec_join(parts, seq!['\n']) + seq!['\n'] =~= spec_verbatim(parts));
    } else {
        lemma_join_nl_verbatim(parts.drop_last());
        assert(spec_join(parts, seq!['\n']) + seq!['\n'] =~= (spec_join(
            parts.drop_last(),
            seq!['\n'],
        ) + seq!['\n']) + (parts.last() + seq!['\n']));
        assert(spec_verbatim(parts) =~= spec_verbatim(parts.drop_last()) + (parts.last()
            + seq!['\n']));
    }
}

/// The newline-joined fallback for a collected block, terminated by a
/// newline, is marker-free.
proof fn lemma_joinlines_chunk(tbl: Seq<Seq<char>>)
    requires
        tbl.len() > 0,
        forall|k: int| 0 <= k < tbl.len() ==> no_nl(#[trigger] tbl[k]),
        forall|k: int| 0 <= k < tbl.len() ==> spec_collectible(#[trigger] tbl[k]),
    ensures
        spec_marker_free(spec_join_lines(tbl) + seq!['\n']),
        spec_join_lines(tbl).len() > 0,
        spec_join_lines(tbl).last() != '\n',
{
    assert forall|k: int| 0 <= k < tbl.len() implies !is_marker_line(#[trigger] tbl[k]) by {
        lemma_collectible_nonmarker(tbl[k]);
    }
    lemma_join_nl_verbatim(tbl);
    lemma_verbatim_marker_free(tbl);
    // A collectible line is non-empty and holds no newline, so the join
    // ends in one of its characters.
    assert(tbl.last().len() > 0) by {
        if tbl.last().len() == 0 {
            assert(spec_trim(tbl.last()).len() == 0) by {
                assert(spec_trim_start(tbl.last()) =~= tbl.last());
            }
        }
    }
    let g = spec_join_lines(tbl);
    if tbl.len() == 1 {
        assert(g == tbl[0]);
        assert(g.last() != '\n');
    } else {
        assert(g == spec_join(tbl.drop_last(), seq!['\n']) + seq!['\n'] + tbl.last());
        assert(g.last() == tbl.last().last());
        assert(g.last() != '\n');
    }
}

/// The pipe-table chunk emitted for a collected grid block is marker-free
/// and newline-terminated.
#[verifier::rlimit(100)]
proof fn lemma_gfm_chunk_marker_free(tbl: Seq<Seq<char>>)
    requires
        tbl.len() > 0,
        forall|k: int| 0 <= k < tbl.len() ==> no_nl(#[trigger] tbl[k]),
        forall|k: int| 0 <= k < tbl.len() ==> spec_collectible(#[trigger] tbl[k]),
    ensures
        ({
            let g = spec_convert_gfm(tbl);
            let chunk = if g.len() > 0 && g.last() == '\n' {
                g
            } else {
                g + seq!['\n']
            };
            spec_marker_free(chunk) && chunk.len() > 0 && chunk.last() == '\n'
        }),
{
    let first = spec_trim(tbl[0]);
    let bounds = spec_boundaries(first);
    let g = spec_convert_gfm(tbl);
    if bounds.len() < 2 {
        lemma_joinlines_chunk(tbl);
        assert(g == spec_join_lines(tbl));
    } else {
        let ncols = bounds.len() - 1;
        let has_sep = exists|k: int| 0 <= k < tbl.len() && spec_is_header_sep(tbl[k]);
        let st = spec_collect(tbl, bounds, ncols as int, has_sep);
        lemma_collect_no_nl(tbl, bounds, ncols as int, has_sep);
        lemma_sep_cells_no_nl(ncols as int);
        if st.header.len() > 0 {
            let a = spec_row_line(st.header[0]);
            let b = spec_row_line(sep_cells(ncols as int));
            let c = spec_rows_out(st.body);
            lemma_row_line_marker_free(st.header[0]);
            lemma_row_line_marker_free(sep_cells(ncols as int));
            lemma_rows_out_marker_free(st.body);
            lemma_chunk_then_rest(a, b);
            lemma_chunk_then_rest(a + b, c);
            assert(g == a + b + c);
            assert(g =~= (a + b) + c);
        } else if st.body.len() > 0 {
            let a = spec_row_line(st.body[0]);
            let b = spec_row_line(sep_cells(ncols as int));
            let brest = st.body.drop_first();
            assert forall|r: int| 0 <= r < brest.len() implies cells_no_nl(
                #[trigger] brest[r]) by {
                assert(brest[r] == st.body[r + 1]);
            }
            let c = spec_rows_out(brest);
            lemma_row_line_marker_free(st.body[0]);
            lemma_row_line_marker_free(sep_cells(ncols as int));
            lemma_rows_out_marker_free(brest);
            lemma_chunk_then_rest(a, b);
            lemma_chunk_then_rest(a + b, c);
            assert(g == a + b + c);
            assert(g =~= (a + b) + c);
        } else {
            lemma_joinlines_chunk(tbl);
            assert(g == spec_join_lines(tbl));
        }
    }
}

/// Every line inside a collected block is a border or data line.
proof fn lemma_table_end_collectible(lines: Seq<Seq<char>>, j0: int)
    requires
        0 <= j0 <= lines.len(),
    ensures
        forall|m: int|
            j0 <= m < spec_table_end(lines, j0) ==> spec_collectible(#[trigger] lines[m]),
    decreases lines.len() - j0,
{
    if j0 < lines.len() && spec_collectible(lines[j0]) {
        lemma_table_end_collectible(lines, j0 + 1);
    }
}

/// The rewrite of the lines from `i` on is marker-free and, when
/// non-empty, newline-terminated.
#[verifier::rlimit(100)]
proof fn lemma_process_marker_free(lines: Seq<Seq<char>>, i: int)
    requires
        forall|k: int| 0 <= k < lines.len() ==> no_nl(#[trigger] lines[k]),
    ensures
        spec_marker_free(spec_process(lines, i)),
        spec_process(lines, i).len() == 0 || spec_process(lines, i).last() == '\n',
    decreases lines.len() - i,
{
    if i < 0 || i >= lines.len() {
        assert(spec_lines_of(Seq::<char>::empty()) =~= Seq::<Seq<char>>::empty());
    } else {
        let t = spec_trim(lines[i]);
        if t == "\\newpage"@ {
            lemma_process_marker_free(lines, i + 1);
            let lit = spec_page_break_line();
            reveal_strlit("<div style=\"page-break-after: always;\"></div>\n");
            assert(lit.len() == 46);
            assert forall|jj: int| 0 <= jj < 45 implies lit[jj] != '\n' by {}
            assert(lit[45] == '\n');
            lemma_first_nl_at(lit, 45);
            assert(lit.skip(46) =~= Seq::<char>::empty());
            assert(spec_lines_of(lit.skip(46)) =~= Seq::<Seq<char>>::empty());
            let body = lit.take(45);
            assert(spec_lines_of(lit) =~= seq![strip_cr(body)]);
            assert(body[0] == '<');
            lemma_trim_strip_cr(body);
            assert(spec_trim_start(body) == body);
            assert(spec_trim(body) == spec_trim_end(body));
            lemma_trim_end_prefix(body);
            if spec_trim(body).len() > 0 {
                assert(spec_trim(body)[0] == body[0]);
            }
            lemma_nonmarker_by_trim_head(body);
            assert(!is_marker_line(strip_cr(body))) by {
                assert(spec_trim(strip_cr(body)) == spec_trim(body));
            }
            assert(spec_marker_free(lit));
            assert(lit.last() == '\n');
            lemma_chunk_then_rest(lit, spec_process(lines, i + 1));
        } else if t == "\\"@ {
            lemma_process_marker_free(lines, i + 1);
            let chunk = seq!['\n'];
            assert(chunk =~= Seq::<char>::empty() + seq!['\n']);
            assert(no_nl(Seq::<char>::empty()));
            assert(!is_marker_line(Seq::<char>::empty())) by {
                assert(spec_trim_start(Seq::<char>::empty()) =~= Seq::<char>::empty());
            }
            lemma_marker_free_line(Seq::<char>::empty());
            assert(spec_marker_free(chunk));
            lemma_chunk_then_rest(chunk, spec_process(lines, i + 1));
        } else if t.len() >= 3 && t.take(3) == ":::"@ {
            lemma_process_marker_free(lines, i + 1);
        } else if spec_is_border(t) {
            lemma_table_end_bounds(lines, i + 1);
            let j = spec_table_end(lines, i + 1);
            lemma_process_marker_free(lines, j);
            let tbl = lines.subrange(i, j);
            assert forall|k: int| 0 <= k < tbl.len() implies no_nl(#[trigger] tbl[k]) by {
                assert(tbl[k] == lines[i + k]);
            }
            lemma_table_end_collectible(lines, i + 1);
            assert forall|k: int| 0 <= k < tbl.len() implies spec_collectible(
                #[trigger] tbl[k]) by {
                if k == 0 {
                    assert(tbl[0] == lines[i]);
                } else {
                    assert(tbl[k] == lines[i + k]);
                }
            }
            if j - i >= 3 && spec_is_border(spec_trim(lines[j - 1])) {
                lemma_gfm_chunk_marker_free(tbl);
                let g = spec_convert_gfm(tbl);
                let chunk = if g.len() > 0 && g.last() == '\n' {
                    g
                } else {
                    g + seq!['\n']
                };
                lemma_chunk_then_rest(chunk, spec_process(lines, j));
            } else {
                assert forall|k: int| 0 <= k < tbl.len() implies !is_marker_line(
                    #[trigger] tbl[k]) by {
                    lemma_collectible_nonmarker(tbl[k]);
                }
                lemma_verbatim_marker_free(tbl);
                assert(tbl.len() > 0);
                lemma_chunk_then_rest(spec_verbatim(tbl), spec_process(lines, j));
            }
        } else {
            lemma_process_marker_free(lines, i + 1);
            assert(!is_marker_line(lines[i]));
            lemma_marker_free_line(lines[i]);
            let chunk = lines[i] + seq!['\n'];
            lemma_chunk_then_rest(chunk, spec_process(lines, i + 1));
        }
    }
}

/// The fenced-div stripping law: no line of the rewritten text, after
/// trimming, begins with the three-character fenced-div marker.  Marker
/// lines of the input are dropped, and nothing the rewrite emits — table
/// rows, page-break sentinels, blank lines or pass-through lines — forms
/// one.
pub proof fn lemma_preprocess_marker_free(s: Seq<char>)
    ensures
        spec_marker_free(spec_preprocess(s)),
{
    lemma_lines_no_nl(s);
    lemma_process_marker_free(spec_lines_of(s), 0);
    let out = spec_process(spec_lines_of(s), 0);
    if !(s.len() > 0 && s.last() == '\n') && out.len() > 0 && out.last() == '\n' {
        lemma_lines_of_pop(out);
        assert forall|k: int|
            0 <= k < spec_lines_of(out.drop_last()).len() implies !is_marker_line(
            #[trigger] spec_lines_of(out.drop_last())[k]) by {
            assert(spec_lines_of(out.drop_last())[k] == spec_lines_of(out)[k]);
        }
    }
}

} // verus!


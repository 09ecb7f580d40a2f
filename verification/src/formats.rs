//! Format tokens: detecting a format from a file path's extension, and the
//! tokens the converter accepts on each side.

use vstd::prelude::*;

use crate::strutil::{chars_of, str_eq, string_from_chars};

verus! {

/// The index of the last occurrence of `c` in `s`, or -1.
pub open spec fn spec_last_index_of(s: Seq<char>, c: char) -> int
    decreases s.len(),
{
    if s.len() == 0 {
        -1
    } else if s.last() == c {
        s.len() - 1
    } else {
        spec_last_index_of(s.drop_last(), c)
    }
}

/// The final path component: everything after the last slash.
pub open spec fn spec_file_name(s: Seq<char>) -> Seq<char> {
    s.skip(spec_last_index_of(s, '/') + 1)
}

/// The extension of a file name: everything after its last dot, unless
/// there is no dot or the only dot leads the name.
pub open spec fn spec_extension(f: Seq<char>) -> Seq<char> {
    let d = spec_last_index_of(f, '.');
    if d <= 0 {
        Seq::empty()
    } else {
        f.skip(d + 1)
    }
}

/// The ASCII lowercase form of one character.
pub open spec fn spec_lower_char(c: char) -> char {
    if 'A' <= c && c <= 'Z' {
        (((c as u32) + 32) as u8) as char
    } else {
        c
    }
}

/// The ASCII lowercase form of a text.
pub open spec fn spec_lower(s: Seq<char>) -> Seq<char> {
    Seq::new(s.len(), |i: int| spec_lower_char(s[i]))
}

/// The format token detected from a path: its extension, lowercased, or
/// empty when it has none.
pub open spec fn spec_detect_format(s: Seq<char>) -> Seq<char> {
    spec_lower(spec_extension(spec_file_name(s)))
}

/// The index of the last occurrence of `c` in `v`, if any.
fn last_index_of(v: &[char], c: char) -> (r: Option<usize>)
    ensures
        match r {
            Some(i) => spec_last_index_of(v@, c) == i && i < v@.len(),
            None => spec_last_index_of(v@, c) == -1,
        },
{
    let mut i: usize = v.len();
    assert(v@.take(i as int) =~= v@);
    while i > 0
        invariant
            i <= v@.len(),
            spec_last_index_of(v@, c) == spec_last_index_of(v@.take(i as int), c),
        decreases i,
    {
        i = i - 1;
        proof {
            assert(v@.take(i + 1).drop_last() =~= v@.take(i as int));
            assert(v@.take(i + 1).last() == v@[i as int]);
        }
        if v[i] == c {
            return Some(i);
        }
    }
    assert(v@.take(0) =~= Seq::<char>::empty());
    None
}

/// Detects a format token from a file path: the lowercased extension, or
/// the empty string when the path has none.
pub fn detect_format(path: &str) -> (r: String)
    ensures
        r@ == spec_detect_format(path@),
{
    let cs = chars_of(path);
    let n = cs.len();
    let start: usize = match last_index_of(cs.as_slice(), '/') {
        Some(i) => i + 1,
        None => 0,
    };
    let fname = vstd::slice::slice_subrange(cs.as_slice(), start, n);
    assert(fname@ =~= spec_file_name(path@));
    let dotted: Option<usize> = last_index_of(fname, '.');
    let has_ext = match dotted {
        Some(d) => d > 0,
        None => false,
    };
    if !has_ext {
        assert(spec_extension(fname@) =~= Seq::<char>::empty());
        let empty: Vec<char> = Vec::new();
        assert(spec_lower(Seq::<char>::empty()) =~= Seq::<char>::empty());
        return string_from_chars(empty.as_slice());
    }
    let d: usize = match dotted {
        Some(dd) => dd,
        None => 0,
    };
    let ext = vstd::slice::slice_subrange(fname, d + 1, fname.len());
    assert(ext@ =~= spec_extension(fname@));
    let mut low: Vec<char> = Vec::new();
    let mut i: usize = 0;
    assert(low@ =~= spec_lower(ext@).take(0));
    while i < ext.len()
        invariant
            i <= ext@.len(),
            low@ == spec_lower(ext@).take(i as int),
        decreases ext@.len() - i,
    {
        let c = ext[i];
        let lc: char = if c >= 'A' && c <= 'Z' {
            (((c as u32) + 32) as u8) as char
        } else {
            c
        };
        assert(lc == spec_lower_char(ext@[i as int]));
        low.push(lc);
        assert(spec_lower(ext@).take(i + 1) =~= spec_lower(ext@).take(i as int).push(
            spec_lower(ext@)[i as int],
        ));
        i = i + 1;
    }
    assert(spec_lower(ext@).take(ext@.len() as int) =~= spec_lower(ext@));
    string_from_chars(low.as_slice())
}

/// Whether an input-format token is accepted: `md` or `markdown`.
pub fn input_format_supported(fmt: &str) -> (r: bool)
    ensures
        r == (fmt@ == "md"@ || fmt@ == "markdown"@),
{
    str_eq(fmt, "md") || str_eq(fmt, "markdown")
}

/// Whether an output-format token is accepted: `html` or `docx`.
pub fn output_format_supported(fmt: &str) -> (r: bool)
    ensures
        r == (fmt@ == "html"@ || fmt@ == "docx"@),
{
    str_eq(fmt, "html") || str_eq(fmt, "docx")
}

} // verus!

use vstd::prelude::*;

use super::block::Block;
use super::inline::Inline;
use crate::strutil::str_eq;

verus! {

/// A complete document: metadata plus the ordered top-level blocks.
#[derive(Debug)]
pub struct Document {
    pub meta: Meta,
    pub blocks: Vec<Block>,
}

/// Document metadata: an association list from string keys to values.
/// A later entry with the same key shadows an earlier one, so lookups
/// scan from the most recent entry backwards.
#[derive(Debug)]
pub struct Meta {
    pub entries: Vec<(String, MetaValue)>,
}

/// The last value bound to `key` in `entries`, if any.
pub open spec fn spec_meta_lookup(entries: Seq<(String, MetaValue)>, key: Seq<char>) -> Option<
    MetaValue,
>
    decreases entries.len(),
{
    if entries.len() == 0 {
        None
    } else if entries.last().0@ == key {
        Some(entries.last().1)
    } else {
        spec_meta_lookup(entries.drop_last(), key)
    }
}

/// The string bound to `key`, if the bound value is a plain string.
pub open spec fn spec_meta_get_str(entries: Seq<(String, MetaValue)>, key: Seq<char>) -> Option<
    Seq<char>,
> {
    match spec_meta_lookup(entries, key) {
        Some(MetaValue::String(s)) => Some(s@),
        _ => None,
    }
}

impl Meta {
    /// The value bound to `key`, if any.
    pub fn get(&self, key: &str) -> (r: Option<&MetaValue>)
        ensures
            match r {
                Some(v) => spec_meta_lookup(self.entries@, key@) == Some(*v),
                None => spec_meta_lookup(self.entries@, key@) is None,
            },
    {
        let mut i: usize = self.entries.len();
        assert(self.entries@.take(i as int) =~= self.entries@);
        while i > 0
            invariant
                i <= self.entries@.len(),
                spec_meta_lookup(self.entries@, key@) == spec_meta_lookup(
                    self.entries@.take(i as int),
                    key@,
                ),
            decreases i,
        {
            i = i - 1;
            assert(self.entries@.take(i + 1).drop_last() =~= self.entries@.take(i as int));
            assert(self.entries@.take(i + 1).last() == self.entries@[i as int]);
            if str_eq(self.entries[i].0.as_str(), key) {
                return Some(&self.entries[i].1);
            }
        }
        assert(self.entries@.take(0) =~= Seq::<(String, MetaValue)>::empty());
        None
    }

    /// The string bound to `key`, if the bound value is a plain string.
    pub fn get_str(&self, key: &str) -> (r: Option<&str>)
        ensures
            match r {
                Some(s) => spec_meta_get_str(self.entries@, key@) == Some(s@),
                None => spec_meta_get_str(self.entries@, key@) is None,
            },
    {
        match self.get(key) {
            Some(MetaValue::String(s)) => Some(s.as_str()),
            _ => None,
        }
    }

    /// The reserved `title` entry, when bound to a string.
    pub fn title(&self) -> (r: Option<&str>)
        ensures
            match r {
                Some(s) => spec_meta_get_str(self.entries@, "title"@) == Some(s@),
                None => spec_meta_get_str(self.entries@, "title"@) is None,
            },
    {
        self.get_str("title")
    }

    /// The reserved `subtitle` entry, when bound to a string.
    pub fn subtitle(&self) -> (r: Option<&str>)
        ensures
            match r {
                Some(s) => spec_meta_get_str(self.entries@, "subtitle"@) == Some(s@),
                None => spec_meta_get_str(self.entries@, "subtitle"@) is None,
            },
    {
        self.get_str("subtitle")
    }

    /// The reserved `author` entry, when bound to a string.
    pub fn author(&self) -> (r: Option<&str>)
        ensures
            match r {
                Some(s) => spec_meta_get_str(self.entries@, "author"@) == Some(s@),
                None => spec_meta_get_str(self.entries@, "author"@) is None,
            },
    {
        self.get_str("author")
    }

    /// The reserved `date` entry, when bound to a string.
    pub fn date(&self) -> (r: Option<&str>)
        ensures
            match r {
                Some(s) => spec_meta_get_str(self.entries@, "date"@) == Some(s@),
                None => spec_meta_get_str(self.entries@, "date"@) is None,
            },
    {
        self.get_str("date")
    }

    /// Bind `key` to `value`, shadowing any earlier binding.
    pub fn insert(&mut self, key: String, value: MetaValue)
        ensures
            final(self).entries@ == old(self).entries@.push((key, value)),
    {
        self.entries.push((key, value));
    }
}

impl Default for Meta {
    /// Metadata with no entries.
    fn default() -> (r: Self)
        ensures
            r.entries@.len() == 0,
    {
        Meta { entries: Vec::new() }
    }
}

/// A metadata value: a string, a boolean, a list, a mapping, or rich
/// inline/block content.
#[derive(Debug)]
pub enum MetaValue {
    String(String),
    Bool(bool),
    List(Vec<MetaValue>),
    Mapping(Vec<(String, MetaValue)>),
    Inlines(Vec<Inline>),
    Blocks(Vec<Block>),
}

/// Attributes attached to a block or inline: an identifier, class names,
/// and key/value pairs, all empty by default.
#[derive(Debug, PartialEq)]
pub struct Attr {
    pub id: String,
    pub classes: Vec<String>,
    pub attrs: Vec<(String, String)>,
}

impl Attr {
    /// An attribute set with nothing in it.
    pub fn empty() -> (r: Self)
        ensures
            r.id@.len() == 0,
            r.classes@.len() == 0,
            r.attrs@.len() == 0,
    {
        Attr { id: String::new(), classes: Vec::new(), attrs: Vec::new() }
    }
}

/// The mathematical view of an `Attr`.
#[verifier::ext_equal]
pub struct AttrV {
    pub id: Seq<char>,
    pub classes: Seq<Seq<char>>,
    pub attrs: Seq<(Seq<char>, Seq<char>)>,
}

/// The mathematical view of an `Attr`.
pub open spec fn attr_dv(a: Attr) -> AttrV {
    AttrV {
        id: a.id@,
        classes: Seq::new(a.classes@.len(), |i: int| a.classes@[i]@),
        attrs: Seq::new(a.attrs@.len(), |i: int| (a.attrs@[i].0@, a.attrs@[i].1@)),
    }
}

/// The view of an attribute set with nothing in it.
pub open spec fn empty_attr_v() -> AttrV {
    AttrV { id: Seq::empty(), classes: Seq::empty(), attrs: Seq::empty() }
}

/// An attribute set with nothing in it views as the empty attribute view.
pub proof fn lemma_attr_empty_dv(a: Attr)
    requires
        a.id@.len() == 0,
        a.classes@.len() == 0,
        a.attrs@.len() == 0,
    ensures
        attr_dv(a) == empty_attr_v(),
{
    assert(a.id@ =~= Seq::<char>::empty());
    assert(attr_dv(a).classes =~= Seq::<Seq<char>>::empty());
    assert(attr_dv(a).attrs =~= Seq::<(Seq<char>, Seq<char>)>::empty());
}

/// The mathematical view of a `MetaValue`.
#[verifier::ext_equal]
pub enum MetaValueV {
    Str(Seq<char>),
    Bool(bool),
    List(Seq<MetaValueV>),
    Mapping(Seq<(Seq<char>, MetaValueV)>),
    Inlines(Seq<crate::ast::inline::InlineV>),
    Blocks(Seq<crate::ast::block::BlockV>),
}

/// The mathematical view of a `MetaValue`.
pub open spec fn meta_value_dv(v: MetaValue) -> MetaValueV
    decreases v,
{
    match v {
        MetaValue::String(s) => MetaValueV::Str(s@),
        MetaValue::Bool(b) => MetaValueV::Bool(b),
        MetaValue::List(vs) => MetaValueV::List(meta_values_dv(vs@)),
        MetaValue::Mapping(ps) => MetaValueV::Mapping(meta_entries_dv(ps@)),
        MetaValue::Inlines(is) => MetaValueV::Inlines(crate::ast::inline::inlines_dv(is@)),
        MetaValue::Blocks(bs) => MetaValueV::Blocks(crate::ast::block::blocks_dv(bs@)),
    }
}

/// The mathematical views of a sequence of metadata values.
pub open spec fn meta_values_dv(vs: Seq<MetaValue>) -> Seq<MetaValueV>
    decreases vs,
{
    if vs.len() == 0 {
        Seq::empty()
    } else {
        meta_values_dv(vs.drop_last()).push(meta_value_dv(vs.last()))
    }
}

/// The mathematical views of metadata entries.
pub open spec fn meta_entries_dv(es: Seq<(String, MetaValue)>) -> Seq<(Seq<char>, MetaValueV)>
    decreases es,
{
    if es.len() == 0 {
        Seq::empty()
    } else {
        meta_entries_dv(es.drop_last()).push((es.last().0@, meta_value_dv(es.last().1)))
    }
}

} // verus!

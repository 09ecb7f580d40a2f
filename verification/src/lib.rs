//! A document converter built around a shared intermediate tree.
//!
//! Source text is first rewritten by a grid-table preprocessor, then parsed
//! into a generic concrete-syntax tree by an external Markdown parser, then
//! normalized into the `ast::Document` model, which two renderers consume:
//! an HTML writer and a DOCX writer.

pub mod ast;
pub mod formats;
pub mod readers;
pub mod strutil;
pub mod utils;
pub mod writers;

//! A verified core for reading EPUB books: the OCF container index, the OPF
//! package document, both table-of-contents dialects, chapter content with
//! relative-resource resolution and rewriting, and the CFI location grammar.

pub mod book;
pub mod chapter;
pub mod container;
pub mod content;
pub mod epubcfi;
pub mod error;
pub mod nav;
pub mod navigation;
pub mod ncx;
pub mod package;
pub mod reader;
mod text;
pub mod xml;

pub use error::EpubError;

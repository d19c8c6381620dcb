//! A read-only parser for PDF files.
//!
//! Given the bytes of a PDF 1.x document, the library reports the number of
//! pages and hands out, page by page, the objects of the decoded content
//! stream.  Scanning, tokenizing, object parsing and the walk from the trailer
//! to the pages are all stated as functions on byte sequences and proved
//! against them.
//!
//! The modules, from the bytes up: `pdf_source` holds the byte sources,
//! `names` the tables of keywords and well-known names, `pdf_types` the tokens
//! and objects with their views, `next_token` the scanner, `next_object` the
//! parser, `dictionary` the typed lookups, `streams` the filters,
//! `pdf_document` the document and `page_contents` the contents of a page.
//! `token_reader` and `object_reader` wrap the scanner and the parser around a
//! source of their own, `records` builds typed records from dictionaries, and
//! `emit` writes values back as text and proves that they read back the same.

pub mod dictionary;
pub mod emit;
pub mod errors;
pub mod names;
pub mod next_object;
pub mod next_token;
pub mod object_reader;
pub mod page_contents;
pub mod pdf_document;
pub mod pdf_source;
pub mod pdf_types;
pub mod records;
pub mod streams;
pub mod token_reader;

pub use crate::dictionary::Access;
pub use crate::errors::PdfError;
pub use crate::page_contents::PageContents;
pub use crate::pdf_document::PdfDocument;
pub use crate::pdf_source::{ByteSliceSource, ByteSource, SeekFrom, Source};

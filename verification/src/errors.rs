//! The failures that parsing can end in.

use vstd::prelude::*;
use vstd::string::*;
use crate::names::PdfKeyword;

verus! {

/// The kinds of failure.  The attached text is a short diagnostic.
#[derive(Debug, PartialEq, Eq)]
pub enum PdfError {
    /// A filter of the chain could not decode its input.
    DecompressionError(String),
    /// A case that the library does not handle, such as a filter that is
    /// recognized but not provided.
    InternalError(&'static str),
    /// The file breaks the structure of a PDF document.
    InvalidPdf(&'static str),
    /// A given keyword was required and something else was found.
    KeywordExpected(PdfKeyword),
    /// The object number is beyond the cross-reference table, or its slot is free.
    InvalidReference,
    /// The object found at the recorded offset carries another number.
    InvalidReferenceTarget,
    /// The page index is not below the number of pages.
    InvalidPageNumber,
    /// The input ended inside a token or a stream header.
    EndOfFile,
    /// A seek outside the range of positions.
    IoError,
    /// An integer literal without digits or outside the 64-bit range.
    ParseIntError,
    /// A real literal that is no decimal number.
    ParseFloatError,
}

impl PdfError {
    /// The kind of failure, in a few words.
    pub open spec fn kind_text(self) -> Seq<char> {
        match self {
            PdfError::DecompressionError(_) => "decompression error"@,
            PdfError::InternalError(_) => "internal error"@,
            PdfError::InvalidPdf(_) => "invalid pdf file"@,
            PdfError::KeywordExpected(_) => "pdf keyword expected"@,
            PdfError::InvalidReference => "reference not found"@,
            PdfError::InvalidReferenceTarget => "target does not match reference"@,
            PdfError::InvalidPageNumber => "invalid page number"@,
            PdfError::EndOfFile => "unexpected end of file"@,
            PdfError::IoError => "I/O error"@,
            PdfError::ParseIntError => "failed to parse int"@,
            PdfError::ParseFloatError => "failed to parse float"@,
        }
    }

    /// The diagnostic that comes with the failure, if its kind has one.
    pub open spec fn detail_text(self) -> Option<Seq<char>> {
        match self {
            PdfError::DecompressionError(message) => Some(message@),
            PdfError::InternalError(detail) => Some(detail@),
            PdfError::InvalidPdf(detail) => Some(detail@),
            PdfError::KeywordExpected(word) => Some(word.spelling()),
            _ => None,
        }
    }

    /// The text of the failure: its kind, and behind a colon its diagnostic.
    pub open spec fn message_text(self) -> Seq<char> {
        match self.detail_text() {
            Some(detail) => self.kind_text() + ": "@ + detail,
            None => self.kind_text(),
        }
    }

    /// The kind of failure, in a few words.
    pub fn kind(&self) -> (text: &'static str)
        ensures
            text@ == self.kind_text(),
    {
        match self {
            PdfError::DecompressionError(_) => "decompression error",
            PdfError::InternalError(_) => "internal error",
            PdfError::InvalidPdf(_) => "invalid pdf file",
            PdfError::KeywordExpected(_) => "pdf keyword expected",
            PdfError::InvalidReference => "reference not found",
            PdfError::InvalidReferenceTarget => "target does not match reference",
            PdfError::InvalidPageNumber => "invalid page number",
            PdfError::EndOfFile => "unexpected end of file",
            PdfError::IoError => "I/O error",
            PdfError::ParseIntError => "failed to parse int",
            PdfError::ParseFloatError => "failed to parse float",
        }
    }

    /// The text of the failure.
    pub fn message(&self) -> (text: String)
        ensures
            text@ == self.message_text(),
    {
        let mut text = String::from_str(self.kind());
        match self {
            PdfError::DecompressionError(message) => {
                text.append(": ");
                text.append(message.as_str());
            },
            PdfError::InternalError(detail) => {
                text.append(": ");
                text.append(detail);
            },
            PdfError::InvalidPdf(detail) => {
                text.append(": ");
                text.append(detail);
            },
            PdfError::KeywordExpected(word) => {
                text.append(": ");
                text.append(word.text());
            },
            _ => {},
        }
        text
    }
}

} // verus!

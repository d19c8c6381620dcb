//! A reader that owns its source and hands out one object after the other.

use vstd::prelude::*;
use crate::errors::PdfError;
use crate::names::PdfKeyword;
use crate::next_object::{dictionary_needed, keyword_needed, object_at, object_view, u32_needed};
use crate::pdf_source::{seek_target, SeekFrom, Source};
use crate::pdf_types::{Dictionary, PdfObject};
use crate::token_reader::TokenReader;

verus! {

/// An object parser over a token reader of its own.
pub struct ObjectReader<S: Source> {
    tokens: TokenReader<S>,
}

impl<S: Source> ObjectReader<S> {
    /// The bytes that are read.
    pub closed spec fn content(&self) -> Seq<u8> {
        self.tokens.content()
    }

    /// The position of the next byte to be read.
    pub closed spec fn cursor(&self) -> nat {
        self.tokens.cursor()
    }

    /// A reader of the objects that `tokens` spell.
    pub fn new(tokens: TokenReader<S>) -> (reader: ObjectReader<S>)
        ensures
            reader.content() == tokens.content(),
            reader.cursor() == tokens.cursor(),
    {
        ObjectReader { tokens }
    }

    /// A reader of `source` that does not ask for the header of a file first.
    pub fn without_validation(source: S) -> (reader: ObjectReader<S>)
        ensures
            reader.content() == source.content(),
            reader.cursor() == source.cursor(),
    {
        ObjectReader { tokens: TokenReader::new(source) }
    }

    /// Moves the cursor and returns its new position.
    pub fn seek(&mut self, pos: SeekFrom) -> (r: Result<u64, PdfError>)
        ensures
            final(self).content() == old(self).content(),
            match seek_target(pos, old(self).content().len(), old(self).cursor()) {
                Some(target) => r == Ok::<u64, PdfError>(target as u64) && final(self).cursor()
                    == target,
                None => r == Err::<u64, PdfError>(PdfError::IoError) && final(self).cursor()
                    == old(self).cursor(),
            },
    {
        self.tokens.seek(pos)
    }

    /// Reads the next object.  `None` means a closing bracket or the end of the input.
    pub fn next(&mut self) -> (r: Result<Option<PdfObject>, PdfError>)
        ensures
            final(self).content() == old(self).content(),
            match object_at(old(self).content(), old(self).cursor()) {
                Ok((found, end)) => r matches Ok(object) && object_view(object) == found && final(
                    self
                ).cursor() == end,
                Err(e) => r == Err::<Option<PdfObject>, PdfError>(e),
            },
    {
        self.tokens.next_object()
    }

    /// Reads an object and fails unless it is the keyword `keyword`.
    pub fn need_keyword(&mut self, keyword: PdfKeyword) -> (r: Result<(), PdfError>)
        ensures
            final(self).content() == old(self).content(),
            match keyword_needed(old(self).content(), old(self).cursor(), keyword) {
                Ok(end) => r is Ok && final(self).cursor() == end,
                Err(e) => r == Err::<(), PdfError>(e),
            },
    {
        self.tokens.need_keyword(keyword)
    }

    /// Reads an object and fails unless it is the integer `value`.
    pub fn need_u32(&mut self, value: u32) -> (r: Result<(), PdfError>)
        ensures
            final(self).content() == old(self).content(),
            match u32_needed(old(self).content(), old(self).cursor(), value) {
                Ok(end) => r is Ok && final(self).cursor() == end,
                Err(e) => r == Err::<(), PdfError>(e),
            },
    {
        self.tokens.need_u32(value)
    }

    /// Reads an object and fails unless it is a dictionary.
    pub fn need_dictionary(&mut self) -> (r: Result<Dictionary, PdfError>)
        ensures
            final(self).content() == old(self).content(),
            match dictionary_needed(old(self).content(), old(self).cursor()) {
                Ok((map, end)) => r matches Ok(dict) && dict@ == map && final(self).cursor()
                    == end,
                Err(e) => r == Err::<Dictionary, PdfError>(e),
            },
    {
        self.tokens.need_dictionary()
    }
}

} // verus!

//! A reader that owns its source and hands out one token after the other.

use vstd::prelude::*;
use crate::errors::PdfError;
use crate::names::PdfKeyword;
use crate::next_object::{
    dictionary_needed, keyword_needed, need_dictionary, need_keyword, need_u32, next_object,
    object_at, object_view, u32_needed,
};
use crate::next_token::{next_token, token_at};
use crate::pdf_source::{seek_target, SeekFrom, Source};
use crate::pdf_types::{Dictionary, PdfObject, PdfToken};

verus! {

/// A token scanner over a source of its own.
pub struct TokenReader<S: Source> {
    source: S,
}

impl<S: Source> TokenReader<S> {
    /// The bytes that are read.
    pub closed spec fn content(&self) -> Seq<u8> {
        self.source.content()
    }

    /// The position of the next byte to be read.
    pub closed spec fn cursor(&self) -> nat {
        self.source.cursor()
    }

    /// A reader of `source`, from its cursor on.
    pub fn new(source: S) -> (reader: TokenReader<S>)
        ensures
            reader.content() == source.content(),
            reader.cursor() == source.cursor(),
    {
        TokenReader { source }
    }

    /// Moves the cursor and returns its new position.
    pub fn seek(&mut self, pos: SeekFrom) -> (r: Result<u64, PdfError>)
        ensures
            final(self).content() == old(self).content(),
            match seek_target(pos, old(self).content().len(), old(self).cursor()) {
                Some(target) => r == Ok::<u64, PdfError>(target as u64) && final(self).cursor()
                    == target,
                None => r == Err::<u64, PdfError>(PdfError::IoError) && final(self).cursor()
                    == old(self).cursor(),
            },
    {
        self.source.seek(pos)
    }

    /// Reads the next token.  Where nothing but white space and comments is
    /// left, the end of the input is the failure.
    pub fn next(&mut self) -> (r: Result<PdfToken, PdfError>)
        ensures
            final(self).content() == old(self).content(),
            match token_at(old(self).content(), old(self).cursor()) {
                Ok((Some(view), end)) => r matches Ok(token) && token@ == view && final(
                    self
                ).cursor() == end,
                Ok((None, _)) => r == Err::<PdfToken, PdfError>(PdfError::EndOfFile),
                Err(e) => r == Err::<PdfToken, PdfError>(e),
            },
    {
        match next_token(&mut self.source)? {
            Some(token) => Ok(token),
            None => Err(PdfError::EndOfFile),
        }
    }

    /// Reads the next object from the tokens.
    pub fn next_object(&mut self) -> (r: Result<Option<PdfObject>, PdfError>)
        ensures
            final(self).content() == old(self).content(),
            match object_at(old(self).content(), old(self).cursor()) {
                Ok((found, end)) => r matches Ok(object) && object_view(object) == found && final(
                    self
                ).cursor() == end,
                Err(e) => r == Err::<Option<PdfObject>, PdfError>(e),
            },
    {
        next_object(&mut self.source)
    }

    /// Reads an object and fails unless it is the keyword `keyword`.
    pub fn need_keyword(&mut self, keyword: PdfKeyword) -> (r: Result<(), PdfError>)
        ensures
            final(self).content() == old(self).content(),
            match keyword_needed(old(self).content(), old(self).cursor(), keyword) {
                Ok(end) => r is Ok && final(self).cursor() == end,
                Err(e) => r == Err::<(), PdfError>(e),
            },
    {
        need_keyword(&mut self.source, keyword)
    }

    /// Reads an object and fails unless it is the integer `value`.
    pub fn need_u32(&mut self, value: u32) -> (r: Result<(), PdfError>)
        ensures
            final(self).content() == old(self).content(),
            match u32_needed(old(self).content(), old(self).cursor(), value) {
                Ok(end) => r is Ok && final(self).cursor() == end,
                Err(e) => r == Err::<(), PdfError>(e),
            },
    {
        need_u32(&mut self.source, value)
    }

    /// Reads an object and fails unless it is a dictionary.
    pub fn need_dictionary(&mut self) -> (r: Result<Dictionary, PdfError>)
        ensures
            final(self).content() == old(self).content(),
            match dictionary_needed(old(self).content(), old(self).cursor()) {
                Ok((map, end)) => r matches Ok(dict) && dict@ == map && final(self).cursor()
                    == end,
                Err(e) => r == Err::<Dictionary, PdfError>(e),
            },
    {
        need_dictionary(&mut self.source)
    }
}

} // verus!

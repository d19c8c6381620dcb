//! Random-access byte sources with one byte of pushback.
//!
//! A source is a fixed sequence of bytes together with a cursor.  The cursor may
//! stand anywhere from zero up to the largest 64-bit position, also beyond the
//! end of the bytes, where every read comes back empty.

use vstd::prelude::*;
use crate::errors::PdfError;

verus! {

/// The point a seek is measured from, with its offset in bytes.
#[derive(Debug, Clone, Copy, PartialEq, Eq)]
pub enum SeekFrom {
    /// An absolute position.
    Start(u64),
    /// An offset from the end of the bytes.
    End(i64),
    /// An offset from the cursor.
    Current(i64),
}

/// The position that a seek asks for, or `None` where it would fall below
/// zero or above the largest 64-bit position.
pub open spec fn seek_target(pos: SeekFrom, len: nat, cursor: nat) -> Option<nat> {
    let target: int = match pos {
        SeekFrom::Start(n) => n as int,
        SeekFrom::End(offset) => len + offset,
        SeekFrom::Current(offset) => cursor + offset,
    };
    if 0 <= target <= u64::MAX {
        Some(target as nat)
    } else {
        None
    }
}

/// The byte under the cursor, if the cursor stands before the end.
pub open spec fn byte_at(content: Seq<u8>, cursor: nat) -> Option<u8> {
    if cursor < content.len() {
        Some(content[cursor as int])
    } else {
        None
    }
}

/// The cursor after one `getch`: one further, unless it stood at or beyond the end.
pub open spec fn step(content: Seq<u8>, cursor: nat) -> nat {
    if cursor < content.len() {
        cursor + 1
    } else {
        cursor
    }
}

/// The bytes that a read of up to `count` bytes yields: those from the cursor
/// on, as far as the content reaches.
pub open spec fn readable(content: Seq<u8>, cursor: nat, count: nat) -> Seq<u8> {
    if cursor >= content.len() {
        Seq::empty()
    } else if cursor + count >= content.len() {
        content.subrange(cursor as int, content.len() as int)
    } else {
        content.subrange(cursor as int, (cursor + count) as int)
    }
}

/// The cursor after `backup`: one byte back, and unmoved at position zero.
pub open spec fn stepped_back(cursor: nat) -> nat {
    if cursor > 0 {
        (cursor - 1) as nat
    } else {
        0
    }
}

/// A random-access byte source.
pub trait Source {
    /// The bytes of the source.  No operation changes them.
    spec fn content(&self) -> Seq<u8>;

    /// The position of the next byte to be read.
    spec fn cursor(&self) -> nat;

    /// The content fits in memory and the cursor in 64 bits.
    proof fn bounds(&self)
        ensures
            self.content().len() <= usize::MAX,
            self.cursor() <= u64::MAX,
    ;

    /// Moves the cursor and returns its new position.  A target below zero
    /// or above the largest position fails and leaves the cursor in place.
    fn seek(&mut self, pos: SeekFrom) -> (r: Result<u64, PdfError>)
        ensures
            final(self).content() == old(self).content(),
            match seek_target(pos, old(self).content().len(), old(self).cursor()) {
                Some(target) => r == Ok::<u64, PdfError>(target as u64) && final(self).cursor()
                    == target,
                None => r == Err::<u64, PdfError>(PdfError::IoError) && final(self).cursor() == old(self).cursor(),
            },
    ;

    /// Reads up to `count` bytes from the cursor on and moves past them.
    /// An empty result with a positive `count` means the end was reached.
    fn read(&mut self, count: usize) -> (bytes: Vec<u8>)
        ensures
            final(self).content() == old(self).content(),
            bytes@ == readable(old(self).content(), old(self).cursor(), count as nat),
            final(self).cursor() == old(self).cursor() + bytes@.len(),
    ;

    /// Reads the byte under the cursor and moves past it; `None` at the end.
    fn getch(&mut self) -> (r: Result<Option<u8>, PdfError>)
        ensures
            final(self).content() == old(self).content(),
            r == Ok::<Option<u8>, PdfError>(byte_at(old(self).content(), old(self).cursor())),
            final(self).cursor() == step(old(self).content(), old(self).cursor()),
    ;

    /// Moves the cursor back by one byte; at position zero it stays.
    fn backup(&mut self)
        ensures
            final(self).content() == old(self).content(),
            final(self).cursor() == stepped_back(old(self).cursor()),
    ;
}

/// Where a seek from `base` by `offset` lands, if that is a position.
fn offset_position(base: u64, offset: i64) -> (r: Option<u64>)
    ensures
        r == (if 0 <= base + offset <= u64::MAX {
            Some((base + offset) as u64)
        } else {
            None
        }),
{
    let target: i128 = base as i128 + offset as i128;
    if 0 <= target && target <= u64::MAX as i128 {
        Some(target as u64)
    } else {
        None
    }
}

/// Copies up to `count` bytes of `bytes` from `position` on.
fn copy_from(bytes: &[u8], position: u64, count: usize) -> (out: Vec<u8>)
    ensures
        out@ == readable(bytes@, position as nat, count as nat),
{
    let mut out: Vec<u8> = Vec::new();
    if position >= bytes.len() as u64 {
        return out;
    }
    let start: usize = position as usize;
    let room: usize = bytes.len() - start;
    let wanted: usize = if count < room { count } else { room };
    let mut i: usize = 0;
    while i < wanted
        invariant
            start + wanted <= bytes@.len() == bytes.len(),
            i <= wanted,
            out@ == bytes@.subrange(start as int, start + i),
        decreases wanted - i,
    {
        out.push(bytes[start + i]);
        i = i + 1;
        assert(out@ =~= bytes@.subrange(start as int, start + i));
    }
    out
}

/// A source over a borrowed slice of bytes.
pub struct ByteSliceSource<'a> {
    bytes: &'a [u8],
    position: u64,
}

impl<'a> ByteSliceSource<'a> {
    /// A source over `source`, with the cursor at its first byte.
    pub fn new(source: &'a [u8]) -> (s: ByteSliceSource<'a>)
        ensures
            s.content() == source@,
            s.cursor() == 0,
    {
        ByteSliceSource { bytes: source, position: 0 }
    }
}

impl<'a> Source for ByteSliceSource<'a> {
    closed spec fn content(&self) -> Seq<u8> {
        self.bytes@
    }

    closed spec fn cursor(&self) -> nat {
        self.position as nat
    }

    proof fn bounds(&self) {
        assert(self.bytes@.len() == self.bytes.len());
    }

    fn seek(&mut self, pos: SeekFrom) -> (r: Result<u64, PdfError>) {
        let target = match pos {
            SeekFrom::Start(n) => Some(n),
            SeekFrom::End(offset) => offset_position(self.bytes.len() as u64, offset),
            SeekFrom::Current(offset) => offset_position(self.position, offset),
        };
        match target {
            Some(n) => {
                self.position = n;
                Ok(n)
            },
            None => Err(PdfError::IoError),
        }
    }

    fn read(&mut self, count: usize) -> (bytes: Vec<u8>) {
        let bytes = copy_from(self.bytes, self.position, count);
        assert(self.position + bytes@.len() <= self.position || self.position + bytes@.len()
            <= self.bytes.len());
        self.position = self.position + bytes.len() as u64;
        bytes
    }

    fn getch(&mut self) -> (r: Result<Option<u8>, PdfError>) {
        if self.position < self.bytes.len() as u64 {
            let byte = self.bytes[self.position as usize];
            self.position = self.position + 1;
            Ok(Some(byte))
        } else {
            Ok(None)
        }
    }

    fn backup(&mut self) {
        if self.position > 0 {
            self.position = self.position - 1;
        }
    }
}

/// A source that owns its bytes.
pub struct ByteSource {
    bytes: Vec<u8>,
    position: u64,
}

impl ByteSource {
    /// A source over `bytes`, with the cursor at the first byte.
    pub fn new(bytes: Vec<u8>) -> (s: ByteSource)
        ensures
            s.content() == bytes@,
            s.cursor() == 0,
    {
        ByteSource { bytes, position: 0 }
    }
}

impl Source for ByteSource {
    closed spec fn content(&self) -> Seq<u8> {
        self.bytes@
    }

    closed spec fn cursor(&self) -> nat {
        self.position as nat
    }

    proof fn bounds(&self) {
        assert(self.bytes@.len() == self.bytes.len());
    }

    fn seek(&mut self, pos: SeekFrom) -> (r: Result<u64, PdfError>) {
        let target = match pos {
            SeekFrom::Start(n) => Some(n),
            SeekFrom::End(offset) => offset_position(self.bytes.len() as u64, offset),
            SeekFrom::Current(offset) => offset_position(self.position, offset),
        };
        match target {
            Some(n) => {
                self.position = n;
                Ok(n)
            },
            None => Err(PdfError::IoError),
        }
    }

    fn read(&mut self, count: usize) -> (bytes: Vec<u8>) {
        let bytes = copy_from(self.bytes.as_slice(), self.position, count);
        assert(self.position + bytes@.len() <= self.position || self.position + bytes@.len()
            <= self.bytes.len());
        self.position = self.position + bytes.len() as u64;
        bytes
    }

    fn getch(&mut self) -> (r: Result<Option<u8>, PdfError>) {
        if self.position < self.bytes.len() as u64 {
            let byte = self.bytes[self.position as usize];
            self.position = self.position + 1;
            Ok(Some(byte))
        } else {
            Ok(None)
        }
    }

    fn backup(&mut self) {
        if self.position > 0 {
            self.position = self.position - 1;
        }
    }
}

} // verus!

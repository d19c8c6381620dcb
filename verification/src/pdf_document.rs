//! The document: from the bytes of a file to its pages and their contents.
//!
//! Opening a document checks the header, finds the last trailer in the tail
//! of the file, reads the cross-reference table that the trailer points to,
//! and walks from the catalog down the page tree.  Each step is stated as a
//! function of the bytes, and `PdfDocument::new` is proved to compute
//! `document_of`.

use vstd::prelude::*;
use vstd::slice::slice_subrange;
use crate::dictionary::{array_in, integer_in, lookup, name_in, reference_in, Access};
use crate::errors::PdfError;
use crate::names::{ascii, same_bytes, PdfKeyword, PdfName};
use crate::next_object::{
    dictionary_needed, keyword_needed, lemma_object_advances, need_dictionary, need_keyword,
    need_u32, next_object, object_at, u32_needed,
};
use crate::next_token::LINE_FEED;
use crate::page_contents::PageContents;
use crate::pdf_source::{readable, SeekFrom, Source};
use crate::pdf_types::{
    array_view, copy_object, lemma_array_view, Array, Dictionary, NumberView, ObjectView,
    PdfNumber, PdfObject, Reference, FREE_GEN,
};
use crate::streams::{decode_stream, stream_decoded};

verus! {

/// How many bytes at the end of a file are searched for the trailer.
pub const TAIL_SIZE: u64 = 8192;

/// How many levels of the page tree are followed.
pub const PAGE_TREE_DEPTH: u32 = 256;

/// How many levels of references and nested values are followed when the
/// values of a stream dictionary are resolved.
pub const RESOLVE_DEPTH: u32 = 64;

/// One slot of the cross-reference table: where an object starts, and its
/// generation.  A free slot has the generation `FREE_GEN`.
#[derive(Debug, Clone, Copy, PartialEq, Eq, Structural)]
pub struct XRefEntry {
    pub gen: u16,
    pub position: u64,
}

/// The entry of a free slot.
pub open spec fn free_entry() -> XRefEntry {
    XRefEntry { gen: FREE_GEN, position: 0 }
}

/// The seven bytes that every file starts with.
pub open spec fn header() -> Seq<u8> {
    ascii("%PDF-1."@)
}

/// Whether the bytes start with the header.
pub open spec fn has_header(s: Seq<u8>) -> bool {
    s.len() >= 7 && s.subrange(0, 7) == header()
}

/// Where the tail of a file of `len` bytes starts.
pub open spec fn tail_start(len: nat) -> nat {
    if len < TAIL_SIZE {
        0
    } else {
        (len - TAIL_SIZE) as nat
    }
}

/// Whether the word `trailer` stands at place `i` of the buffer.
pub open spec fn trailer_at(buffer: Seq<u8>, i: int) -> bool {
    0 <= i && i + 7 <= buffer.len() && buffer.subrange(i, i + 7) == PdfKeyword::trailer.bytes()
}

/// The last place below `below` at which the word `trailer` stands.
pub open spec fn last_trailer(buffer: Seq<u8>, below: nat) -> Option<nat>
    decreases below,
{
    if below == 0 {
        None
    } else if trailer_at(buffer, below - 1) {
        Some((below - 1) as nat)
    } else {
        last_trailer(buffer, (below - 1) as nat)
    }
}

/// The position in the file just behind the last `trailer` of a buffer that
/// starts at `position`.
pub open spec fn trailer_found(position: u64, buffer: Seq<u8>) -> Result<u64, PdfError> {
    match last_trailer(buffer, buffer.len()) {
        Some(i) => Ok((position + i + 7) as u64),
        None => Err(PdfError::InvalidPdf("no trailer")),
    }
}

/// `last_trailer` finds an occurrence of the word, and none stands behind it
/// below the bound; it finds none only where none stands below the bound.
pub proof fn lemma_last_trailer(buffer: Seq<u8>, below: nat)
    ensures
        match last_trailer(buffer, below) {
            Some(i) => i < below && trailer_at(buffer, i as int) && forall|j: int|
                i < j < below ==> !trailer_at(buffer, j),
            None => forall|j: int| 0 <= j < below ==> !trailer_at(buffer, j),
        },
    decreases below,
{
    if below > 0 && !trailer_at(buffer, below - 1) {
        lemma_last_trailer(buffer, (below - 1) as nat);
    }
}

/// Finds the last `trailer` in `buffer`, the tail of a file that starts at
/// `position`, and returns the position in the file just behind the word.
pub fn find_trailer(position: u64, buffer: &[u8]) -> (r: Result<u64, PdfError>)
    requires
        position + buffer@.len() <= u64::MAX,
    ensures
        r == trailer_found(position, buffer@),
{
    let word = PdfKeyword::trailer.text().as_bytes();
    proof {
        reveal_strlit("trailer");
        assert(word@.len() == 7);
    }
    let mut i: usize = buffer.len();
    while i > 0
        invariant
            i <= buffer.len() == buffer@.len(),
            word@ == PdfKeyword::trailer.bytes(),
            word@.len() == 7,
            position + buffer@.len() <= u64::MAX,
            last_trailer(buffer@, i as nat) == last_trailer(buffer@, buffer@.len()),
        decreases i,
    {
        i = i - 1;
        if buffer.len() - i >= 7 && same_bytes(slice_subrange(buffer, i, i + 7), word) {
            return Ok(position + i as u64 + 7);
        }
    }
    Err(PdfError::InvalidPdf("no trailer"))
}

/// Checks that the file starts with the header.
pub fn validate_pdf<S: Source>(source: &mut S) -> (r: Result<(), PdfError>)
    ensures
        final(source).content() == old(source).content(),
        r == (if has_header(old(source).content()) {
            Ok::<(), PdfError>(())
        } else {
            Err::<(), PdfError>(PdfError::InvalidPdf("bad pdf header"))
        }),
{
    source.seek(SeekFrom::Start(0))?;
    let buffer = source.read(7);
    let expected = "%PDF-1.";
    proof {
        reveal_strlit("%PDF-1.");
        vstd::string::is_ascii_spec_bytes(expected);
        assert(header().len() == 7);
    }
    if same_bytes(buffer.as_slice(), expected.as_bytes()) {
        proof {
            assert(buffer@.len() == 7);
            assert(source.content().subrange(0, 7) =~= buffer@);
        }
        Ok(())
    } else {
        Err(PdfError::InvalidPdf("bad pdf header"))
    }
}

/// Reads the tail of the file: its last `TAIL_SIZE` bytes, or all of it if
/// it is shorter.  Returns where the tail starts, and the tail.
pub fn read_tail<S: Source>(source: &mut S) -> (r: Result<(u64, Vec<u8>), PdfError>)
    ensures
        final(source).content() == old(source).content(),
        r matches Ok((position, buffer)) && position == tail_start(old(source).content().len())
            && buffer@ == old(source).content().subrange(
            position as int,
            old(source).content().len() as int,
        ),
{
    proof {
        source.bounds();
    }
    let filesize = source.seek(SeekFrom::End(0))?;
    let position = if filesize < TAIL_SIZE {
        source.seek(SeekFrom::Start(0))?
    } else {
        source.seek(SeekFrom::End(-8192))?
    };
    let buffer = source.read((filesize - position) as usize);
    assert(buffer@ =~= source.content().subrange(position as int, source.content().len() as int));
    Ok((position, buffer))
}

/// The trailer that starts at `pos`: its dictionary, the offset written
/// behind `startxref`, and the cursor behind that offset.
pub open spec fn trailer_read(s: Seq<u8>, pos: nat) -> Result<
    (Map<PdfName, ObjectView>, u64, nat),
    PdfError,
> {
    match object_at(s, pos) {
        Err(e) => Err(e),
        Ok((Some(ObjectView::Dictionary(map)), end)) => match keyword_needed(
            s,
            end,
            PdfKeyword::startxref,
        ) {
            Err(e) => Err(e),
            Ok(behind) => match object_at(s, behind) {
                Err(e) => Err(e),
                Ok((Some(ObjectView::Number(NumberView::Integer(addr))), last)) => Ok(
                    (map, addr as u64, last),
                ),
                Ok(_) => Err(PdfError::InvalidPdf("invalid pdf trailer")),
            },
        },
        Ok(_) => Err(PdfError::InvalidPdf("invalid pdf trailer")),
    }
}

/// Reads the trailer dictionary and the offset of the cross-reference table.
pub fn read_trailer<S: Source>(source: &mut S) -> (r: Result<(Dictionary, u64), PdfError>)
    ensures
        final(source).content() == old(source).content(),
        match trailer_read(old(source).content(), old(source).cursor()) {
            Ok((map, addr, end)) => r matches Ok((dict, startxref)) && dict@ == map && startxref
                == addr && final(source).cursor() == end,
            Err(e) => r == Err::<(Dictionary, u64), PdfError>(e),
        },
{
    match next_object(source)? {
        Some(PdfObject::Dictionary(trailer_dict)) => {
            need_keyword(source, PdfKeyword::startxref)?;
            match next_object(source)? {
                Some(PdfObject::Number(PdfNumber::Integer(addr))) => Ok(
                    (
                        trailer_dict,
                        #[verifier::truncate]
                        (addr as u64),
                    ),
                ),
                _ => Err(PdfError::InvalidPdf("invalid pdf trailer")),
            }
        },
        _ => Err(PdfError::InvalidPdf("invalid pdf trailer")),
    }
}

/// The entry that one line of the table writes: an offset, a generation and
/// the flag `n` for an object in use or `f` for a free slot.
#[verifier::opaque]
pub open spec fn xref_entry_at(s: Seq<u8>, pos: nat) -> Result<(XRefEntry, nat), PdfError> {
    match object_at(s, pos) {
        Err(e) => Err(e),
        Ok((position, first)) => match object_at(s, first) {
            Err(e) => Err(e),
            Ok((gen, second)) => match object_at(s, second) {
                Err(e) => Err(e),
                Ok((flag, third)) => match (position, gen, flag) {
                    (
                        Some(ObjectView::Number(NumberView::Integer(p))),
                        Some(ObjectView::Number(NumberView::Integer(g))),
                        Some(ObjectView::Keyword(PdfKeyword::n)),
                    ) => Ok((XRefEntry { gen: g as u16, position: p as u64 }, third)),
                    (
                        Some(ObjectView::Number(NumberView::Integer(_))),
                        Some(ObjectView::Number(NumberView::Integer(_))),
                        Some(ObjectView::Keyword(PdfKeyword::f)),
                    ) => Ok((free_entry(), third)),
                    _ => Err(PdfError::InvalidPdf("invalid xref entry")),
                },
            },
        },
    }
}

/// The table with `entry` in slot `index`; an index outside the table
/// changes nothing.
pub open spec fn stored(table: Seq<XRefEntry>, index: int, entry: XRefEntry) -> Seq<XRefEntry> {
    if 0 <= index < table.len() {
        table.update(index, entry)
    } else {
        table
    }
}

/// The table after `count` lines from `pos` on are stored from slot `index` on.
pub open spec fn xref_entries_at(
    s: Seq<u8>,
    pos: nat,
    table: Seq<XRefEntry>,
    index: int,
    count: int,
) -> Result<(Seq<XRefEntry>, nat), PdfError>
    decreases count,
{
    if count <= 0 {
        Ok((table, pos))
    } else {
        match xref_entry_at(s, pos) {
            Err(e) => Err(e),
            Ok((entry, end)) => xref_entries_at(
                s,
                end,
                stored(table, index, entry),
                index + 1,
                count - 1,
            ),
        }
    }
}

/// The table after the subsections from `pos` on.  A subsection starts
/// with two integers, the first slot and the number of lines; the first pair
/// of objects that is not two integers ends the table and is used up.
pub open spec fn xref_sections_at(s: Seq<u8>, pos: nat, table: Seq<XRefEntry>) -> Result<
    (Seq<XRefEntry>, nat),
    PdfError,
>
    decreases s.len() - pos,
{
    match object_at(s, pos) {
        Err(e) => Err(e),
        Ok((first, behind_first)) => match object_at(s, behind_first) {
            Err(e) => Err(e),
            Ok((count, behind_count)) => match (first, count) {
                (
                    Some(ObjectView::Number(NumberView::Integer(f))),
                    Some(ObjectView::Number(NumberView::Integer(c))),
                ) => match xref_entries_at(s, behind_count, table, f as int, c as int) {
                    Err(e) => Err(e),
                    Ok((next, end)) => {
                        // Two integers take at least two bytes, so the condition always holds.
                        if pos < end <= s.len() {
                            xref_sections_at(s, end, next)
                        } else {
                            Ok((next, end))
                        }
                    },
                },
                _ => Ok((table, behind_count)),
            },
        },
    }
}

/// The cross-reference table of `size` slots that starts at `pos` with
/// the keyword `xref`.  Slots that no line fills are free.
pub open spec fn xref_at(s: Seq<u8>, pos: nat, size: u32) -> Result<(Seq<XRefEntry>, nat), PdfError> {
    match keyword_needed(s, pos, PdfKeyword::xref) {
        Err(e) => Err(e),
        Ok(end) => xref_sections_at(s, end, Seq::new(size as nat, |i: int| free_entry())),
    }
}

/// Reading a line of the table moves the cursor on, within the bytes.
pub proof fn lemma_xref_entry_advances(s: Seq<u8>, pos: nat)
    ensures
        xref_entry_at(s, pos) matches Ok((_, end)) ==> pos < end <= s.len(),
{
    reveal(xref_entry_at);
    lemma_object_advances(s, pos);
    match object_at(s, pos) {
        Ok((_, first)) => {
            lemma_object_advances(s, first);
            match object_at(s, first) {
                Ok((_, second)) => {
                    lemma_object_advances(s, second);
                },
                _ => {},
            }
        },
        _ => {},
    }
}

/// Reading lines of the table never moves the cursor back.
pub proof fn lemma_xref_entries_advance(
    s: Seq<u8>,
    pos: nat,
    table: Seq<XRefEntry>,
    index: int,
    count: int,
)
    ensures
        xref_entries_at(s, pos, table, index, count) matches Ok((next, end)) ==> pos <= end && (pos
            <= s.len() ==> end <= s.len()) && next.len() == table.len(),
    decreases count,
{
    if count > 0 {
        lemma_xref_entry_advances(s, pos);
        match xref_entry_at(s, pos) {
            Ok((entry, end)) => {
                lemma_xref_entries_advance(s, end, stored(table, index, entry), index + 1, count - 1);
            },
            _ => {},
        }
    }
}

/// Reads one line of the table.
pub fn read_xref_entry<S: Source>(source: &mut S) -> (r: Result<XRefEntry, PdfError>)
    ensures
        final(source).content() == old(source).content(),
        match xref_entry_at(old(source).content(), old(source).cursor()) {
            Ok((entry, end)) => r == Ok::<XRefEntry, PdfError>(entry) && final(source).cursor()
                == end,
            Err(e) => r == Err::<XRefEntry, PdfError>(e),
        },
{
    reveal(xref_entry_at);
    let position = next_object(source)?;
    let gen = next_object(source)?;
    let flag = next_object(source)?;
    match (position, gen, flag) {
        (
            Some(PdfObject::Number(PdfNumber::Integer(p))),
            Some(PdfObject::Number(PdfNumber::Integer(g))),
            Some(PdfObject::Keyword(PdfKeyword::n)),
        ) => Ok(
            XRefEntry {
                gen: #[verifier::truncate]
                (g as u16),
                position: #[verifier::truncate]
                (p as u64),
            },
        ),
        (
            Some(PdfObject::Number(PdfNumber::Integer(_))),
            Some(PdfObject::Number(PdfNumber::Integer(_))),
            Some(PdfObject::Keyword(PdfKeyword::f)),
        ) => Ok(XRefEntry { gen: FREE_GEN, position: 0 }),
        _ => Err(PdfError::InvalidPdf("invalid xref entry")),
    }
}

/// Reads `count` lines of the table and stores them from slot `first` on.
pub fn read_xref_lines<S: Source>(
    source: &mut S,
    xref: &mut Vec<XRefEntry>,
    first: i64,
    count: i64,
) -> (r: Result<(), PdfError>)
    ensures
        final(source).content() == old(source).content(),
        match xref_entries_at(
            old(source).content(),
            old(source).cursor(),
            old(xref)@,
            first as int,
            count as int,
        ) {
            Ok((table, end)) => r is Ok && final(xref)@ == table && final(source).cursor() == end,
            Err(e) => r == Err::<(), PdfError>(e),
        },
{
    let ghost s = source.content();
    let ghost whole = xref_entries_at(s, source.cursor(), xref@, first as int, count as int);
    let mut done: i64 = 0;
    while done < count
        invariant
            source.content() == s,
            s == old(source).content(),
            0 <= done,
            count <= 0 || done <= count,
            xref_entries_at(s, source.cursor(), xref@, first + done, count - done) == whole,
            whole == xref_entries_at(
                s,
                old(source).cursor(),
                old(xref)@,
                first as int,
                count as int,
            ),
        decreases count - done,
    {
        let entry = read_xref_entry(source)?;
        let index: i128 = first as i128 + done as i128;
        if 0 <= index && index < xref.len() as i128 {
            xref.set(index as usize, entry);
        }
        done = done + 1;
    }
    Ok(())
}

/// Reads the cross-reference table of `size` slots.
pub fn read_xref<S: Source>(source: &mut S, size: u32) -> (r: Result<Vec<XRefEntry>, PdfError>)
    ensures
        final(source).content() == old(source).content(),
        match xref_at(old(source).content(), old(source).cursor(), size) {
            Ok((table, end)) => r matches Ok(xref) && xref@ == table && final(source).cursor()
                == end,
            Err(e) => r == Err::<Vec<XRefEntry>, PdfError>(e),
        },
{
    let ghost s = source.content();
    let ghost start = source.cursor();
    let mut xref: Vec<XRefEntry> = Vec::new();
    let mut filled: u32 = 0;
    while filled < size
        invariant
            filled <= size,
            xref@.len() == filled,
            forall|i: int| 0 <= i < filled ==> xref@[i] == free_entry(),
        decreases size - filled,
    {
        xref.push(XRefEntry { gen: FREE_GEN, position: 0 });
        filled = filled + 1;
    }
    assert(xref@ =~= Seq::new(size as nat, |i: int| free_entry()));
    need_keyword(source, PdfKeyword::xref)?;
    let ghost whole = xref_sections_at(s, source.cursor(), xref@);
    loop
        invariant
            source.content() == s,
            s == old(source).content(),
            start == old(source).cursor(),
            xref_at(s, start, size) == whole,
            xref_sections_at(s, source.cursor(), xref@) == whole,
        decreases s.len() - source.cursor(),
    {
        let ghost at = source.cursor();
        proof {
            lemma_object_advances(s, at);
        }
        let first = next_object(source)?;
        proof {
            lemma_object_advances(s, source.cursor());
        }
        let count = next_object(source)?;
        let (first, count) = match (first, count) {
            (
                Some(PdfObject::Number(PdfNumber::Integer(f))),
                Some(PdfObject::Number(PdfNumber::Integer(c))),
            ) => (f, c),
            _ => {
                return Ok(xref);
            },
        };
        proof {
            lemma_xref_entries_advance(s, source.cursor(), xref@, first as int, count as int);
        }
        read_xref_lines(source, &mut xref, first, count)?;
    }
}

/// Where the object that `r` refers to starts.  A reference with the free
/// generation, a number beyond the table and a free slot all lead nowhere.
pub open spec fn target_of(xref: Seq<XRefEntry>, r: Reference) -> Result<u64, PdfError> {
    if r.gen == FREE_GEN || r.id >= xref.len() || xref[r.id as int].gen == FREE_GEN {
        Err(PdfError::InvalidReference)
    } else {
        Ok(xref[r.id as int].position)
    }
}

/// Moves the cursor to the object that `reference` refers to.
pub fn seek_reference<S: Source>(source: &mut S, xref: &Vec<XRefEntry>, reference: Reference) -> (r:
    Result<u64, PdfError>)
    ensures
        final(source).content() == old(source).content(),
        match target_of(xref@, reference) {
            Ok(position) => r == Ok::<u64, PdfError>(position) && final(source).cursor()
                == position,
            Err(e) => r == Err::<u64, PdfError>(e),
        },
{
    let id = reference.id as usize;
    if reference.gen == FREE_GEN || id >= xref.len() || xref[id].gen == FREE_GEN {
        Err(PdfError::InvalidReference)
    } else {
        source.seek(SeekFrom::Start(xref[id].position))
    }
}

/// The head of the object `r` at `pos`: its number, its generation, the
/// keyword `obj` and a dictionary.  Gives the dictionary and the cursor behind it.
pub open spec fn prefix_at(s: Seq<u8>, pos: nat, r: Reference) -> Result<
    (Map<PdfName, ObjectView>, nat),
    PdfError,
> {
    match u32_needed(s, pos, r.id) {
        Err(e) => Err(e),
        Ok(behind_id) => match u32_needed(s, behind_id, r.gen as u32) {
            Err(e) => Err(e),
            Ok(behind_gen) => match keyword_needed(s, behind_gen, PdfKeyword::obj) {
                Err(e) => Err(e),
                Ok(behind_obj) => dictionary_needed(s, behind_obj),
            },
        },
    }
}

/// The dictionary that the object `r` at `pos` holds, and the cursor behind
/// its `endobj`.
pub open spec fn dictionary_envelope_at(s: Seq<u8>, pos: nat, r: Reference) -> Result<
    (Map<PdfName, ObjectView>, nat),
    PdfError,
> {
    match prefix_at(s, pos, r) {
        Err(e) => Err(e),
        Ok((dict, end)) => match keyword_needed(s, end, PdfKeyword::endobj) {
            Err(e) => Err(e),
            Ok(behind) => Ok((dict, behind)),
        },
    }
}

/// The object `r` at `pos`: its number, its generation, `obj`, one
/// object and `endobj`.  Gives the object and the cursor behind `endobj`.
pub open spec fn envelope_at(s: Seq<u8>, pos: nat, r: Reference) -> Result<
    (ObjectView, nat),
    PdfError,
> {
    match u32_needed(s, pos, r.id) {
        Err(e) => Err(e),
        Ok(behind_id) => match u32_needed(s, behind_id, r.gen as u32) {
            Err(e) => Err(e),
            Ok(behind_gen) => match keyword_needed(s, behind_gen, PdfKeyword::obj) {
                Err(e) => Err(e),
                Ok(behind_obj) => match object_at(s, behind_obj) {
                    Err(e) => Err(e),
                    Ok((None, _)) => Err(PdfError::InvalidPdf("pdf object expected")),
                    Ok((Some(object), end)) => match keyword_needed(s, end, PdfKeyword::endobj) {
                        Err(e) => Err(e),
                        Ok(behind) => Ok((object, behind)),
                    },
                },
            },
        },
    }
}

/// An object spans at least one byte, and ends within the bytes.
pub proof fn lemma_envelope_advances(s: Seq<u8>, pos: nat, r: Reference)
    ensures
        envelope_at(s, pos, r) matches Ok((_, end)) ==> pos < end <= s.len(),
{
    lemma_object_advances(s, pos);
    match u32_needed(s, pos, r.id) {
        Ok(behind_id) => {
            lemma_object_advances(s, behind_id);
            match u32_needed(s, behind_id, r.gen as u32) {
                Ok(behind_gen) => {
                    lemma_object_advances(s, behind_gen);
                    match keyword_needed(s, behind_gen, PdfKeyword::obj) {
                        Ok(behind_obj) => {
                            lemma_object_advances(s, behind_obj);
                            match object_at(s, behind_obj) {
                                Ok((Some(_), end)) => {
                                    lemma_object_advances(s, end);
                                },
                                _ => {},
                            }
                        },
                        _ => {},
                    }
                },
                _ => {},
            }
        },
        _ => {},
    }
}

/// Reads the object that `reference` refers to, from its number to its
/// `endobj`, and leaves the cursor just behind `endobj`.
pub fn read_object<S: Source>(source: &mut S, reference: Reference) -> (r: Result<
    PdfObject,
    PdfError,
>)
    ensures
        final(source).content() == old(source).content(),
        match envelope_at(old(source).content(), old(source).cursor(), reference) {
            Ok((view, end)) => r matches Ok(object) && object@ == view && final(source).cursor()
                == end,
            Err(e) => r == Err::<PdfObject, PdfError>(e),
        },
{
    need_u32(source, reference.id)?;
    need_u32(source, reference.gen as u32)?;
    need_keyword(source, PdfKeyword::obj)?;
    match next_object(source)? {
        Some(object) => {
            need_keyword(source, PdfKeyword::endobj)?;
            Ok(object)
        },
        None => Err(PdfError::InvalidPdf("pdf object expected")),
    }
}

/// Reads the head of an object and the dictionary that follows it.
pub fn read_prefix<S: Source>(source: &mut S, reference: Reference) -> (r: Result<
    Dictionary,
    PdfError,
>)
    ensures
        final(source).content() == old(source).content(),
        match prefix_at(old(source).content(), old(source).cursor(), reference) {
            Ok((map, end)) => r matches Ok(dict) && dict@ == map && final(source).cursor() == end,
            Err(e) => r == Err::<Dictionary, PdfError>(e),
        },
{
    need_u32(source, reference.id)?;
    need_u32(source, reference.gen as u32)?;
    need_keyword(source, PdfKeyword::obj)?;
    need_dictionary(source)
}

/// Reads an object that holds a dictionary, up to its `endobj`.
pub fn read_dictionary<S: Source>(source: &mut S, reference: Reference) -> (r: Result<
    Dictionary,
    PdfError,
>)
    ensures
        final(source).content() == old(source).content(),
        match dictionary_envelope_at(old(source).content(), old(source).cursor(), reference) {
            Ok((map, end)) => r matches Ok(dict) && dict@ == map && final(source).cursor() == end,
            Err(e) => r == Err::<Dictionary, PdfError>(e),
        },
{
    let dictionary = read_prefix(source, reference)?;
    need_keyword(source, PdfKeyword::endobj)?;
    Ok(dictionary)
}

/// The dictionary of the object that `r` refers to.
#[verifier::opaque]
pub open spec fn dictionary_of_reference(s: Seq<u8>, xref: Seq<XRefEntry>, r: Reference) -> Result<
    Map<PdfName, ObjectView>,
    PdfError,
> {
    match target_of(xref, r) {
        Err(e) => Err(e),
        Ok(position) => match dictionary_envelope_at(s, position as nat, r) {
            Err(e) => Err(e),
            Ok((dict, _)) => Ok(dict),
        },
    }
}

/// Goes to the object that `reference` refers to and reads its dictionary.
pub fn fetch_dictionary<S: Source>(source: &mut S, xref: &Vec<XRefEntry>, reference: Reference) -> (r:
    Result<Dictionary, PdfError>)
    ensures
        final(source).content() == old(source).content(),
        match dictionary_of_reference(old(source).content(), xref@, reference) {
            Ok(map) => r matches Ok(dict) && dict@ == map,
            Err(e) => r == Err::<Dictionary, PdfError>(e),
        },
{
    reveal(dictionary_of_reference);
    seek_reference(source, xref, reference)?;
    read_dictionary(source, reference)
}

/// The pages below a node of the page tree, from the first to the last.
/// `depth` is the number of levels that may still be gone down.
pub open spec fn pages_of(
    s: Seq<u8>,
    xref: Seq<XRefEntry>,
    node: Map<PdfName, ObjectView>,
    depth: nat,
) -> Result<Seq<Map<PdfName, ObjectView>>, PdfError>
    decreases depth, 2nat, 0nat,
{
    match array_in(node, PdfName::Kids) {
        None => Err(PdfError::InvalidPdf("Kids missing from pages node")),
        Some(kids) => kids_pages(s, xref, kids, depth),
    }
}

/// The pages below the kids of a node, kid by kid.
pub open spec fn kids_pages(s: Seq<u8>, xref: Seq<XRefEntry>, kids: Seq<ObjectView>, depth: nat) -> Result<
    Seq<Map<PdfName, ObjectView>>,
    PdfError,
>
    decreases depth, 1nat, kids.len(),
{
    if kids.len() == 0 {
        Ok(Seq::empty())
    } else {
        match kid_pages(s, xref, kids[0], depth) {
            Err(e) => Err(e),
            Ok(first) => match kids_pages(s, xref, kids.drop_first(), depth) {
                Err(e) => Err(e),
                Ok(rest) => Ok(first + rest),
            },
        }
    }
}

/// The pages below one kid: a reference to a page, which is itself, or to
/// a node of the tree.
pub open spec fn kid_pages(s: Seq<u8>, xref: Seq<XRefEntry>, kid: ObjectView, depth: nat) -> Result<
    Seq<Map<PdfName, ObjectView>>,
    PdfError,
>
    decreases depth, 0nat, 0nat,
{
    match kid {
        ObjectView::Reference(r) => match dictionary_of_reference(s, xref, r) {
            Err(e) => Err(e),
            Ok(dict) => match name_in(dict, PdfName::Type) {
                Some(PdfName::Pages) => {
                    if depth == 0 {
                        Err(PdfError::InvalidPdf("page tree too deep"))
                    } else {
                        pages_of(s, xref, dict, (depth - 1) as nat)
                    }
                },
                Some(PdfName::Page) => Ok(seq![dict]),
                _ => Err(PdfError::InvalidPdf("invalid page tree entry")),
            },
        },
        _ => Err(PdfError::InvalidPdf("invalid Kids entry")),
    }
}

/// What a list of dictionaries stands for.
pub open spec fn dictionaries_view(list: Seq<Dictionary>) -> Seq<Map<PdfName, ObjectView>> {
    Seq::new(list.len(), |i: int| list[i]@)
}

/// With the pages of the first kid put behind those collected so far, the
/// kids that are left give the same whole.
pub proof fn lemma_kids_pages_step(
    s: Seq<u8>,
    xref: Seq<XRefEntry>,
    left: Seq<ObjectView>,
    depth: nat,
    before: Seq<Map<PdfName, ObjectView>>,
    whole: Result<Seq<Map<PdfName, ObjectView>>, PdfError>,
)
    requires
        left.len() > 0,
        match kids_pages(s, xref, left, depth) {
            Ok(rest) => whole == Ok::<Seq<Map<PdfName, ObjectView>>, PdfError>(before + rest),
            Err(e) => whole == Err::<Seq<Map<PdfName, ObjectView>>, PdfError>(e),
        },
    ensures
        match kid_pages(s, xref, left[0], depth) {
            Err(e) => whole == Err::<Seq<Map<PdfName, ObjectView>>, PdfError>(e),
            Ok(added) => match kids_pages(s, xref, left.drop_first(), depth) {
                Ok(rest) => whole == Ok::<Seq<Map<PdfName, ObjectView>>, PdfError>(
                    (before + added) + rest,
                ),
                Err(e) => whole == Err::<Seq<Map<PdfName, ObjectView>>, PdfError>(e),
            },
        },
{
    let first = kid_pages(s, xref, left[0], depth);
    let others = kids_pages(s, xref, left.drop_first(), depth);
    assert(kids_pages(s, xref, left, depth) == match first {
        Err(e) => Err::<Seq<Map<PdfName, ObjectView>>, PdfError>(e),
        Ok(added) => match others {
            Err(e) => Err(e),
            Ok(rest) => Ok(added + rest),
        },
    });
    if first is Ok && others is Ok {
        let added = first->Ok_0;
        let rest = others->Ok_0;
        assert(before + (added + rest) =~= (before + added) + rest);
    }
}

/// Collects the pages below one kid of a node.
pub fn read_kid<S: Source>(source: &mut S, xref: &Vec<XRefEntry>, kid: &PdfObject, depth: u32) -> (r:
    Result<Vec<Dictionary>, PdfError>)
    ensures
        final(source).content() == old(source).content(),
        match kid_pages(old(source).content(), xref@, kid@, depth as nat) {
            Ok(views) => r matches Ok(pages) && dictionaries_view(pages@) == views,
            Err(e) => r == Err::<Vec<Dictionary>, PdfError>(e),
        },
    decreases depth, 0nat,
{
    match kid {
        PdfObject::Reference(r) => {
            let dict = fetch_dictionary(source, xref, *r)?;
            match dict.get_name(PdfName::Type) {
                Some(PdfName::Pages) => {
                    if depth == 0 {
                        Err(PdfError::InvalidPdf("page tree too deep"))
                    } else {
                        read_pages(source, xref, &dict, depth - 1)
                    }
                },
                Some(PdfName::Page) => {
                    let mut pages: Vec<Dictionary> = Vec::new();
                    pages.push(dict);
                    assert(dictionaries_view(pages@) =~= seq![dict@]);
                    Ok(pages)
                },
                _ => Err(PdfError::InvalidPdf("invalid page tree entry")),
            }
        },
        _ => Err(PdfError::InvalidPdf("invalid Kids entry")),
    }
}

/// Collects the pages below a node of the page tree.
pub fn read_pages<S: Source>(
    source: &mut S,
    xref: &Vec<XRefEntry>,
    pages_node: &Dictionary,
    depth: u32,
) -> (r: Result<Vec<Dictionary>, PdfError>)
    ensures
        final(source).content() == old(source).content(),
        match pages_of(old(source).content(), xref@, pages_node@, depth as nat) {
            Ok(views) => r matches Ok(pages) && dictionaries_view(pages@) == views,
            Err(e) => r == Err::<Vec<Dictionary>, PdfError>(e),
        },
    decreases depth, 1nat,
{
    let ghost s = source.content();
    let mut pages: Vec<Dictionary> = Vec::new();
    let kids = match pages_node.get_array(PdfName::Kids) {
        Some(a) => a,
        None => {
            return Err(PdfError::InvalidPdf("Kids missing from pages node"));
        },
    };
    let ghost views = array_view(kids@);
    let ghost whole = kids_pages(s, xref@, views, depth as nat);
    let mut i: usize = 0;
    proof {
        assert(views.subrange(0, views.len() as int) =~= views);
        assert(dictionaries_view(pages@) =~= Seq::empty());
        if whole is Ok {
            assert(Seq::<Map<PdfName, ObjectView>>::empty() + whole->Ok_0 =~= whole->Ok_0);
        }
    }
    while i < kids.len()
        invariant
            source.content() == s,
            s == old(source).content(),
            i <= kids@.len(),
            views == array_view(kids@),
            whole == pages_of(s, xref@, pages_node@, depth as nat),
            match kids_pages(s, xref@, views.subrange(i as int, views.len() as int), depth as nat) {
                Ok(rest) => whole == Ok::<Seq<Map<PdfName, ObjectView>>, PdfError>(
                    dictionaries_view(pages@) + rest,
                ),
                Err(e) => whole == Err::<Seq<Map<PdfName, ObjectView>>, PdfError>(e),
            },
        decreases kids@.len() - i,
    {
        let ghost left = views.subrange(i as int, views.len() as int);
        let ghost before = dictionaries_view(pages@);
        proof {
            assert(left.drop_first() =~= views.subrange(i + 1, views.len() as int));
            assert(left[0] == kids@[i as int]@);
            lemma_kids_pages_step(s, xref@, left, depth as nat, before, whole);
        }
        let mut below = match read_kid(source, xref, &kids[i], depth) {
            Ok(below) => below,
            Err(e) => {
                return Err(e);
            },
        };
        let ghost added = dictionaries_view(below@);
        pages.append(&mut below);
        assert(dictionaries_view(pages@) =~= before + added);
        i = i + 1;
    }
    proof {
        assert(views.subrange(i as int, views.len() as int) =~= Seq::empty());
        assert(dictionaries_view(pages@) + Seq::<Map<PdfName, ObjectView>>::empty()
            =~= dictionaries_view(pages@));
    }
    Ok(pages)
}

/// The object that `r` refers to.
#[verifier::opaque]
pub open spec fn referenced(s: Seq<u8>, xref: Seq<XRefEntry>, r: Reference) -> Result<
    ObjectView,
    PdfError,
> {
    match target_of(xref, r) {
        Err(e) => Err(e),
        Ok(position) => match envelope_at(s, position as nat, r) {
            Err(e) => Err(e),
            Ok((object, _)) => Ok(object),
        },
    }
}

/// Goes to the object that `reference` refers to and reads it.
pub fn fetch_object<S: Source>(source: &mut S, xref: &Vec<XRefEntry>, reference: Reference) -> (r:
    Result<PdfObject, PdfError>)
    ensures
        final(source).content() == old(source).content(),
        match referenced(old(source).content(), xref@, reference) {
            Ok(view) => r matches Ok(object) && object@ == view,
            Err(e) => r == Err::<PdfObject, PdfError>(e),
        },
{
    reveal(referenced);
    seek_reference(source, xref, reference)?;
    read_object(source, reference)
}

/// The entries of a page that are left as they are when a dictionary is
/// resolved: they lead back up the tree or to large objects.
#[verifier::allow_in_spec]
pub fn is_structural(name: PdfName) -> bool
    returns
        name == PdfName::Parent || name == PdfName::Contents || name == PdfName::Resources,
{
    name == PdfName::Parent || name == PdfName::Contents || name == PdfName::Resources
}

/// A value with every reference in it replaced by the object it refers to,
/// as far as `depth` levels of references, arrays and dictionaries reach.
/// In a dictionary a value that cannot be resolved becomes null.
pub open spec fn resolved(s: Seq<u8>, xref: Seq<XRefEntry>, value: ObjectView, depth: nat) -> Result<
    ObjectView,
    PdfError,
>
    decreases depth, 0nat, 0nat,
{
    match value {
        ObjectView::Reference(r) => {
            if depth == 0 {
                Err(PdfError::InvalidPdf("objects nested too deep"))
            } else {
                match referenced(s, xref, r) {
                    Err(e) => Err(e),
                    Ok(object) => resolved(s, xref, object, (depth - 1) as nat),
                }
            }
        },
        ObjectView::Array(items) => {
            if depth == 0 {
                Err(PdfError::InvalidPdf("objects nested too deep"))
            } else {
                match resolved_items(s, xref, items, (depth - 1) as nat) {
                    Err(e) => Err(e),
                    Ok(list) => Ok(ObjectView::Array(list)),
                }
            }
        },
        ObjectView::Dictionary(map) => {
            if depth == 0 {
                Err(PdfError::InvalidPdf("objects nested too deep"))
            } else {
                Ok(ObjectView::Dictionary(resolved_entries(s, xref, map, (depth - 1) as nat)))
            }
        },
        _ => Ok(value),
    }
}

/// The items of an array, each resolved; the first failure is the failure of all.
pub open spec fn resolved_items(
    s: Seq<u8>,
    xref: Seq<XRefEntry>,
    items: Seq<ObjectView>,
    depth: nat,
) -> Result<Seq<ObjectView>, PdfError>
    decreases depth, 1nat, items.len(),
{
    if items.len() == 0 {
        Ok(Seq::empty())
    } else {
        match resolved(s, xref, items[0], depth) {
            Err(e) => Err(e),
            Ok(first) => match resolved_items(s, xref, items.drop_first(), depth) {
                Err(e) => Err(e),
                Ok(rest) => Ok(seq![first] + rest),
            },
        }
    }
}

/// The value of one entry of a dictionary, resolved.
pub open spec fn entry_resolved(
    s: Seq<u8>,
    xref: Seq<XRefEntry>,
    name: PdfName,
    value: ObjectView,
    depth: nat,
) -> ObjectView
    decreases depth, 1nat, 0nat,
{
    if is_structural(name) {
        value
    } else {
        match resolved(s, xref, value, depth) {
            Ok(object) => object,
            Err(_) => ObjectView::Null,
        }
    }
}

/// The entries of a dictionary, each resolved.
pub open spec fn resolved_entries(
    s: Seq<u8>,
    xref: Seq<XRefEntry>,
    map: Map<PdfName, ObjectView>,
    depth: nat,
) -> Map<PdfName, ObjectView>
    decreases depth, 2nat, 0nat,
{
    Map::new(
        |name: PdfName| map.contains_key(name),
        |name: PdfName| entry_resolved(s, xref, name, map[name], depth),
    )
}

/// With the first item resolved and put behind those resolved so far, the
/// items that are left give the same whole.
pub proof fn lemma_resolved_items_step(
    s: Seq<u8>,
    xref: Seq<XRefEntry>,
    left: Seq<ObjectView>,
    depth: nat,
    before: Seq<ObjectView>,
    whole: Result<Seq<ObjectView>, PdfError>,
)
    requires
        left.len() > 0,
        match resolved_items(s, xref, left, depth) {
            Ok(rest) => whole == Ok::<Seq<ObjectView>, PdfError>(before + rest),
            Err(e) => whole == Err::<Seq<ObjectView>, PdfError>(e),
        },
    ensures
        match resolved(s, xref, left[0], depth) {
            Err(e) => whole == Err::<Seq<ObjectView>, PdfError>(e),
            Ok(first) => match resolved_items(s, xref, left.drop_first(), depth) {
                Ok(rest) => whole == Ok::<Seq<ObjectView>, PdfError>(before.push(first) + rest),
                Err(e) => whole == Err::<Seq<ObjectView>, PdfError>(e),
            },
        },
{
    let first = resolved(s, xref, left[0], depth);
    let others = resolved_items(s, xref, left.drop_first(), depth);
    if first is Ok && others is Ok {
        assert(before + (seq![first->Ok_0] + others->Ok_0) =~= before.push(first->Ok_0)
            + others->Ok_0);
    }
}

/// Resolves the references in a value.
pub fn dereference<S: Source>(
    source: &mut S,
    xref: &Vec<XRefEntry>,
    object: &PdfObject,
    depth: u32,
) -> (r: Result<PdfObject, PdfError>)
    ensures
        final(source).content() == old(source).content(),
        match resolved(old(source).content(), xref@, object@, depth as nat) {
            Ok(view) => r matches Ok(out) && out@ == view,
            Err(e) => r == Err::<PdfObject, PdfError>(e),
        },
    decreases depth, 0nat,
{
    match object {
        PdfObject::Reference(r) => {
            if depth == 0 {
                return Err(PdfError::InvalidPdf("objects nested too deep"));
            }
            let target = fetch_object(source, xref, *r)?;
            dereference(source, xref, &target, depth - 1)
        },
        PdfObject::Array(items) => {
            proof {
                lemma_array_view(*items);
            }
            if depth == 0 {
                return Err(PdfError::InvalidPdf("objects nested too deep"));
            }
            let list = dereference_items(source, xref, items, depth - 1)?;
            proof {
                lemma_array_view(list);
            }
            Ok(PdfObject::Array(list))
        },
        PdfObject::Dictionary(dict) => {
            if depth == 0 {
                return Err(PdfError::InvalidPdf("objects nested too deep"));
            }
            let out = dereference_entries(source, xref, dict, depth - 1);
            Ok(PdfObject::Dictionary(out))
        },
        _ => Ok(copy_object(object)),
    }
}

/// Resolves the items of an array.
pub fn dereference_items<S: Source>(
    source: &mut S,
    xref: &Vec<XRefEntry>,
    items: &Array,
    depth: u32,
) -> (r: Result<Array, PdfError>)
    ensures
        final(source).content() == old(source).content(),
        match resolved_items(old(source).content(), xref@, array_view(items@), depth as nat) {
            Ok(views) => r matches Ok(list) && array_view(list@) == views,
            Err(e) => r == Err::<Array, PdfError>(e),
        },
    decreases depth, 1nat,
{
    let ghost s = source.content();
    let ghost views = array_view(items@);
    let ghost whole = resolved_items(s, xref@, views, depth as nat);
    let mut list: Vec<PdfObject> = Vec::new();
    let mut i: usize = 0;
    proof {
        assert(views.subrange(0, views.len() as int) =~= views);
        assert(array_view(list@) =~= Seq::empty());
        if whole is Ok {
            assert(Seq::<ObjectView>::empty() + whole->Ok_0 =~= whole->Ok_0);
        }
    }
    while i < items.len()
        invariant
            source.content() == s,
            s == old(source).content(),
            i <= items@.len(),
            views == array_view(items@),
            whole == resolved_items(s, xref@, views, depth as nat),
            match resolved_items(
                s,
                xref@,
                views.subrange(i as int, views.len() as int),
                depth as nat,
            ) {
                Ok(rest) => whole == Ok::<Seq<ObjectView>, PdfError>(array_view(list@) + rest),
                Err(e) => whole == Err::<Seq<ObjectView>, PdfError>(e),
            },
        decreases items@.len() - i,
    {
        let ghost left = views.subrange(i as int, views.len() as int);
        let ghost before = array_view(list@);
        proof {
            assert(left.drop_first() =~= views.subrange(i + 1, views.len() as int));
            assert(left[0] == items@[i as int]@);
            lemma_resolved_items_step(s, xref@, left, depth as nat, before, whole);
        }
        let item = match dereference(source, xref, &items[i], depth) {
            Ok(item) => item,
            Err(e) => {
                return Err(e);
            },
        };
        list.push(item);
        assert(array_view(list@) =~= before.push(item@));
        i = i + 1;
    }
    proof {
        assert(views.subrange(i as int, views.len() as int) =~= Seq::empty());
        assert(array_view(list@) + Seq::<ObjectView>::empty() =~= array_view(list@));
    }
    Ok(list)
}

/// Resolves the values of a dictionary.
pub fn dereference_entries<S: Source>(
    source: &mut S,
    xref: &Vec<XRefEntry>,
    dict: &Dictionary,
    depth: u32,
) -> (out: Dictionary)
    ensures
        final(source).content() == old(source).content(),
        out@ == resolved_entries(old(source).content(), xref@, dict@, depth as nat),
    decreases depth, 1nat,
{
    let ghost s = source.content();
    let n = dict.len();
    let ghost names = dict.names();
    let mut out = Dictionary::new();
    let mut i: usize = 0;
    while i < n
        invariant
            source.content() == s,
            s == old(source).content(),
            i <= n,
            n == names.len(),
            names == dict.names(),
            names.no_duplicates(),
            forall|name: PdfName| dict@.contains_key(name) <==> names.contains(name),
            forall|name: PdfName| #[trigger]
                out@.contains_key(name) <==> exists|j: int| 0 <= j < i && names[j] == name,
            forall|name: PdfName| #[trigger]
                out@.contains_key(name) ==> out@[name] == entry_resolved(
                    s,
                    xref@,
                    name,
                    dict@[name],
                    depth as nat,
                ),
        decreases n - i,
    {
        let name = dict.name_at(i);
        let value = dict.value_at(i);
        let after = if is_structural(name) {
            copy_object(value)
        } else {
            match dereference(source, xref, value, depth) {
                Ok(object) => object,
                Err(_) => PdfObject::Null,
            }
        };
        let ghost before = out@;
        out.insert(name, after);
        proof {
            assert forall|key: PdfName| #[trigger]
                out@.contains_key(key) <==> exists|j: int| 0 <= j < i + 1 && names[j] == key by {
                if key == name {
                    assert(names[i as int] == key);
                } else if before.contains_key(key) {
                    let j = choose|j: int| 0 <= j < i && names[j] == key;
                    assert(0 <= j < i + 1 && names[j] == key);
                } else if exists|j: int| 0 <= j < i + 1 && names[j] == key {
                    let j = choose|j: int| 0 <= j < i + 1 && names[j] == key;
                    assert(j < i);
                }
            }
        }
        i = i + 1;
    }
    proof {
        let target = resolved_entries(s, xref@, dict@, depth as nat);
        assert forall|key: PdfName| out@.contains_key(key) == target.contains_key(key) by {
            if out@.contains_key(key) {
                let j = choose|j: int| 0 <= j < i && names[j] == key;
                assert(names.contains(key));
            }
            if target.contains_key(key) {
                assert(names.contains(key));
                let j = choose|j: int| 0 <= j < names.len() && names[j] == key;
                assert(0 <= j < i && names[j] == key);
            }
        }
        assert(out@ =~= target);
    }
    out
}

/// The position just behind the first line feed from `pos` on, if there is one.
pub open spec fn line_end(s: Seq<u8>, pos: nat) -> Option<nat>
    decreases s.len() - pos,
{
    if pos >= s.len() {
        None
    } else if s[pos as int] == LINE_FEED {
        Some(pos + 1)
    } else {
        line_end(s, pos + 1)
    }
}

/// Moves the cursor behind the next line feed.
pub fn skip_line<S: Source>(source: &mut S) -> (r: Result<(), PdfError>)
    ensures
        final(source).content() == old(source).content(),
        match line_end(old(source).content(), old(source).cursor()) {
            Some(end) => r is Ok && final(source).cursor() == end,
            None => r == Err::<(), PdfError>(PdfError::EndOfFile),
        },
{
    loop
        invariant
            source.content() == old(source).content(),
            line_end(source.content(), source.cursor()) == line_end(
                old(source).content(),
                old(source).cursor(),
            ),
        decreases source.content().len() - source.cursor(),
    {
        match source.getch()? {
            None => {
                return Err(PdfError::EndOfFile);
            },
            Some(c) => {
                if c == LINE_FEED {
                    return Ok(());
                }
            },
        }
    }
}

/// The data of a stream: `length` bytes from `data` on, which the keyword
/// `endstream` follows, with the filters of `dict` undone.
pub open spec fn stream_data(
    s: Seq<u8>,
    data: nat,
    dict: Map<PdfName, ObjectView>,
) -> Result<Seq<u8>, PdfError> {
    match integer_in(dict, PdfName::Length) {
        None => Err(PdfError::InvalidPdf("Length missing from stream dictionary")),
        Some(written) => {
            let length = (written as u32) as nat;
            let bytes = readable(s, data, length);
            if bytes.len() != length {
                Err(PdfError::InternalError("failed to read stream"))
            } else {
                match keyword_needed(s, data + length, PdfKeyword::endstream) {
                    Err(e) => Err(e),
                    Ok(_) => stream_decoded(bytes, dict),
                }
            }
        },
    }
}

/// The decoded data of the stream that `r` refers to.  The data starts
/// behind the first line feed after the keyword `stream`; its length is the
/// `Length` of the stream dictionary, which is resolved first.
#[verifier::opaque]
pub open spec fn stream_at(s: Seq<u8>, xref: Seq<XRefEntry>, r: Reference) -> Result<
    Seq<u8>,
    PdfError,
> {
    match target_of(xref, r) {
        Err(e) => Err(e),
        Ok(position) => match prefix_at(s, position as nat, r) {
            Err(e) => Err(e),
            Ok((dict, end)) => match keyword_needed(s, end, PdfKeyword::stream) {
                Err(e) => Err(e),
                Ok(behind) => match line_end(s, behind) {
                    None => Err(PdfError::EndOfFile),
                    Some(data) => match resolved(
                        s,
                        xref,
                        ObjectView::Dictionary(dict),
                        RESOLVE_DEPTH as nat,
                    ) {
                        Err(e) => Err(e),
                        Ok(ObjectView::Dictionary(full)) => stream_data(s, data, full),
                        Ok(_) => Err(
                            PdfError::InternalError(
                                "unexpected result from dereference_dictionary",
                            ),
                        ),
                    },
                },
            },
        },
    }
}

/// Resolves the values of a stream dictionary.
pub fn dereference_dictionary<S: Source>(
    source: &mut S,
    xref: &Vec<XRefEntry>,
    dictionary: Dictionary,
) -> (r: Result<Dictionary, PdfError>)
    ensures
        final(source).content() == old(source).content(),
        match resolved(
            old(source).content(),
            xref@,
            ObjectView::Dictionary(dictionary@),
            RESOLVE_DEPTH as nat,
        ) {
            Ok(ObjectView::Dictionary(full)) => r matches Ok(dict) && dict@ == full,
            Ok(_) => r == Err::<Dictionary, PdfError>(
                PdfError::InternalError("unexpected result from dereference_dictionary"),
            ),
            Err(e) => r == Err::<Dictionary, PdfError>(e),
        },
{
    match dereference(source, xref, &PdfObject::Dictionary(dictionary), RESOLVE_DEPTH)? {
        PdfObject::Dictionary(dictionary) => Ok(dictionary),
        _ => Err(PdfError::InternalError("unexpected result from dereference_dictionary")),
    }
}

/// Reads and decodes the data of a stream whose data starts at the cursor.
pub fn read_stream_data<S: Source>(source: &mut S, stream_dict: Dictionary) -> (r: Result<
    Vec<u8>,
    PdfError,
>)
    ensures
        final(source).content() == old(source).content(),
        match stream_data(old(source).content(), old(source).cursor(), stream_dict@) {
            Ok(bytes) => r matches Ok(out) && out@ == bytes,
            Err(e) => r == Err::<Vec<u8>, PdfError>(e),
        },
{
    let length = match stream_dict.get_u32(PdfName::Length) {
        Some(length) => length as usize,
        None => {
            return Err(PdfError::InvalidPdf("Length missing from stream dictionary"));
        },
    };
    let buffer = source.read(length);
    if buffer.len() != length {
        return Err(PdfError::InternalError("failed to read stream"));
    }
    need_keyword(source, PdfKeyword::endstream)?;
    decode_stream(buffer, stream_dict)
}

/// Reads the stream that `reference` refers to and undoes its filters.
pub fn read_stream<S: Source>(source: &mut S, xref: &Vec<XRefEntry>, reference: Reference) -> (r:
    Result<Vec<u8>, PdfError>)
    ensures
        final(source).content() == old(source).content(),
        match stream_at(old(source).content(), xref@, reference) {
            Ok(bytes) => r matches Ok(out) && out@ == bytes,
            Err(e) => r == Err::<Vec<u8>, PdfError>(e),
        },
{
    reveal(stream_at);
    seek_reference(source, xref, reference)?;
    let stream_dict = read_prefix(source, reference)?;
    need_keyword(source, PdfKeyword::stream)?;
    skip_line(source)?;
    proof {
        source.bounds();
    }
    let pos = source.seek(SeekFrom::Current(0))?;
    let stream_dict = dereference_dictionary(source, xref, stream_dict)?;
    source.seek(SeekFrom::Start(pos))?;
    read_stream_data(source, stream_dict)
}

/// The decoded data of the streams that an array of references names, one
/// behind the other.
pub open spec fn streams_at(s: Seq<u8>, xref: Seq<XRefEntry>, items: Seq<ObjectView>) -> Result<
    Seq<u8>,
    PdfError,
>
    decreases items.len(),
{
    if items.len() == 0 {
        Ok(Seq::empty())
    } else {
        match items[0] {
            ObjectView::Reference(r) => match stream_at(s, xref, r) {
                Err(e) => Err(e),
                Ok(first) => match streams_at(s, xref, items.drop_first()) {
                    Err(e) => Err(e),
                    Ok(rest) => Ok(first + rest),
                },
            },
            _ => Err(PdfError::InvalidPdf("invalid page contents")),
        }
    }
}

/// Reads the streams that an array names and joins their decoded data.
pub fn read_streams<S: Source>(source: &mut S, xref: &Vec<XRefEntry>, streams: &Array) -> (r:
    Result<Vec<u8>, PdfError>)
    ensures
        final(source).content() == old(source).content(),
        match streams_at(old(source).content(), xref@, array_view(streams@)) {
            Ok(bytes) => r matches Ok(out) && out@ == bytes,
            Err(e) => r == Err::<Vec<u8>, PdfError>(e),
        },
{
    let ghost s = source.content();
    let ghost views = array_view(streams@);
    let ghost whole = streams_at(s, xref@, views);
    let mut out: Vec<u8> = Vec::new();
    let mut i: usize = 0;
    proof {
        assert(views.subrange(0, views.len() as int) =~= views);
        if whole is Ok {
            assert(Seq::<u8>::empty() + whole->Ok_0 =~= whole->Ok_0);
        }
    }
    while i < streams.len()
        invariant
            source.content() == s,
            s == old(source).content(),
            i <= streams@.len(),
            views == array_view(streams@),
            whole == streams_at(s, xref@, views),
            match streams_at(s, xref@, views.subrange(i as int, views.len() as int)) {
                Ok(rest) => whole == Ok::<Seq<u8>, PdfError>(out@ + rest),
                Err(e) => whole == Err::<Seq<u8>, PdfError>(e),
            },
        decreases streams@.len() - i,
    {
        let ghost left = views.subrange(i as int, views.len() as int);
        let ghost before = out@;
        proof {
            assert(left.drop_first() =~= views.subrange(i + 1, views.len() as int));
            assert(left[0] == streams@[i as int]@);
        }
        match &streams[i] {
            PdfObject::Reference(r) => {
                let mut data = match read_stream(source, xref, *r) {
                    Ok(data) => data,
                    Err(e) => {
                        return Err(e);
                    },
                };
                let ghost added = data@;
                out.append(&mut data);
                proof {
                    match streams_at(s, xref@, left.drop_first()) {
                        Ok(rest) => {
                            assert(before + (added + rest) =~= (before + added) + rest);
                        },
                        Err(e) => {},
                    }
                }
            },
            _ => {
                return Err(PdfError::InvalidPdf("invalid page contents"));
            },
        }
        i = i + 1;
    }
    proof {
        assert(views.subrange(i as int, views.len() as int) =~= Seq::empty());
        assert(out@ + Seq::<u8>::empty() =~= out@);
    }
    Ok(out)
}

/// The decoded content of a page: of the stream that `Contents` refers to,
/// or of the streams of an array of references, joined in their order.
pub open spec fn contents_of(s: Seq<u8>, xref: Seq<XRefEntry>, page: Map<PdfName, ObjectView>) -> Result<
    Seq<u8>,
    PdfError,
> {
    match lookup(page, PdfName::Contents) {
        Some(ObjectView::Reference(r)) => stream_at(s, xref, r),
        Some(ObjectView::Array(items)) => streams_at(s, xref, items),
        _ => Err(PdfError::InvalidPdf("invalid page contents")),
    }
}

/// Reads the decoded content of a page.
pub fn contents<S: Source>(source: &mut S, xref: &Vec<XRefEntry>, page_dict: &Dictionary) -> (r:
    Result<Vec<u8>, PdfError>)
    ensures
        final(source).content() == old(source).content(),
        match contents_of(old(source).content(), xref@, page_dict@) {
            Ok(bytes) => r matches Ok(out) && out@ == bytes,
            Err(e) => r == Err::<Vec<u8>, PdfError>(e),
        },
{
    match page_dict.get(PdfName::Contents) {
        Some(PdfObject::Reference(reference)) => read_stream(source, xref, *reference),
        Some(PdfObject::Array(array)) => {
            proof {
                lemma_array_view(*array);
            }
            read_streams(source, xref, array)
        },
        _ => Err(PdfError::InvalidPdf("invalid page contents")),
    }
}

/// What a file holds: its cross-reference table and the dictionaries of
/// its pages, in the order of the page tree.
pub struct DocumentView {
    pub xref: Seq<XRefEntry>,
    pub pages: Seq<Map<PdfName, ObjectView>>,
}

/// The table and the pages that the trailer dictionary `trailer` and the
/// offset `startxref` lead to.
pub open spec fn document_from_trailer(
    s: Seq<u8>,
    trailer: Map<PdfName, ObjectView>,
    startxref: u64,
) -> Result<DocumentView, PdfError> {
    match integer_in(trailer, PdfName::Size) {
        None => Err(PdfError::InvalidPdf("Size missing in trailer")),
        Some(size) => match xref_at(s, startxref as nat, size as u32) {
            Err(e) => Err(e),
            Ok((xref, _)) => match reference_in(trailer, PdfName::Root) {
                None => Err(PdfError::InvalidPdf("Root missing from trailer")),
                Some(root) => match dictionary_of_reference(s, xref, root) {
                    Err(e) => Err(e),
                    Ok(catalog) => match reference_in(catalog, PdfName::Pages) {
                        None => Err(PdfError::InvalidPdf("document page tree missing")),
                        Some(top) => match dictionary_of_reference(s, xref, top) {
                            Err(e) => Err(e),
                            Ok(node) => match pages_of(s, xref, node, PAGE_TREE_DEPTH as nat) {
                                Err(e) => Err(e),
                                Ok(pages) => Ok(DocumentView { xref, pages }),
                            },
                        },
                    },
                },
            },
        },
    }
}

/// What the bytes of a file hold, or why they are no document.
pub open spec fn document_of(s: Seq<u8>) -> Result<DocumentView, PdfError> {
    if !has_header(s) {
        Err(PdfError::InvalidPdf("bad pdf header"))
    } else {
        let start = tail_start(s.len());
        match trailer_found(start as u64, s.subrange(start as int, s.len() as int)) {
            Err(e) => Err(e),
            Ok(position) => match trailer_read(s, position as nat) {
                Err(e) => Err(e),
                Ok((trailer, startxref, _)) => document_from_trailer(s, trailer, startxref),
            },
        }
    }
}

/// An open document: the source, the cross-reference table and the pages.
pub struct PdfDocument<S: Source> {
    source: S,
    xref: Vec<XRefEntry>,
    pages: Vec<Dictionary>,
}

impl<S: Source> PdfDocument<S> {
    /// The bytes of the file.
    pub closed spec fn content(&self) -> Seq<u8> {
        self.source.content()
    }

    /// The cross-reference table.
    pub closed spec fn table(&self) -> Seq<XRefEntry> {
        self.xref@
    }

    /// The dictionaries of the pages.
    pub closed spec fn page_views(&self) -> Seq<Map<PdfName, ObjectView>> {
        dictionaries_view(self.pages@)
    }

    /// Opens the document that `source` holds.
    pub fn new(source: S) -> (r: Result<PdfDocument<S>, PdfError>)
        ensures
            match document_of(source.content()) {
                Ok(view) => r matches Ok(document) && document.content() == source.content()
                    && document.table() == view.xref && document.page_views() == view.pages,
                Err(e) => r == Err::<PdfDocument<S>, PdfError>(e),
            },
    {
        let mut source = source;
        proof {
            source.bounds();
        }
        validate_pdf(&mut source)?;
        let (position, buffer) = read_tail(&mut source)?;
        let trailer_position = find_trailer(position, buffer.as_slice())?;
        source.seek(SeekFrom::Start(trailer_position))?;
        let (trailer_dict, startxref) = read_trailer(&mut source)?;
        source.seek(SeekFrom::Start(startxref))?;
        let size = match trailer_dict.get_u32(PdfName::Size) {
            Some(size) => size,
            None => {
                return Err(PdfError::InvalidPdf("Size missing in trailer"));
            },
        };
        let xref = read_xref(&mut source, size)?;
        let catalog_ref = match trailer_dict.get_reference(PdfName::Root) {
            Some(r) => r,
            None => {
                return Err(PdfError::InvalidPdf("Root missing from trailer"));
            },
        };
        let catalog = fetch_dictionary(&mut source, &xref, catalog_ref)?;
        let page_root_ref = match catalog.get_reference(PdfName::Pages) {
            Some(r) => r,
            None => {
                return Err(PdfError::InvalidPdf("document page tree missing"));
            },
        };
        let page_root = fetch_dictionary(&mut source, &xref, page_root_ref)?;
        let pages = read_pages(&mut source, &xref, &page_root, PAGE_TREE_DEPTH)?;
        Ok(PdfDocument { source, xref, pages })
    }

    /// The number of pages.
    pub fn page_count(&self) -> (n: u32)
        ensures
            n == self.page_views().len() as u32,
    {
        #[verifier::truncate]
        (self.pages.len() as u32)
    }

    /// The number of slots of the cross-reference table.
    pub fn xref_len(&self) -> (n: usize)
        ensures
            n == self.table().len(),
    {
        self.xref.len()
    }

    /// Slot `id` of the cross-reference table.
    pub fn xref_entry(&self, id: usize) -> (entry: Option<XRefEntry>)
        ensures
            entry == (if id < self.table().len() {
                Some(self.table()[id as int])
            } else {
                None
            }),
    {
        if id < self.xref.len() {
            Some(self.xref[id])
        } else {
            None
        }
    }

    /// The decoded content of page `pageno`, ready to be read object by object.
    pub fn page_contents(&mut self, pageno: u32) -> (r: Result<PageContents, PdfError>)
        ensures
            final(self).content() == old(self).content(),
            final(self).table() == old(self).table(),
            final(self).page_views() == old(self).page_views(),
            pageno >= old(self).page_views().len() ==> r == Err::<PageContents, PdfError>(
                PdfError::InvalidPageNumber,
            ),
            pageno < old(self).page_views().len() ==> match contents_of(
                old(self).content(),
                old(self).table(),
                old(self).page_views()[pageno as int],
            ) {
                Ok(bytes) => r matches Ok(page) && page.content() == bytes && page.cursor() == 0,
                Err(e) => r == Err::<PageContents, PdfError>(e),
            },
    {
        if (pageno as usize) < self.pages.len() {
            let bytes = contents(&mut self.source, &self.xref, &self.pages[pageno as usize])?;
            Ok(PageContents::new(bytes))
        } else {
            Err(PdfError::InvalidPageNumber)
        }
    }

    /// Reads the stream that `reference` refers to and undoes its filters.
    pub fn read_stream(&mut self, reference: Reference) -> (r: Result<Vec<u8>, PdfError>)
        ensures
            final(self).content() == old(self).content(),
            final(self).table() == old(self).table(),
            final(self).page_views() == old(self).page_views(),
            match stream_at(old(self).content(), old(self).table(), reference) {
                Ok(bytes) => r matches Ok(out) && out@ == bytes,
                Err(e) => r == Err::<Vec<u8>, PdfError>(e),
            },
    {
        read_stream(&mut self.source, &self.xref, reference)
    }
}

} // verus!

//! The objects of a page's content stream, one after the other.

use vstd::prelude::*;
use crate::errors::PdfError;
use crate::next_object::{lemma_object_advances, next_object, object_at, object_view};
use crate::pdf_source::{ByteSource, Source};
use crate::pdf_types::{array_view, ObjectView, PdfObject};

verus! {

/// The decoded content of a page, read object by object.
pub struct PageContents {
    source: ByteSource,
}

/// The objects read from `pos` on until the first `None`.
pub open spec fn objects_from(s: Seq<u8>, pos: nat) -> Result<Seq<ObjectView>, PdfError>
    decreases s.len() - pos,
{
    match object_at(s, pos) {
        Err(e) => Err(e),
        Ok((None, _)) => Ok(Seq::empty()),
        Ok((Some(object), end)) => {
            // An object takes at least one byte, so the condition always holds.
            if pos < end <= s.len() {
                match objects_from(s, end) {
                    Err(e) => Err(e),
                    Ok(rest) => Ok(seq![object] + rest),
                }
            } else {
                Ok(seq![object])
            }
        },
    }
}

/// The objects of a content stream are fewer than its bytes: each takes
/// at least one byte, so reading them comes to an end.
pub proof fn lemma_objects_finite(s: Seq<u8>, pos: nat)
    ensures
        objects_from(s, pos) matches Ok(objects) ==> pos + objects.len() <= s.len() || objects.len()
            == 0,
    decreases s.len() - pos,
{
    lemma_object_advances(s, pos);
    match object_at(s, pos) {
        Ok((Some(object), end)) => {
            lemma_objects_finite(s, end);
        },
        _ => {},
    }
}

impl PageContents {
    /// The bytes of the content stream.
    pub closed spec fn content(&self) -> Seq<u8> {
        self.source.content()
    }

    /// How far the content has been read.
    pub closed spec fn cursor(&self) -> nat {
        self.source.cursor()
    }

    /// The contents of a page, before anything is read.
    pub fn new(contents: Vec<u8>) -> (page: PageContents)
        ensures
            page.content() == contents@,
            page.cursor() == 0,
    {
        PageContents { source: ByteSource::new(contents) }
    }

    /// Reads the next object.  An object that is read moves the cursor
    /// forward, so after at most as many objects as there are bytes the
    /// answer is `None` or a failure.
    pub fn next_object(&mut self) -> (r: Result<Option<PdfObject>, PdfError>)
        ensures
            final(self).content() == old(self).content(),
            match object_at(old(self).content(), old(self).cursor()) {
                Ok((found, end)) => r matches Ok(object) && object_view(object) == found && final(
                    self
                ).cursor() == end,
                Err(e) => r == Err::<Option<PdfObject>, PdfError>(e),
            },
            r matches Ok(Some(_)) ==> old(self).cursor() < final(self).cursor() <= old(
                self
            ).content().len(),
            r is Ok ==> old(self).cursor() <= final(self).cursor(),
    {
        proof {
            lemma_object_advances(self.source.content(), self.source.cursor());
        }
        next_object(&mut self.source)
    }

    /// Reads all the objects that are left, up to the first `None`.
    pub fn objects(&mut self) -> (r: Result<Vec<PdfObject>, PdfError>)
        ensures
            final(self).content() == old(self).content(),
            match objects_from(old(self).content(), old(self).cursor()) {
                Ok(views) => r matches Ok(list) && array_view(list@) == views,
                Err(e) => r == Err::<Vec<PdfObject>, PdfError>(e),
            },
    {
        let ghost s = self.source.content();
        let ghost whole = objects_from(s, self.source.cursor());
        let mut list: Vec<PdfObject> = Vec::new();
        assert(array_view(list@) =~= Seq::empty());
        loop
            invariant
                self.source.content() == s,
                s == old(self).content(),
                whole == objects_from(s, old(self).cursor()),
                match objects_from(s, self.source.cursor()) {
                    Ok(rest) => whole == Ok::<Seq<ObjectView>, PdfError>(array_view(list@) + rest),
                    Err(e) => whole == Err::<Seq<ObjectView>, PdfError>(e),
                },
            decreases s.len() - self.source.cursor(),
        {
            proof {
                lemma_object_advances(s, self.source.cursor());
            }
            let ghost before = list@;
            match next_object(&mut self.source)? {
                None => {
                    assert(array_view(list@) + Seq::<ObjectView>::empty() =~= array_view(list@));
                    return Ok(list);
                },
                Some(object) => {
                    list.push(object);
                    proof {
                        assert(array_view(list@) =~= array_view(before).push(object@));
                        match objects_from(s, self.source.cursor()) {
                            Ok(rest) => {
                                assert(array_view(before) + (seq![object@] + rest) =~= array_view(
                                    list@,
                                ) + rest);
                            },
                            Err(e) => {},
                        }
                    }
                },
            }
        }
    }
}

} // verus!

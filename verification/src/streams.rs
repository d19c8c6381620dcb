//! Decoding of stream data by the filters that the stream dictionary names.

use vstd::prelude::*;
use crate::dictionary::lookup;
use crate::errors::PdfError;
use crate::names::PdfName;
use crate::pdf_types::{copy_dictionary, Dictionary, ObjectView, PdfObject};

verus! {

/// What `inflate::inflate_bytes_zlib` returns for given bytes: the
/// decompressed bytes, or the text with which it turns the bytes down.
pub uninterp spec fn inflated(data: Seq<u8>) -> Result<Seq<u8>, String>;

/// Calls `inflate::inflate_bytes_zlib`, which decompresses data in the zlib
/// format and checks its checksum; for data that it cannot decompress it
/// returns a text that says why.  The contract is taken on trust.  It claims
/// no more than that the result depends on the bytes alone: the same bytes
/// give the same data, or the same text.
#[verifier::external_body]
fn inflate_zlib(data: &[u8]) -> (r: Result<Vec<u8>, String>)
    ensures
        match r {
            Ok(bytes) => inflated(data@) == Ok::<Seq<u8>, String>(bytes@),
            Err(message) => inflated(data@) == Err::<Seq<u8>, String>(message),
        },
{
    inflate::inflate_bytes_zlib(data)
}

/// One step of a filter chain.
pub struct Filter {
    pub name: PdfName,
    pub decode_parms: Option<Dictionary>,
}

/// The names of an array of filters, or the failure for an element that is no name.
pub open spec fn names_of(items: Seq<ObjectView>) -> Result<Seq<PdfName>, PdfError> {
    if forall|i: int| 0 <= i < items.len() ==> (#[trigger] items[i]) is Name {
        Ok(Seq::new(items.len(), |i: int| items[i]->Name_0))
    } else {
        Err(PdfError::InvalidPdf("name expected"))
    }
}

/// The names of an array of filters that comes with an array of parameters.
/// The two are read side by side as far as the shorter one reaches: each
/// filter must be a name and each parameter a dictionary.
pub open spec fn paired_names(items: Seq<ObjectView>, parms: Seq<ObjectView>) -> Result<
    Seq<PdfName>,
    PdfError,
> {
    let n = if items.len() < parms.len() {
        items.len()
    } else {
        parms.len()
    };
    if forall|i: int| 0 <= i < n ==> (#[trigger] items[i]) is Name && parms[i] is Dictionary {
        Ok(Seq::new(n, |i: int| items[i]->Name_0))
    } else {
        Err(PdfError::InvalidPdf("name/dictionary expected"))
    }
}

/// The filters that a stream dictionary asks for, in the order in which
/// they are applied.  `Filter` is absent, a name, or an array of names, and
/// `DecodeParms` is absent or of the same shape.
pub open spec fn filter_chain(dict: Map<PdfName, ObjectView>) -> Result<Seq<PdfName>, PdfError> {
    match (lookup(dict, PdfName::Filter), lookup(dict, PdfName::DecodeParms)) {
        (Some(ObjectView::Name(name)), None) => Ok(seq![name]),
        (Some(ObjectView::Name(name)), Some(ObjectView::Dictionary(_))) => Ok(seq![name]),
        (Some(ObjectView::Array(items)), None) => names_of(items),
        (Some(ObjectView::Array(items)), Some(ObjectView::Array(parms))) => paired_names(
            items,
            parms,
        ),
        (None, None) => Ok(Seq::empty()),
        _ => Err(PdfError::InvalidPdf("invalid stream dictionary")),
    }
}

/// The parameters that go with the filters of `filter_chain`, one for each
/// filter; `None` where the dictionary gives none.
pub open spec fn filter_parms(dict: Map<PdfName, ObjectView>) -> Seq<
    Option<Map<PdfName, ObjectView>>,
> {
    match (lookup(dict, PdfName::Filter), lookup(dict, PdfName::DecodeParms)) {
        (Some(ObjectView::Name(_)), None) => seq![None],
        (Some(ObjectView::Name(_)), Some(ObjectView::Dictionary(parms))) => seq![Some(parms)],
        (Some(ObjectView::Array(items)), None) => Seq::new(items.len(), |i: int| None),
        (Some(ObjectView::Array(items)), Some(ObjectView::Array(parms))) => paired_parms(
            items,
            parms,
        ),
        _ => Seq::empty(),
    }
}

/// The parameters of an array of filters that comes with an array of parameters.
pub open spec fn paired_parms(items: Seq<ObjectView>, parms: Seq<ObjectView>) -> Seq<
    Option<Map<PdfName, ObjectView>>,
> {
    let n = if items.len() < parms.len() {
        items.len()
    } else {
        parms.len()
    };
    Seq::new(n, |i: int| Some(parms[i]->Dictionary_0))
}

/// What one filter makes of the data.  Only `FlateDecode` is provided; the
/// other filters of the PDF format are known and turned down by name.
pub open spec fn filtered(name: PdfName, data: Seq<u8>) -> Result<Seq<u8>, PdfError> {
    match name {
        PdfName::FlateDecode => match inflated(data) {
            Ok(bytes) => Ok(bytes),
            Err(message) => Err(PdfError::DecompressionError(message)),
        },
        PdfName::ASCIIHexDecode => Err(
            PdfError::InternalError("ASCIIHexDecode filter not implemented"),
        ),
        PdfName::ASCII85Decode => Err(
            PdfError::InternalError("ASCII85Decode filter not implemented"),
        ),
        PdfName::LZWDecode => Err(PdfError::InternalError("LZWDecode filter not implemented")),
        PdfName::RunLengthDecode => Err(
            PdfError::InternalError("RunLengthDecode filter not implemented"),
        ),
        PdfName::CCITTFaxDecode => Err(
            PdfError::InternalError("CCITTFaxDecode filter not implemented"),
        ),
        PdfName::JBIG2Decode => Err(PdfError::InternalError("JBIG2Decode filter not implemented")),
        PdfName::DCTDecode => Err(PdfError::InternalError("DCTDecode filter not implemented")),
        PdfName::Crypt => Err(PdfError::InternalError("Crypt filter not implemented")),
        _ => Err(PdfError::InvalidPdf("unknown filter")),
    }
}

/// What a chain of filters makes of the data, applied from the first to the last.
pub open spec fn decoded(data: Seq<u8>, chain: Seq<PdfName>) -> Result<Seq<u8>, PdfError>
    decreases chain.len(),
{
    if chain.len() == 0 {
        Ok(data)
    } else {
        match filtered(chain[0], data) {
            Err(e) => Err(e),
            Ok(next) => decoded(next, chain.drop_first()),
        }
    }
}

/// What a stream holds once the filters of its dictionary are undone.
pub open spec fn stream_decoded(data: Seq<u8>, dict: Map<PdfName, ObjectView>) -> Result<
    Seq<u8>,
    PdfError,
> {
    match filter_chain(dict) {
        Err(e) => Err(e),
        Ok(chain) => decoded(data, chain),
    }
}

/// The outcome of `FlateDecode`, given what decompression returned.
pub fn inflate_outcome(result: Result<Vec<u8>, String>) -> (r: Result<Vec<u8>, PdfError>)
    ensures
        match result {
            Ok(bytes) => r == Ok::<Vec<u8>, PdfError>(bytes),
            Err(message) => r == Err::<Vec<u8>, PdfError>(PdfError::DecompressionError(message)),
        },
{
    match result {
        Ok(bytes) => Ok(bytes),
        Err(message) => Err(PdfError::DecompressionError(message)),
    }
}

/// Applies one filter.
pub fn apply_filter(name: PdfName, data: Vec<u8>) -> (r: Result<Vec<u8>, PdfError>)
    ensures
        match filtered(name, data@) {
            Ok(bytes) => r matches Ok(out) && out@ == bytes,
            Err(e) => r == Err::<Vec<u8>, PdfError>(e),
        },
{
    match name {
        PdfName::FlateDecode => inflate_outcome(inflate_zlib(data.as_slice())),
        PdfName::ASCIIHexDecode => Err(
            PdfError::InternalError("ASCIIHexDecode filter not implemented"),
        ),
        PdfName::ASCII85Decode => Err(
            PdfError::InternalError("ASCII85Decode filter not implemented"),
        ),
        PdfName::LZWDecode => Err(PdfError::InternalError("LZWDecode filter not implemented")),
        PdfName::RunLengthDecode => Err(
            PdfError::InternalError("RunLengthDecode filter not implemented"),
        ),
        PdfName::CCITTFaxDecode => Err(
            PdfError::InternalError("CCITTFaxDecode filter not implemented"),
        ),
        PdfName::JBIG2Decode => Err(PdfError::InternalError("JBIG2Decode filter not implemented")),
        PdfName::DCTDecode => Err(PdfError::InternalError("DCTDecode filter not implemented")),
        PdfName::Crypt => Err(PdfError::InternalError("Crypt filter not implemented")),
        _ => Err(PdfError::InvalidPdf("unknown filter")),
    }
}

/// The names of the filters in a list.
pub open spec fn chain_of(filters: Seq<Filter>) -> Seq<PdfName> {
    Seq::new(filters.len(), |i: int| filters[i].name)
}

/// The parameters of the filters in a list.
pub open spec fn parms_of(filters: Seq<Filter>) -> Seq<Option<Map<PdfName, ObjectView>>> {
    Seq::new(
        filters.len(),
        |i: int|
            match filters[i].decode_parms {
                Some(parms) => Some(parms@),
                None => None,
            },
    )
}

/// The filters of an array of names.
fn filters_of_names(items: Vec<PdfObject>) -> (r: Result<Vec<Filter>, PdfError>)
    ensures
        match names_of(crate::pdf_types::array_view(items@)) {
            Ok(chain) => r matches Ok(list) && chain_of(list@) == chain && parms_of(list@)
                == Seq::new(items@.len(), |i: int| None::<Map<PdfName, ObjectView>>),
            Err(e) => r == Err::<Vec<Filter>, PdfError>(e),
        },
{
    let ghost views = crate::pdf_types::array_view(items@);
    let mut list: Vec<Filter> = Vec::new();
    let mut i: usize = 0;
    while i < items.len()
        invariant
            i <= items@.len(),
            views == crate::pdf_types::array_view(items@),
            list@.len() == i,
            forall|j: int| 0 <= j < i ==> (#[trigger] views[j]) is Name && list@[j].name
                == views[j]->Name_0 && list@[j].decode_parms is None,
        decreases items@.len() - i,
    {
        match &items[i] {
            PdfObject::Name(name) => {
                list.push(Filter { name: *name, decode_parms: None });
            },
            _ => {
                assert(!(views[i as int] is Name));
                return Err(PdfError::InvalidPdf("name expected"));
            },
        }
        i = i + 1;
    }
    assert(chain_of(list@) =~= names_of(views)->Ok_0);
    assert forall|j: int| 0 <= j < list@.len() implies parms_of(list@)[j] is None by {
        assert(views[j] is Name);
    }
    assert(parms_of(list@) =~= Seq::new(items@.len(), |i: int| None::<Map<PdfName, ObjectView>>));
    Ok(list)
}

/// The filters of an array of names with its array of parameters.
fn filters_of_pairs(items: Vec<PdfObject>, parms: Vec<PdfObject>) -> (r: Result<
    Vec<Filter>,
    PdfError,
>)
    ensures
        match paired_names(
            crate::pdf_types::array_view(items@),
            crate::pdf_types::array_view(parms@),
        ) {
            Ok(chain) => r matches Ok(list) && chain_of(list@) == chain && parms_of(list@)
                == paired_parms(
                crate::pdf_types::array_view(items@),
                crate::pdf_types::array_view(parms@),
            ),
            Err(e) => r == Err::<Vec<Filter>, PdfError>(e),
        },
{
    let ghost views = crate::pdf_types::array_view(items@);
    let ghost others = crate::pdf_types::array_view(parms@);
    let n = if items.len() < parms.len() {
        items.len()
    } else {
        parms.len()
    };
    let mut list: Vec<Filter> = Vec::new();
    let mut i: usize = 0;
    while i < n
        invariant
            i <= n,
            n <= items@.len(),
            n <= parms@.len(),
            views == crate::pdf_types::array_view(items@),
            others == crate::pdf_types::array_view(parms@),
            list@.len() == i,
            forall|j: int| 0 <= j < i ==> (#[trigger] views[j]) is Name && others[j] is Dictionary
                && list@[j].name == views[j]->Name_0 && list@[j].decode_parms is Some
                && list@[j].decode_parms->Some_0@ == others[j]->Dictionary_0,
        decreases n - i,
    {
        match &items[i] {
            PdfObject::Name(name) => match &parms[i] {
                PdfObject::Dictionary(dict) => {
                    list.push(Filter { name: *name, decode_parms: Some(copy_dictionary(dict)) });
                },
                _ => {
                    assert(!(views[i as int] is Name && others[i as int] is Dictionary));
                    return Err(PdfError::InvalidPdf("name/dictionary expected"));
                },
            },
            _ => {
                assert(!(views[i as int] is Name && others[i as int] is Dictionary));
                return Err(PdfError::InvalidPdf("name/dictionary expected"));
            },
        }
        i = i + 1;
    }
    assert(chain_of(list@) =~= paired_names(views, others)->Ok_0);
    assert forall|j: int| 0 <= j < list@.len() implies parms_of(list@)[j] == Some(
        others[j]->Dictionary_0,
    ) by {
        assert(views[j] is Name);
    }
    assert(parms_of(list@) =~= paired_parms(views, others));
    Ok(list)
}

/// Reads the filters out of a stream dictionary, each with its parameters.
pub fn filters(stream_dict: Dictionary) -> (r: Result<Vec<Filter>, PdfError>)
    ensures
        match filter_chain(stream_dict@) {
            Ok(chain) => r matches Ok(list) && chain_of(list@) == chain && parms_of(list@)
                == filter_parms(stream_dict@),
            Err(e) => r == Err::<Vec<Filter>, PdfError>(e),
        },
{
    let mut dict = stream_dict;
    let filter = dict.remove(PdfName::Filter);
    let parms = dict.remove(PdfName::DecodeParms);
    match filter {
        Some(PdfObject::Name(name)) => match parms {
            None => {
                let mut list: Vec<Filter> = Vec::new();
                list.push(Filter { name, decode_parms: None });
                assert(chain_of(list@) =~= seq![name]);
                assert(parms_of(list@) =~= seq![None::<Map<PdfName, ObjectView>>]);
                Ok(list)
            },
            Some(PdfObject::Dictionary(dp)) => {
                let mut list: Vec<Filter> = Vec::new();
                list.push(Filter { name, decode_parms: Some(dp) });
                assert(chain_of(list@) =~= seq![name]);
                assert(parms_of(list@) =~= seq![Some(dp@)]);
                Ok(list)
            },
            _ => Err(PdfError::InvalidPdf("invalid stream dictionary")),
        },
        Some(PdfObject::Array(items)) => {
            proof {
                crate::pdf_types::lemma_array_view(items);
            }
            match parms {
                None => filters_of_names(items),
                Some(PdfObject::Array(others)) => {
                    proof {
                        crate::pdf_types::lemma_array_view(others);
                    }
                    filters_of_pairs(items, others)
                },
                _ => Err(PdfError::InvalidPdf("invalid stream dictionary")),
            }
        },
        None => match parms {
            None => {
                let list: Vec<Filter> = Vec::new();
                assert(chain_of(list@) =~= Seq::<PdfName>::empty());
                assert(parms_of(list@) =~= Seq::empty());
                Ok(list)
            },
            _ => Err(PdfError::InvalidPdf("invalid stream dictionary")),
        },
        _ => Err(PdfError::InvalidPdf("invalid stream dictionary")),
    }
}

/// Undoes the filters that `stream_dict` names, from the first to the last.
pub fn decode_stream(stream: Vec<u8>, stream_dict: Dictionary) -> (r: Result<Vec<u8>, PdfError>)
    ensures
        match stream_decoded(stream@, stream_dict@) {
            Ok(bytes) => r matches Ok(out) && out@ == bytes,
            Err(e) => r == Err::<Vec<u8>, PdfError>(e),
        },
{
    let list = filters(stream_dict)?;
    let ghost chain = chain_of(list@);
    let mut data = stream;
    let mut i: usize = 0;
    assert(chain.subrange(0, chain.len() as int) =~= chain);
    while i < list.len()
        invariant
            i <= list@.len(),
            chain == chain_of(list@),
            filter_chain(stream_dict@) == Ok::<Seq<PdfName>, PdfError>(chain),
            decoded(data@, chain.subrange(i as int, chain.len() as int)) == decoded(stream@, chain),
        decreases list@.len() - i,
    {
        let ghost rest = chain.subrange(i as int, chain.len() as int);
        assert(rest.drop_first() =~= chain.subrange(i + 1, chain.len() as int));
        assert(rest[0] == list@[i as int].name);
        data = apply_filter(list[i].name, data)?;
        i = i + 1;
    }
    Ok(data)
}

} // verus!

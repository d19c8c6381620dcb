use llpr::dictionary::Access;
use llpr::names::{PdfKeyword, PdfName};
use llpr::pdf_document::{
    contents, dereference, fetch_dictionary, fetch_object, find_trailer, read_object, read_pages,
    read_stream, read_tail, read_trailer, read_xref, read_xref_entry, seek_reference,
    validate_pdf, PdfDocument, XRefEntry, PAGE_TREE_DEPTH, RESOLVE_DEPTH,
};
use llpr::next_object::next_object;
use llpr::pdf_source::{ByteSliceSource, ByteSource, SeekFrom, Source};
use llpr::pdf_types::{Dictionary, PdfNumber, PdfObject, Reference, FREE_GEN};
use llpr::streams::{apply_filter, decode_stream, filters, inflate_outcome};
use llpr::PdfError;

const COMPRESSED: [u8; 39] = [120, 156, 115, 10, 81, 208, 119, 51, 84, 48, 52, 82, 8, 73, 83, 208, 112, 206, 207, 45, 40, 74, 45, 46, 78, 77, 209, 84, 8, 201, 82, 112, 13, 1, 0, 131, 8, 8, 215];

fn integer(i: i64) -> PdfObject {
    PdfObject::Number(PdfNumber::Integer(i))
}

/// A file with the given objects, numbered from 1, and object `root` as its catalog.
fn build_pdf(objects: &[Vec<u8>], root: usize) -> Vec<u8> {
    let mut file = b"%PDF-1.4\n".to_vec();
    let mut offsets = vec![];
    for (i, body) in objects.iter().enumerate() {
        offsets.push(file.len());
        file.extend_from_slice(format!("{} 0 obj\n", i + 1).as_bytes());
        file.extend_from_slice(body);
        file.extend_from_slice(b"\nendobj\n");
    }
    let start = file.len();
    file.extend_from_slice(format!("xref\n0 {}\n", objects.len() + 1).as_bytes());
    file.extend_from_slice(b"0000000000 65535 f \n");
    for offset in offsets {
        file.extend_from_slice(format!("{:010} 00000 n \n", offset).as_bytes());
    }
    file.extend_from_slice(
        format!(
            "trailer\n<< /Size {} /Root {} 0 R >>\nstartxref\n{}\n%%EOF\n",
            objects.len() + 1,
            root,
            start
        )
        .as_bytes(),
    );
    file
}

fn stream_object(dict: &str, data: &[u8]) -> Vec<u8> {
    let mut body = format!("<< {} >>\nstream\n", dict).into_bytes();
    body.extend_from_slice(data);
    body.extend_from_slice(b"\nendstream");
    body
}

/// Three pages in a tree of two levels, with contents of every kind.
fn three_pages() -> Vec<u8> {
    build_pdf(
        &[
            b"<< /Type /Catalog /Pages 2 0 R >>".to_vec(),
            b"<< /Type /Pages /Kids [ 3 0 R 4 0 R ] /Count 3 >>".to_vec(),
            b"<< /Type /Page /Parent 2 0 R /Contents 6 0 R >>".to_vec(),
            b"<< /Type /Pages /Parent 2 0 R /Kids [ 5 0 R 10 0 R ] /Count 2 >>".to_vec(),
            b"<< /Type /Page /Parent 4 0 R /Contents [ 7 0 R 6 0 R ] >>".to_vec(),
            stream_object("/Length 10", b"(first) Tj"),
            stream_object("/Length 8 0 R /Filter /FlateDecode", &COMPRESSED),
            format!("{}", COMPRESSED.len()).into_bytes(),
            stream_object("/Length 4 /Filter [ /LZWDecode ]", b"abcd"),
            b"<< /Type /Page /Parent 4 0 R /Contents 9 0 R >>".to_vec(),
        ],
        1,
    )
}

fn open(file: Vec<u8>) -> Result<PdfDocument<ByteSource>, PdfError> {
    PdfDocument::new(ByteSource::new(file))
}

fn failure(file: Vec<u8>) -> PdfError {
    match open(file) {
        Ok(_) => panic!("the file opened"),
        Err(e) => e,
    }
}

#[test]
fn pages_come_in_the_order_of_the_tree() {
    let mut pdf = open(three_pages()).unwrap();
    assert_eq!(pdf.page_count(), 3);
    assert_eq!(pdf.xref_len(), 11);
    assert_eq!(pdf.xref_entry(11), None);
    assert_eq!(pdf.xref_entry(0), Some(XRefEntry { gen: FREE_GEN, position: 0 }));
    assert_eq!(pdf.xref_entry(1), Some(XRefEntry { gen: 0, position: 9 }));

    let mut first = pdf.page_contents(0).unwrap();
    assert_eq!(first.next_object(), Ok(Some(PdfObject::String(b"first".to_vec()))));
    assert_eq!(first.next_object(), Ok(Some(PdfObject::Keyword(PdfKeyword::Tj))));
    assert_eq!(first.next_object(), Ok(None));

    // The streams of an array are joined in their order.
    let mut second = pdf.page_contents(1).unwrap();
    let objects = second.objects().unwrap();
    assert_eq!(
        objects,
        vec![
            PdfObject::Keyword(PdfKeyword::BT),
            PdfObject::Symbol(b"F1".to_vec()),
            integer(12),
            PdfObject::Keyword(PdfKeyword::Tf),
            PdfObject::String(b"Compressed".to_vec()),
            PdfObject::Keyword(PdfKeyword::Tj),
            PdfObject::Keyword(PdfKeyword::ET),
            PdfObject::String(b"first".to_vec()),
            PdfObject::Keyword(PdfKeyword::Tj),
        ]
    );

    assert_eq!(
        pdf.page_contents(2).err(),
        Some(PdfError::InternalError("LZWDecode filter not implemented"))
    );
    assert_eq!(pdf.page_contents(3).err(), Some(PdfError::InvalidPageNumber));
    assert_eq!(pdf.page_contents(u32::MAX).err(), Some(PdfError::InvalidPageNumber));
}

#[test]
fn streams_are_read_by_reference() {
    let mut pdf = open(three_pages()).unwrap();
    assert_eq!(pdf.read_stream(Reference::new(6, 0)), Ok(b"(first) Tj".to_vec()));
    assert_eq!(
        pdf.read_stream(Reference::new(7, 0)),
        Ok(b"BT /F1 12 Tf (Compressed) Tj ET".to_vec())
    );
    assert_eq!(pdf.read_stream(Reference::new(11, 0)), Err(PdfError::InvalidReference));
    assert_eq!(pdf.read_stream(Reference::new(0, 0)), Err(PdfError::InvalidReference));
    assert_eq!(
        pdf.read_stream(Reference::new(6, FREE_GEN)),
        Err(PdfError::InvalidReference)
    );
    assert_eq!(
        pdf.read_stream(Reference::new(6, 1)),
        Err(PdfError::InvalidReferenceTarget)
    );
    // Object 8 is a number and no stream.
    assert_eq!(
        pdf.read_stream(Reference::new(8, 0)),
        Err(PdfError::InvalidPdf("dictionary expected"))
    );
    // Object 1 is a dictionary that no stream follows.
    assert_eq!(
        pdf.read_stream(Reference::new(1, 0)),
        Err(PdfError::KeywordExpected(PdfKeyword::stream))
    );
}

#[test]
fn files_that_do_not_open() {
    assert_eq!(
        failure(b"%PDx-1.3\n% bad pdf header\n".to_vec()),
        PdfError::InvalidPdf("bad pdf header")
    );
    assert_eq!(failure(b"%PDF".to_vec()), PdfError::InvalidPdf("bad pdf header"));
    assert_eq!(failure(vec![]), PdfError::InvalidPdf("bad pdf header"));
    assert_eq!(
        failure(b"%PDF-1.4\n1 0 obj\nendobj\n".to_vec()),
        PdfError::InvalidPdf("no trailer")
    );
    assert_eq!(
        failure(b"%PDF-1.4\ntrailer\n[ 1 ]\nstartxref\n0\n".to_vec()),
        PdfError::InvalidPdf("invalid pdf trailer")
    );
    assert_eq!(
        failure(b"%PDF-1.4\ntrailer\n<< /Size 1 >>\nxref\n0\n".to_vec()),
        PdfError::KeywordExpected(PdfKeyword::startxref)
    );
    assert_eq!(
        failure(b"%PDF-1.4\ntrailer\n<< /Size 1 >>\nstartxref\n(text)\n".to_vec()),
        PdfError::InvalidPdf("invalid pdf trailer")
    );
    assert_eq!(
        failure(b"%PDF-1.4\nxref\n0 0\ntrailer\n<< /Root 1 0 R >>\nstartxref\n9\n".to_vec()),
        PdfError::InvalidPdf("Size missing in trailer")
    );
    assert_eq!(
        failure(b"%PDF-1.4\nxref\n0 0\ntrailer\n<< /Size 1 >>\nstartxref\n14\n".to_vec()),
        PdfError::KeywordExpected(PdfKeyword::xref)
    );
    assert_eq!(
        failure(b"%PDF-1.4\nxref\n0 0\ntrailer\n<< /Size 1 >>\nstartxref\n9\n".to_vec()),
        PdfError::InvalidPdf("Root missing from trailer")
    );
    assert_eq!(
        failure(b"%PDF-1.4\nxref\n0 1\n0 0 x\ntrailer\n<< /Size 1 >>\nstartxref\n9\n".to_vec()),
        PdfError::InvalidPdf("invalid xref entry")
    );
    assert_eq!(
        failure(
            b"%PDF-1.4\nxref\n0 1\n0 65535 f\ntrailer\n<< /Size 1 /Root 1 0 R >>\nstartxref\n9\n"
                .to_vec()
        ),
        PdfError::InvalidReference
    );
    assert_eq!(
        failure(build_pdf(&[b"<< /Type /Catalog >>".to_vec()], 1)),
        PdfError::InvalidPdf("document page tree missing")
    );
    assert_eq!(
        failure(build_pdf(
            &[
                b"<< /Type /Catalog /Pages 2 0 R >>".to_vec(),
                b"<< /Type /Pages >>".to_vec()
            ],
            1
        )),
        PdfError::InvalidPdf("Kids missing from pages node")
    );
    assert_eq!(
        failure(build_pdf(
            &[
                b"<< /Type /Catalog /Pages 2 0 R >>".to_vec(),
                b"<< /Type /Pages /Kids [ 7 ] >>".to_vec()
            ],
            1
        )),
        PdfError::InvalidPdf("invalid Kids entry")
    );
    assert_eq!(
        failure(build_pdf(
            &[
                b"<< /Type /Catalog /Pages 2 0 R >>".to_vec(),
                b"<< /Type /Pages /Kids [ 1 0 R ] >>".to_vec()
            ],
            1
        )),
        PdfError::InvalidPdf("invalid page tree entry")
    );
    assert_eq!(
        failure(build_pdf(&[b"<< /Type /Catalog /Pages 2 0 R >>".to_vec()], 2)),
        PdfError::InvalidReference
    );
    assert_eq!(
        failure(build_pdf(&[b"(no dictionary)".to_vec()], 1)),
        PdfError::InvalidPdf("dictionary expected")
    );
}

#[test]
fn a_page_tree_that_leads_back_to_itself_is_given_up() {
    let file = build_pdf(
        &[
            b"<< /Type /Catalog /Pages 2 0 R >>".to_vec(),
            b"<< /Type /Pages /Kids [ 2 0 R ] >>".to_vec(),
        ],
        1,
    );
    assert_eq!(failure(file), PdfError::InvalidPdf("page tree too deep"));
}

#[test]
fn a_document_without_pages() {
    let file = build_pdf(
        &[
            b"<< /Type /Catalog /Pages 2 0 R >>".to_vec(),
            b"<< /Type /Pages /Kids [ ] /Count 0 >>".to_vec(),
        ],
        1,
    );
    let mut pdf = open(file).unwrap();
    assert_eq!(pdf.page_count(), 0);
    assert_eq!(pdf.page_contents(0).err(), Some(PdfError::InvalidPageNumber));
}

#[test]
fn the_last_trailer_of_the_tail_counts() {
    assert_eq!(find_trailer(5, b"trailer trailer x"), Ok(5 + 8 + 7));
    assert_eq!(find_trailer(0, b"trailetrailer"), Ok(13));
    assert_eq!(find_trailer(0, b""), Err(PdfError::InvalidPdf("no trailer")));
    assert_eq!(find_trailer(0, b"traile"), Err(PdfError::InvalidPdf("no trailer")));
    assert_eq!(find_trailer(0, b"Trailer"), Err(PdfError::InvalidPdf("no trailer")));
}

#[test]
fn the_tail_is_the_last_8192_bytes() {
    let mut source = ByteSliceSource::new(b"short");
    assert_eq!(read_tail(&mut source), Ok((0, b"short".to_vec())));
    let long: Vec<u8> = (0..10000).map(|i| (i % 251) as u8).collect();
    let mut source = ByteSource::new(long.clone());
    let (position, buffer) = read_tail(&mut source).unwrap();
    assert_eq!(position, 10000 - 8192);
    assert_eq!(buffer, long[1808..].to_vec());
    let exact: Vec<u8> = vec![7; 8192];
    let mut source = ByteSource::new(exact.clone());
    assert_eq!(read_tail(&mut source), Ok((0, exact)));
}

#[test]
fn header_check() {
    let mut source = ByteSliceSource::new(b"%PDF-1.7 and more");
    assert_eq!(source.seek(SeekFrom::Start(5)), Ok(5));
    assert_eq!(validate_pdf(&mut source), Ok(()));
    let mut source = ByteSliceSource::new(b"%PDF-1.");
    assert_eq!(validate_pdf(&mut source), Ok(()));
    let mut source = ByteSliceSource::new(b"%PDF-2.0");
    assert_eq!(validate_pdf(&mut source), Err(PdfError::InvalidPdf("bad pdf header")));
    let mut source = ByteSliceSource::new(b" %PDF-1.4");
    assert_eq!(validate_pdf(&mut source), Err(PdfError::InvalidPdf("bad pdf header")));
}

#[test]
fn trailer_with_its_offset() {
    let mut source = ByteSliceSource::new(b" << /Size 4 >> startxref 1234 %%EOF");
    let (dict, offset) = read_trailer(&mut source).unwrap();
    assert_eq!(dict.get_u32(PdfName::Size), Some(4));
    assert_eq!(offset, 1234);
}

#[test]
fn xref_subsections() {
    let table = b"xref\n1 2\n0000000100 00000 n \n0000000200 00007 n \n                  5 3\n0000000500 00000 n \n0000000600 00001 f \n0000000700 00000 n \n                  trailer << >>";
    let mut source = ByteSliceSource::new(table);
    let xref = read_xref(&mut source, 7).unwrap();
    let free = XRefEntry { gen: FREE_GEN, position: 0 };
    assert_eq!(
        xref,
        vec![
            free,
            XRefEntry { gen: 0, position: 100 },
            XRefEntry { gen: 7, position: 200 },
            free,
            free,
            XRefEntry { gen: 0, position: 500 },
            free,
        ]
    );
    // The objects that end the table are used up.
    assert_eq!(next_object(&mut source), Ok(None));

    // Lines beyond the size are read and left out.
    let mut source = ByteSliceSource::new(b"xref 0 3 10 0 n 20 0 n 30 0 n trailer");
    assert_eq!(
        read_xref(&mut source, 2),
        Ok(vec![
            XRefEntry { gen: 0, position: 10 },
            XRefEntry { gen: 0, position: 20 }
        ])
    );
    let mut source = ByteSliceSource::new(b"xref -1 2 10 0 n 20 0 n trailer");
    assert_eq!(read_xref(&mut source, 1), Ok(vec![XRefEntry { gen: 0, position: 20 }]));
    let mut source = ByteSliceSource::new(b"xref 0 -5 trailer");
    assert_eq!(read_xref(&mut source, 1), Ok(vec![free]));
    let mut source = ByteSliceSource::new(b"xref");
    assert_eq!(read_xref(&mut source, 0), Ok(vec![]));
    let mut source = ByteSliceSource::new(b"xref 0 2 10 0 n");
    assert_eq!(read_xref(&mut source, 2), Err(PdfError::InvalidPdf("invalid xref entry")));

    let mut source = ByteSliceSource::new(b"17 3 n 17 3 f 17 3 R");
    assert_eq!(read_xref_entry(&mut source), Ok(XRefEntry { gen: 3, position: 17 }));
    assert_eq!(read_xref_entry(&mut source), Ok(free));
    assert_eq!(
        read_xref_entry(&mut source),
        Err(PdfError::InvalidPdf("invalid xref entry"))
    );
}

#[test]
fn an_object_is_read_up_to_its_end() {
    let text = b"7 2 obj\n[ 1 (two) ]\nendobj\ntrailer";
    let mut source = ByteSliceSource::new(text);
    assert_eq!(
        read_object(&mut source, Reference::new(7, 2)),
        Ok(PdfObject::Array(vec![integer(1), PdfObject::String(b"two".to_vec())]))
    );
    // The cursor stands just behind `endobj`.
    assert_eq!(source.seek(SeekFrom::Current(0)), Ok(26));
    assert_eq!(
        next_object(&mut source),
        Ok(Some(PdfObject::Keyword(PdfKeyword::trailer)))
    );

    let mut source = ByteSliceSource::new(text);
    assert_eq!(
        read_object(&mut source, Reference::new(8, 2)),
        Err(PdfError::InvalidReferenceTarget)
    );
    let mut source = ByteSliceSource::new(text);
    assert_eq!(
        read_object(&mut source, Reference::new(7, 0)),
        Err(PdfError::InvalidReferenceTarget)
    );
    let mut source = ByteSliceSource::new(b"7 2 obj");
    assert_eq!(
        read_object(&mut source, Reference::new(7, 2)),
        Err(PdfError::InvalidPdf("pdf object expected"))
    );
    let mut source = ByteSliceSource::new(b"7 2 obj 5 6");
    assert_eq!(
        read_object(&mut source, Reference::new(7, 2)),
        Err(PdfError::KeywordExpected(PdfKeyword::endobj))
    );
    let mut source = ByteSliceSource::new(b"7 2 5 endobj");
    assert_eq!(
        read_object(&mut source, Reference::new(7, 2)),
        Err(PdfError::KeywordExpected(PdfKeyword::obj))
    );
}

#[test]
fn references_are_resolved() {
    let file = build_pdf(
        &[
            b"<< /Size 2 0 R /Kids [ 2 0 R 3 0 R ] /Parent 2 0 R /Prev 9 0 R /Names << /Count 3 0 R >> >>"
                .to_vec(),
            b"42".to_vec(),
            b"[ 2 0 R (text) ]".to_vec(),
            b"[ 4 0 R ]".to_vec(),
        ],
        1,
    );
    let mut source = ByteSource::new(file);
    source.seek(SeekFrom::Start(0)).unwrap();
    let xref = {
        // The table of the file, read the way a document reads it.
        let (position, buffer) = read_tail(&mut source).unwrap();
        let trailer = find_trailer(position, &buffer).unwrap();
        source.seek(SeekFrom::Start(trailer)).unwrap();
        let (dict, start) = read_trailer(&mut source).unwrap();
        source.seek(SeekFrom::Start(start)).unwrap();
        read_xref(&mut source, dict.get_u32(PdfName::Size).unwrap()).unwrap()
    };
    assert_eq!(seek_reference(&mut source, &xref, Reference::new(2, 0)), Ok(xref[2].position));
    assert_eq!(fetch_object(&mut source, &xref, Reference::new(2, 0)), Ok(integer(42)));
    let dict = fetch_dictionary(&mut source, &xref, Reference::new(1, 0)).unwrap();

    let resolved =
        dereference(&mut source, &xref, &PdfObject::Dictionary(dict), RESOLVE_DEPTH).unwrap();
    let resolved = match resolved {
        PdfObject::Dictionary(dict) => dict,
        other => panic!("not a dictionary: {:?}", other),
    };
    assert_eq!(resolved.get(PdfName::Size), Some(&integer(42)));
    assert_eq!(
        resolved.get(PdfName::Kids),
        Some(&PdfObject::Array(vec![
            integer(42),
            PdfObject::Array(vec![integer(42), PdfObject::String(b"text".to_vec())])
        ]))
    );
    // The entries that lead up the tree stay as they are.
    assert_eq!(
        resolved.get(PdfName::Parent),
        Some(&PdfObject::Reference(Reference::new(2, 0)))
    );
    // What cannot be resolved becomes null.
    assert_eq!(resolved.get(PdfName::Prev), Some(&PdfObject::Null));
    assert_eq!(
        resolved.get_dictionary(PdfName::Names).unwrap().get_array(PdfName::Count),
        Some(vec![integer(42), PdfObject::String(b"text".to_vec())])
    );

    // Outside a dictionary a failure stays a failure.
    assert_eq!(
        dereference(
            &mut source,
            &xref,
            &PdfObject::Array(vec![PdfObject::Reference(Reference::new(9, 0))]),
            RESOLVE_DEPTH
        ),
        Err(PdfError::InvalidReference)
    );
    // Object 4 refers to itself.
    assert_eq!(
        dereference(
            &mut source,
            &xref,
            &PdfObject::Reference(Reference::new(4, 0)),
            RESOLVE_DEPTH
        ),
        Err(PdfError::InvalidPdf("objects nested too deep"))
    );
    assert_eq!(
        dereference(&mut source, &xref, &integer(5), 0),
        Ok(integer(5))
    );
}

#[test]
fn page_tree_and_contents_by_hand() {
    let file = three_pages();
    let mut source = ByteSource::new(file);
    let (position, buffer) = read_tail(&mut source).unwrap();
    let trailer = find_trailer(position, &buffer).unwrap();
    source.seek(SeekFrom::Start(trailer)).unwrap();
    let (dict, start) = read_trailer(&mut source).unwrap();
    source.seek(SeekFrom::Start(start)).unwrap();
    let xref = read_xref(&mut source, dict.get_u32(PdfName::Size).unwrap()).unwrap();
    let node = fetch_dictionary(&mut source, &xref, Reference::new(2, 0)).unwrap();
    let pages = read_pages(&mut source, &xref, &node, PAGE_TREE_DEPTH).unwrap();
    assert_eq!(pages.len(), 3);
    assert_eq!(pages[0].get_reference(PdfName::Contents), Some(Reference::new(6, 0)));
    assert_eq!(pages[2].get_reference(PdfName::Contents), Some(Reference::new(9, 0)));
    // One level is not enough for the pages of the inner node.
    assert_eq!(
        read_pages(&mut source, &xref, &node, 0).err(),
        Some(PdfError::InvalidPdf("page tree too deep"))
    );
    assert_eq!(contents(&mut source, &xref, &pages[0]), Ok(b"(first) Tj".to_vec()));
    assert_eq!(
        contents(&mut source, &xref, &node),
        Err(PdfError::InvalidPdf("invalid page contents"))
    );
    assert_eq!(
        read_stream(&mut source, &xref, Reference::new(7, 0)),
        Ok(b"BT /F1 12 Tf (Compressed) Tj ET".to_vec())
    );
}

#[test]
fn stream_failures() {
    let file = build_pdf(
        &[
            stream_object("/Size 3", b"abc"),
            stream_object("/Length 10", b"abc"),
            stream_object("/Length 400", b"abc"),
            b"<< /Length 3 >>\nstream".to_vec(),
            stream_object("/Length 3 /Filter /FlateDecode", b"abc"),
            stream_object("/Length 2", b"abc"),
        ],
        1,
    );
    let mut source = ByteSource::new(file);
    let (position, buffer) = read_tail(&mut source).unwrap();
    let trailer = find_trailer(position, &buffer).unwrap();
    source.seek(SeekFrom::Start(trailer)).unwrap();
    let (dict, start) = read_trailer(&mut source).unwrap();
    source.seek(SeekFrom::Start(start)).unwrap();
    let xref = read_xref(&mut source, dict.get_u32(PdfName::Size).unwrap()).unwrap();
    assert_eq!(
        read_stream(&mut source, &xref, Reference::new(1, 0)),
        Err(PdfError::InvalidPdf("Length missing from stream dictionary"))
    );
    assert_eq!(
        read_stream(&mut source, &xref, Reference::new(2, 0)),
        Err(PdfError::KeywordExpected(PdfKeyword::endstream))
    );
    assert_eq!(
        read_stream(&mut source, &xref, Reference::new(3, 0)),
        Err(PdfError::InternalError("failed to read stream"))
    );
    match read_stream(&mut source, &xref, Reference::new(5, 0)) {
        Err(PdfError::DecompressionError(_)) => {}
        other => panic!("not a decompression error: {:?}", other),
    }
    assert_eq!(
        read_stream(&mut source, &xref, Reference::new(6, 0)),
        Err(PdfError::KeywordExpected(PdfKeyword::endstream))
    );
    let mut short = ByteSliceSource::new(b"1 0 obj << /Length 3 >> stream");
    assert_eq!(
        read_stream(&mut short, &vec![XRefEntry { gen: 0, position: 0 }; 2], Reference::new(1, 0)),
        Err(PdfError::EndOfFile)
    );
}

fn stream_dictionary(entries: Vec<(PdfName, PdfObject)>) -> Dictionary {
    let mut dict = Dictionary::new();
    for (name, value) in entries {
        dict.insert(name, value);
    }
    dict
}

fn names(list: &[PdfName]) -> PdfObject {
    PdfObject::Array(list.iter().map(|n| PdfObject::Name(*n)).collect())
}

#[test]
fn filter_chains() {
    let plain = b"BT /F1 12 Tf (Compressed) Tj ET".to_vec();
    assert_eq!(decode_stream(b"abc".to_vec(), Dictionary::new()), Ok(b"abc".to_vec()));
    assert_eq!(
        decode_stream(
            COMPRESSED.to_vec(),
            stream_dictionary(vec![(PdfName::Filter, PdfObject::Name(PdfName::FlateDecode))])
        ),
        Ok(plain.clone())
    );
    assert_eq!(
        decode_stream(
            COMPRESSED.to_vec(),
            stream_dictionary(vec![
                (PdfName::Filter, PdfObject::Name(PdfName::FlateDecode)),
                (PdfName::DecodeParms, PdfObject::Dictionary(Dictionary::new()))
            ])
        ),
        Ok(plain.clone())
    );
    assert_eq!(
        decode_stream(
            COMPRESSED.to_vec(),
            stream_dictionary(vec![(PdfName::Filter, names(&[PdfName::FlateDecode]))])
        ),
        Ok(plain.clone())
    );
    assert_eq!(
        decode_stream(
            b"abc".to_vec(),
            stream_dictionary(vec![(PdfName::Filter, names(&[]))])
        ),
        Ok(b"abc".to_vec())
    );
    // The second filter is reached only if the first succeeds.
    assert_eq!(
        decode_stream(
            COMPRESSED.to_vec(),
            stream_dictionary(vec![(
                PdfName::Filter,
                names(&[PdfName::FlateDecode, PdfName::DCTDecode])
            )])
        ),
        Err(PdfError::InternalError("DCTDecode filter not implemented"))
    );
    match decode_stream(
        b"no zlib data".to_vec(),
        stream_dictionary(vec![(
            PdfName::Filter,
            names(&[PdfName::FlateDecode, PdfName::DCTDecode]),
        )]),
    ) {
        Err(PdfError::DecompressionError(_)) => {}
        other => panic!("not a decompression error: {:?}", other),
    }
    // With parameters the two arrays are read as far as the shorter one reaches.
    assert_eq!(
        decode_stream(
            b"abc".to_vec(),
            stream_dictionary(vec![
                (PdfName::Filter, names(&[PdfName::LZWDecode])),
                (PdfName::DecodeParms, PdfObject::Array(vec![]))
            ])
        ),
        Ok(b"abc".to_vec())
    );
}

#[test]
fn filters_that_are_known_and_not_provided() {
    for (name, text) in [
        (PdfName::ASCIIHexDecode, "ASCIIHexDecode filter not implemented"),
        (PdfName::ASCII85Decode, "ASCII85Decode filter not implemented"),
        (PdfName::LZWDecode, "LZWDecode filter not implemented"),
        (PdfName::RunLengthDecode, "RunLengthDecode filter not implemented"),
        (PdfName::CCITTFaxDecode, "CCITTFaxDecode filter not implemented"),
        (PdfName::JBIG2Decode, "JBIG2Decode filter not implemented"),
        (PdfName::DCTDecode, "DCTDecode filter not implemented"),
        (PdfName::Crypt, "Crypt filter not implemented"),
    ] {
        assert_eq!(apply_filter(name, vec![1, 2, 3]), Err(PdfError::InternalError(text)));
    }
    assert_eq!(
        apply_filter(PdfName::Page, vec![1, 2, 3]),
        Err(PdfError::InvalidPdf("unknown filter"))
    );
    assert_eq!(apply_filter(PdfName::FlateDecode, COMPRESSED.to_vec()).map(|v| v.len()), Ok(31));
    assert_eq!(inflate_outcome(Ok(vec![1])), Ok(vec![1]));
    assert_eq!(
        inflate_outcome(Err("bad".to_string())),
        Err(PdfError::DecompressionError("bad".to_string()))
    );
}

#[test]
fn stream_dictionaries_of_the_wrong_shape() {
    let shape = |entries| filters(stream_dictionary(entries)).map(|list| list.len());
    assert_eq!(shape(vec![(PdfName::Filter, integer(1))]), Err(PdfError::InvalidPdf("invalid stream dictionary")));
    assert_eq!(
        shape(vec![(PdfName::DecodeParms, PdfObject::Dictionary(Dictionary::new()))]),
        Err(PdfError::InvalidPdf("invalid stream dictionary"))
    );
    assert_eq!(
        shape(vec![
            (PdfName::Filter, PdfObject::Name(PdfName::FlateDecode)),
            (PdfName::DecodeParms, PdfObject::Array(vec![]))
        ]),
        Err(PdfError::InvalidPdf("invalid stream dictionary"))
    );
    assert_eq!(
        shape(vec![
            (PdfName::Filter, names(&[PdfName::FlateDecode])),
            (PdfName::DecodeParms, PdfObject::Dictionary(Dictionary::new()))
        ]),
        Err(PdfError::InvalidPdf("invalid stream dictionary"))
    );
    assert_eq!(
        shape(vec![(PdfName::Filter, PdfObject::Array(vec![integer(1)]))]),
        Err(PdfError::InvalidPdf("name expected"))
    );
    assert_eq!(
        shape(vec![
            (PdfName::Filter, names(&[PdfName::FlateDecode])),
            (PdfName::DecodeParms, PdfObject::Array(vec![PdfObject::Null]))
        ]),
        Err(PdfError::InvalidPdf("name/dictionary expected"))
    );
    assert_eq!(
        shape(vec![
            (PdfName::Filter, names(&[PdfName::FlateDecode, PdfName::LZWDecode])),
            (
                PdfName::DecodeParms,
                PdfObject::Array(vec![PdfObject::Dictionary(Dictionary::new())])
            )
        ]),
        Ok(1)
    );
    assert_eq!(shape(vec![(PdfName::Filter, names(&[PdfName::Crypt, PdfName::Page]))]), Ok(2));
}

use llpr::names::{PdfKeyword, PdfName};
use llpr::pdf_document::{find_trailer, PdfDocument, XRefEntry};
use llpr::pdf_source::{ByteSliceSource, ByteSource};
use llpr::pdf_types::{PdfNumber, PdfObject, Reference, FREE_GEN};
use llpr::PdfError;

/// A file of five objects: a catalog, a page tree, one page and its content.
fn minimal_pdf() -> Vec<u8> {
    let lines: Vec<&[u8]> = vec![
        b"%PDF-1.1\n",
        b"%\xc2\xa5\xc2\xb1\xc3\xab\n",
        b"\n",
        b"1 0 obj\n",
        b"  << /Type /Catalog\n",
        b"     /Pages 2 0 R\n",
        b"  >>\n",
        b"endobj\n",
        b"\n",
        b"2 0 obj\n",
        b"  << /Type /Pages\n",
        b"     /Kids [3 0 R]\n",
        b"     /Count 1\n",
        b"     /MediaBox [0 0 300 144]\n",
        b"  >>\n",
        b"endobj\n",
        b"\n",
        b"3 0 obj\n",
        b"  <<  /Type /Page\n",
        b"      /Parent 2 0 R\n",
        b"      /Resources\n",
        b"       << /Font\n",
        b"           << /F1\n",
        b"               << /Type /Font\n",
        b"                  /Subtype /Type1\n",
        b"                  /BaseFont /Times-Roman\n",
        b"               >>\n",
        b"           >>\n",
        b"       >>\n",
        b"      /Contents 4 0 R\n",
        b"  >>\n",
        b"endobj\n",
        b"\n",
        b"4 0 obj\n",
        b"  << /Length 55 >>\n",
        b"stream\n",
        b"  BT\n",
        b"    /F1 18 Tf\n",
        b"    0 0 Td\n",
        b"    (Hello World) Tj\n",
        b"  ET\n",
        b"endstream\n",
        b"endobj\n",
        b"\n",
        b"xref\n",
        b"0 5\n",
        b"0000000000 65535 f \n",
        b"0000000018 00000 n \n",
        b"0000000077 00000 n \n",
        b"0000000178 00000 n \n",
        b"0000000457 00000 n \n",
        b"trailer\n",
        b"  <<  /Root 1 0 R\n",
        b"      /Size 5\n",
        b"  >>\n",
        b"startxref\n",
        b"565\n",
        b"%%EOF\n",
    ];
    lines.concat()
}

fn open_minimal() -> PdfDocument<ByteSource> {
    PdfDocument::new(ByteSource::new(minimal_pdf())).unwrap()
}

#[test]
fn bad_header() {
    let pdf = ByteSliceSource::new(b"%PDx-1.3\n% bad pdf header\n");
    assert!(PdfDocument::new(pdf).is_err());
}

#[test]
fn find_trailer_middle() {
    let buffer = "blah blah blah trailer blah blah blah".as_bytes();
    let position = find_trailer(0, &buffer);
    assert!(position.is_ok());
    assert_eq!(position.unwrap(), 22);
}

#[test]
fn find_trailer_middle_offset() {
    let buffer = "blah blah blah trailer blah blah blah".as_bytes();
    let position = find_trailer(1000, &buffer);
    assert!(position.is_ok());
    assert_eq!(position.unwrap(), 1000 + 22);
}

#[test]
fn find_trailer_end() {
    let buffer = "blah blah blah trailer".as_bytes();
    let position = find_trailer(0, &buffer);
    assert!(position.is_ok());
    assert_eq!(position.unwrap(), 22);
}

#[test]
fn find_trailer_start() {
    let buffer = "trailer blah blah blah".as_bytes();
    let position = find_trailer(0, &buffer);
    assert!(position.is_ok());
    assert_eq!(position.unwrap(), 7);
}

#[test]
fn no_trailer() {
    let buffer = "railer blah blah blah".as_bytes();
    let position = find_trailer(0, &buffer);
    assert!(position.is_err());
}

#[test]
fn minimal_pdf_xref() {
    let pdf = open_minimal();
    assert_eq!(pdf.xref_len(), 5);
    assert_eq!(pdf.page_count(), 1);
    assert_eq!(
        pdf.xref_entry(0).unwrap(),
        XRefEntry {
            gen: FREE_GEN,
            position: 0
        }
    );
    assert_eq!(
        pdf.xref_entry(1).unwrap(),
        XRefEntry {
            gen: 0,
            position: 18
        }
    );
    assert_eq!(
        pdf.xref_entry(2).unwrap(),
        XRefEntry {
            gen: 0,
            position: 77
        }
    );
    assert_eq!(
        pdf.xref_entry(3).unwrap(),
        XRefEntry {
            gen: 0,
            position: 178
        }
    );
    assert_eq!(
        pdf.xref_entry(4).unwrap(),
        XRefEntry {
            gen: 0,
            position: 457
        }
    );
}

#[test]
fn minimal_pdf_stream() {
    let mut pdf = open_minimal();
    let buffer = pdf.read_stream(Reference::new(4, 0)).unwrap();
    assert_eq!(
        buffer,
        vec![
            32, 32, 66, 84, 10, 32, 32, 32, 32, 47, 70, 49, 32, 49, 56, 32, 84, 102, 10, 32, 32,
            32, 32, 48, 32, 48, 32, 84, 100, 10, 32, 32, 32, 32, 40, 72, 101, 108, 108, 111, 32,
            87, 111, 114, 108, 100, 41, 32, 84, 106, 10, 32, 32, 69, 84
        ]
    );
}

#[test]
fn minimal_pdf_contents_iter() {
    let mut pdf = open_minimal();
    let mut pc = pdf.page_contents(0).unwrap();
    assert_eq!(
        pc.next_object().unwrap().unwrap(),
        PdfObject::Keyword(PdfKeyword::BT)
    );
    assert_eq!(
        pc.next_object().unwrap().unwrap(),
        PdfObject::Symbol(b"F1".to_vec())
    );
    assert_eq!(
        pc.next_object().unwrap().unwrap(),
        PdfObject::Number(PdfNumber::Integer(18))
    );
    assert_eq!(
        pc.next_object().unwrap().unwrap(),
        PdfObject::Keyword(PdfKeyword::Tf)
    );
    assert_eq!(
        pc.next_object().unwrap().unwrap(),
        PdfObject::Number(PdfNumber::Integer(0))
    );
    assert_eq!(
        pc.next_object().unwrap().unwrap(),
        PdfObject::Number(PdfNumber::Integer(0))
    );
    assert_eq!(
        pc.next_object().unwrap().unwrap(),
        PdfObject::Keyword(PdfKeyword::Td)
    );
    assert_eq!(
        pc.next_object().unwrap().unwrap(),
        PdfObject::String(b"Hello World".to_vec())
    );
    assert_eq!(
        pc.next_object().unwrap().unwrap(),
        PdfObject::Keyword(PdfKeyword::Tj)
    );
    assert_eq!(
        pc.next_object().unwrap().unwrap(),
        PdfObject::Keyword(PdfKeyword::ET)
    );
    assert!(pc.next_object().unwrap() == None);
}

#[test]
fn page_number_out_of_range() {
    let mut pdf = open_minimal();
    assert_eq!(pdf.page_contents(1).err(), Some(PdfError::InvalidPageNumber));
}

#[test]
fn page_dictionary_names() {
    let bytes = minimal_pdf();
    assert_eq!(bytes.len(), 739);
    assert_eq!(&bytes[565..569], b"xref");
    assert_eq!(PdfName::Contents.text(), "Contents");
}

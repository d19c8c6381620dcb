use llpr::names::{PdfKeyword, PdfName};
use llpr::object_reader::ObjectReader;
use llpr::pdf_source::ByteSliceSource;
use llpr::pdf_types::{PdfNumber, PdfObject};

fn objects(source: &'static [u8]) -> ObjectReader<ByteSliceSource<'static>> {
    ObjectReader::without_validation(ByteSliceSource::new(source))
}

fn real_in(object: &PdfObject) -> f64 {
    match object {
        PdfObject::Number(PdfNumber::Real(text)) => {
            String::from_utf8(text.clone()).unwrap().parse().unwrap()
        }
        other => panic!("not a real: {:?}", other),
    }
}

#[test]
fn object_reader_keywords() {
    let mut source = objects(b" trailer\n\txref ");
    let n = source.next().unwrap().unwrap();
    assert_eq!(n, PdfObject::Keyword(PdfKeyword::trailer));
    let n = source.next().unwrap().unwrap();
    assert_eq!(n, PdfObject::Keyword(PdfKeyword::xref));
}

#[test]
fn object_reader_value_keywords() {
    let mut source = objects(b"null true false ");
    let n = source.next().unwrap().unwrap();
    assert_eq!(n, PdfObject::Null);
    let n = source.next().unwrap().unwrap();
    assert_eq!(n, PdfObject::Boolean(true));
    let n = source.next().unwrap().unwrap();
    assert_eq!(n, PdfObject::Boolean(false));
}

#[test]
fn object_reader_numbers() {
    let mut source = objects(b"0 0.0 1 1.0 -10.34 10000.5 ");
    let n = source.next().unwrap().unwrap();
    assert_eq!(n, PdfObject::Number(PdfNumber::Integer(0)));
    let n = source.next().unwrap().unwrap();
    assert_eq!(real_in(&n), 0.0);
    let n = source.next().unwrap().unwrap();
    assert_eq!(n, PdfObject::Number(PdfNumber::Integer(1)));
    let n = source.next().unwrap().unwrap();
    assert_eq!(real_in(&n), 1.0);
    let n = source.next().unwrap().unwrap();
    assert_eq!(real_in(&n), -10.34);
    let n = source.next().unwrap().unwrap();
    assert_eq!(real_in(&n), 10000.5);
}

#[test]
fn object_reader_strings() {
    let mut source = objects(b"() (string) (Another \t (string)) <> <a1b2> <a1b>");
    let n = source.next().unwrap().unwrap();
    assert_eq!(n, PdfObject::String(vec![]));
    let n = source.next().unwrap().unwrap();
    assert_eq!(n, PdfObject::String(vec![115, 116, 114, 105, 110, 103]));
    let n = source.next().unwrap().unwrap();
    assert_eq!(
        n,
        PdfObject::String(vec![
            65, 110, 111, 116, 104, 101, 114, 32, 9, 32, 40, 115, 116, 114, 105, 110, 103, 41
        ])
    );
    let n = source.next().unwrap().unwrap();
    assert_eq!(n, PdfObject::String(vec![]));
    let n = source.next().unwrap().unwrap();
    assert_eq!(n, PdfObject::String(vec![0xa1, 0xb2]));
    let n = source.next().unwrap().unwrap();
    assert_eq!(n, PdfObject::String(vec![0xa1, 0xb0]));
}

#[test]
fn object_reader_names() {
    let mut source = objects(b"/Root /Size ");
    let n = source.next().unwrap().unwrap();
    assert_eq!(n, PdfObject::Name(PdfName::Root));
    let n = source.next().unwrap().unwrap();
    assert_eq!(n, PdfObject::Name(PdfName::Size));
}

#[test]
fn object_reader_symbols() {
    let mut source = objects(b"/Who /What ");
    let n = source.next().unwrap().unwrap();
    assert_eq!(n, PdfObject::Symbol("Who".as_bytes().to_vec()));
    let n = source.next().unwrap().unwrap();
    assert_eq!(n, PdfObject::Symbol("What".as_bytes().to_vec()));
}

#[test]
fn object_reader_array() {
    let mut source = objects(b"[0 null [(string)] 1.0] ");
    let n = source.next().unwrap().unwrap();
    assert_eq!(
        n,
        PdfObject::Array(vec![
            PdfObject::Number(PdfNumber::Integer(0)),
            PdfObject::Null,
            PdfObject::Array(vec![PdfObject::String(vec![115, 116, 114, 105, 110, 103])]),
            PdfObject::Number(PdfNumber::Real(b"1.0".to_vec()))
        ])
    );
    match n {
        PdfObject::Array(items) => assert_eq!(real_in(&items[3]), 1.0),
        other => panic!("not an array: {:?}", other),
    }
}

#[test]
fn object_reader_dictionary() {
    let mut source1 = objects(
        br##"<<
                /Root 10 0 R
                /Size 35
                /Info [(xyzzy) (plover)]
                /ID <<
                    /Type (some type)
                    /Prev 32
                    /Metadata 11 2 R
                >>
            >> "##,
    );
    let n1 = source1.next().unwrap().unwrap();
    let mut source2 = objects(
        br##"<<
                /Root    10  0   R
                /Size   35
                /Info [(xyzzy)      (plover)]
                /ID <<
                    /Type  (some type)

                    /Prev     32
                    /Metadata 11 2 R
                >>
            >> "##,
    );
    let n2 = source2.next().unwrap().unwrap();
    assert_eq!(n1, n2);
}

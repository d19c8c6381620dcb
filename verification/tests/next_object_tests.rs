use llpr::names::{PdfKeyword, PdfName};
use llpr::next_object::next_object;
use llpr::pdf_source::ByteSliceSource;
use llpr::pdf_types::{PdfNumber, PdfObject, Reference};

fn next(source: &mut ByteSliceSource) -> PdfObject {
    next_object(source).unwrap().unwrap()
}

fn real_value(object: &PdfObject) -> f64 {
    match object {
        PdfObject::Number(PdfNumber::Real(text)) => {
            String::from_utf8(text.clone()).unwrap().parse().unwrap()
        }
        other => panic!("not a real: {:?}", other),
    }
}

#[test]
fn next_object_keywords() {
    let mut source = ByteSliceSource::new(b" trailer\n\txref ");
    let n = next(&mut source);
    assert_eq!(n, PdfObject::Keyword(PdfKeyword::trailer));
    let n = next(&mut source);
    assert_eq!(n, PdfObject::Keyword(PdfKeyword::xref));
}

#[test]
fn next_object_value_keywords() {
    let mut source = ByteSliceSource::new(b"null true false ");
    let n = next(&mut source);
    assert_eq!(n, PdfObject::Null);
    let n = next(&mut source);
    assert_eq!(n, PdfObject::Boolean(true));
    let n = next(&mut source);
    assert_eq!(n, PdfObject::Boolean(false));
}

#[test]
fn next_object_numbers() {
    let mut source = ByteSliceSource::new(b"0 0.0 1 1.0 -10.34 10000.5 ");
    let n = next(&mut source);
    assert_eq!(n, PdfObject::Number(PdfNumber::Integer(0)));
    let n = next(&mut source);
    assert_eq!(real_value(&n), 0.0);
    let n = next(&mut source);
    assert_eq!(n, PdfObject::Number(PdfNumber::Integer(1)));
    let n = next(&mut source);
    assert_eq!(real_value(&n), 1.0);
    let n = next(&mut source);
    assert_eq!(real_value(&n), -10.34);
    let n = next(&mut source);
    assert_eq!(real_value(&n), 10000.5);
}

#[test]
fn next_object_strings() {
    let mut source =
        ByteSliceSource::new(b"() (string) (Another \t (string)) <> <a1b2> <a1b>");
    let n = next(&mut source);
    assert_eq!(n, PdfObject::String(vec![]));
    let n = next(&mut source);
    assert_eq!(n, PdfObject::String(vec![115, 116, 114, 105, 110, 103]));
    let n = next(&mut source);
    assert_eq!(
        n,
        PdfObject::String(vec![
            65, 110, 111, 116, 104, 101, 114, 32, 9, 32, 40, 115, 116, 114, 105, 110, 103, 41
        ])
    );
    let n = next(&mut source);
    assert_eq!(n, PdfObject::String(vec![]));
    let n = next(&mut source);
    assert_eq!(n, PdfObject::String(vec![0xa1, 0xb2]));
    let n = next(&mut source);
    assert_eq!(n, PdfObject::String(vec![0xa1, 0xb0]));
}

#[test]
fn next_object_names() {
    let mut source = ByteSliceSource::new(b"/Root /Size ");
    let n = next(&mut source);
    assert_eq!(n, PdfObject::Name(PdfName::Root));
    let n = next(&mut source);
    assert_eq!(n, PdfObject::Name(PdfName::Size));
}

#[test]
fn next_object_symbols() {
    let mut source = ByteSliceSource::new(b"/Who /What ");
    let n = next(&mut source);
    assert_eq!(n, PdfObject::Symbol("Who".as_bytes().to_vec()));
    let n = next(&mut source);
    assert_eq!(n, PdfObject::Symbol("What".as_bytes().to_vec()));
}

#[test]
fn next_object_array() {
    let mut source = ByteSliceSource::new(b"[0 null [(string)] 1.0] ");
    let n = next(&mut source);
    assert_eq!(
        n,
        PdfObject::Array(vec![
            PdfObject::Number(PdfNumber::Integer(0)),
            PdfObject::Null,
            PdfObject::Array(vec![PdfObject::String(vec![115, 116, 114, 105, 110, 103])]),
            PdfObject::Number(PdfNumber::Real(b"1.0".to_vec()))
        ])
    );
    match n {
        PdfObject::Array(items) => assert_eq!(real_value(&items[3]), 1.0),
        other => panic!("not an array: {:?}", other),
    }
}

#[test]
fn array_of_references() {
    let mut source = ByteSliceSource::new(b"[0 1 R 2 3 R 4 5 R] ");
    let a = next(&mut source);
    assert_eq!(
        a,
        PdfObject::Array(vec![
            PdfObject::Reference(Reference { id: 0, gen: 1 }),
            PdfObject::Reference(Reference { id: 2, gen: 3 }),
            PdfObject::Reference(Reference { id: 4, gen: 5 })
        ])
    );
}

#[test]
fn next_object_dictionary() {
    let mut source1 = ByteSliceSource::new(
        br##"<<
                /Root 10 0 R
                /Size 35
                /Info [(xyzzy) (plover)]
                /ID <<
                    /Type (some type)
                    /Prev 32
                    /Metadata 11 2 R
                >>
            >> "##,
    );
    let n1 = next(&mut source1);
    let mut source2 = ByteSliceSource::new(
        br##"<<
                /Root    10  0   R
                /Size   35
                /Info [(xyzzy)      (plover)]
                /ID <<
                    /Type  (some type)

                    /Prev     32
                    /Metadata 11 2 R
                >>
            >> "##,
    );
    let n2 = next(&mut source2);
    assert_eq!(n1, n2);
}

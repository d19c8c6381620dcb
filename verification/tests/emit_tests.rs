use llpr::emit::{emit, write_decimal, write_integer};
use llpr::names::{PdfKeyword, PdfName};
use llpr::next_object::next_object;
use llpr::next_token::next_token;
use llpr::pdf_source::ByteSliceSource;
use llpr::pdf_types::{Dictionary, PdfNumber, PdfObject, PdfToken, Reference};

fn parse(text: &[u8]) -> PdfObject {
    let mut source = ByteSliceSource::new(text);
    next_object(&mut source).unwrap().unwrap()
}

fn tokens(text: &[u8]) -> Vec<PdfToken> {
    let mut source = ByteSliceSource::new(text);
    let mut all = vec![];
    while let Some(token) = next_token(&mut source).unwrap() {
        all.push(token);
    }
    all
}

#[test]
fn canonical_texts() {
    assert_eq!(emit(&PdfObject::Null), Some(b"null ".to_vec()));
    assert_eq!(emit(&PdfObject::Boolean(true)), Some(b"true ".to_vec()));
    assert_eq!(emit(&PdfObject::Boolean(false)), Some(b"false ".to_vec()));
    assert_eq!(emit(&PdfObject::Number(PdfNumber::Integer(0))), Some(b"0 ".to_vec()));
    assert_eq!(emit(&PdfObject::Number(PdfNumber::Integer(-120))), Some(b"-120 ".to_vec()));
    assert_eq!(
        emit(&PdfObject::Number(PdfNumber::Integer(i64::MIN))),
        Some(b"-9223372036854775808 ".to_vec())
    );
    assert_eq!(
        emit(&PdfObject::Number(PdfNumber::Real(b"+.50".to_vec()))),
        Some(b"+.50 ".to_vec())
    );
    assert_eq!(emit(&PdfObject::Name(PdfName::MediaBox)), Some(b"/MediaBox ".to_vec()));
    assert_eq!(emit(&PdfObject::Array(vec![])), Some(b"[ ] ".to_vec()));
    assert_eq!(
        emit(&PdfObject::Dictionary(Dictionary::new())),
        Some(b"<< >> ".to_vec())
    );
    assert_eq!(
        emit(&parse(b"[1[/Size null]<</Count 2.5>>]")),
        Some(b"[ 1 [ /Size null ] << /Count 2.5 >> ] ".to_vec())
    );
}

#[test]
fn values_without_a_canonical_text() {
    assert_eq!(emit(&PdfObject::String(b"text".to_vec())), None);
    assert_eq!(emit(&PdfObject::Symbol(b"F1".to_vec())), None);
    assert_eq!(emit(&PdfObject::Keyword(PdfKeyword::BT)), None);
    assert_eq!(emit(&PdfObject::Reference(Reference::new(1, 0))), None);
    assert_eq!(emit(&PdfObject::Number(PdfNumber::Real(b"1.2.3".to_vec()))), None);
    assert_eq!(emit(&PdfObject::Number(PdfNumber::Real(b"12".to_vec()))), None);
    assert_eq!(emit(&parse(b"[1 [2 (three)]]")), None);
    assert_eq!(emit(&parse(b"<< /Size 1 /Info << /Root 1 0 R >> >>")), None);
}

#[test]
fn reading_what_was_written_gives_the_same() {
    for text in [
        &b"17"[..],
        b"-0",
        b"+12",
        b"007",
        b"3.1415926",
        b"-32.",
        b".5",
        b"true",
        b"/Root",
        b"[ ]",
        b"[1 2 [3 [4 5.5 /Page ] null] true false]",
        b"<< /Size 35 /Kids [ -1 +2 ] /Info << /Type /Page /Count 0 >> /Rotate 90.0 >>",
        b"<<\n/Root   null\t/Root 2 % the first value counts\n/Size 1 >>",
    ] {
        let object = parse(text);
        let written = emit(&object).unwrap();
        // The text reads back to the same object, up to the space that ends it.
        let mut source = ByteSliceSource::new(&written);
        assert_eq!(next_object(&mut source), Ok(Some(object.clone())));
        assert_eq!(next_token(&mut source), Ok(None));
        // Writing again gives a text of the same value; the keys of a
        // dictionary may stand in another order.
        let again = emit(&parse(&written)).unwrap();
        assert_eq!(again.len(), written.len());
        assert_eq!(parse(&again), object);
    }
}

#[test]
fn tokens_survive_the_round_trip() {
    let text = b"[ 1 -2 3.25 true false null /Size /Root [ ] ]";
    let written = emit(&parse(text)).unwrap();
    assert_eq!(tokens(&written), tokens(text));
    // A dictionary may come back with its keys in another order.
    let text = b"<< /Size 1 /Root 2 >>";
    let written = emit(&parse(text)).unwrap();
    assert_eq!(parse(&written), parse(b"<< /Root 2 /Size 1 >>"));
}

#[test]
fn decimal_digits() {
    let mut out = b"x".to_vec();
    write_decimal(0, &mut out);
    write_decimal(9, &mut out);
    write_decimal(10, &mut out);
    write_decimal(u64::MAX, &mut out);
    assert_eq!(out, b"x091018446744073709551615".to_vec());
    let mut out = vec![];
    write_integer(i64::MAX, &mut out);
    write_integer(-1, &mut out);
    assert_eq!(out, b"9223372036854775807-1".to_vec());
}

use llpr::dictionary::Access;
use llpr::names::{PdfKeyword, PdfName};
use llpr::next_object::{
    build_dictionary, need_dictionary, need_keyword, need_u32, next_object,
};
use llpr::page_contents::PageContents;
use llpr::pdf_source::{ByteSliceSource, SeekFrom, Source};
use llpr::pdf_types::{
    copy_object, same_object, Dictionary, PdfNumber, PdfObject, Reference,
};
use llpr::PdfError;

fn integer(i: i64) -> PdfObject {
    PdfObject::Number(PdfNumber::Integer(i))
}

fn object(text: &[u8]) -> Result<Option<PdfObject>, PdfError> {
    let mut source = ByteSliceSource::new(text);
    next_object(&mut source)
}

fn dictionary(text: &[u8]) -> Dictionary {
    match object(text) {
        Ok(Some(PdfObject::Dictionary(dict))) => dict,
        other => panic!("not a dictionary: {:?}", other),
    }
}

#[test]
fn canonical_text_reads_back() {
    let mut inner = Dictionary::new();
    inner.insert(PdfName::Count, integer(-7));
    let mut outer = Dictionary::new();
    outer.insert(PdfName::Size, integer(5));
    outer.insert(
        PdfName::Kids,
        PdfObject::Array(vec![
            integer(1),
            PdfObject::Number(PdfNumber::Real(b"3.5".to_vec())),
            PdfObject::Boolean(true),
            PdfObject::Boolean(false),
            PdfObject::Null,
            PdfObject::Name(PdfName::Page),
            PdfObject::Array(vec![]),
            PdfObject::Dictionary(inner),
        ]),
    );
    let text = b"<< /Size 5 /Kids [ 1 3.5 true false null /Page [ ] << /Count -7 >> ] >> ";
    assert_eq!(object(text), Ok(Some(PdfObject::Dictionary(outer))));
}

#[test]
fn dictionaries_are_equal_in_any_order() {
    let one = dictionary(b"<< /Size 5 /Root 1 0 R /Info << /Type /Page /Count 2 >> >>");
    let other = dictionary(b"<<\n/Info << /Count 2 /Type /Page >>\t/Root 1 0 R\n/Size 5 >>");
    assert_eq!(one, other);
    assert!(same_object(
        &PdfObject::Dictionary(one),
        &PdfObject::Dictionary(other)
    ));
    let less = dictionary(b"<< /Size 5 /Root 1 0 R >>");
    let more = dictionary(b"<< /Size 5 /Root 1 0 R /Prev 7 >>");
    assert_ne!(less, more);
    assert_ne!(more, less);
    let changed = dictionary(b"<< /Size 6 /Root 1 0 R >>");
    assert_ne!(less, changed);
}

#[test]
fn arrays_are_equal_in_their_order_only() {
    assert_eq!(object(b"[1 2 3]"), object(b"[ 1  2\n3 ]"));
    assert_ne!(object(b"[1 2 3]"), object(b"[1 3 2]"));
    assert_ne!(object(b"[1 2 3]"), object(b"[1 2]"));
}

#[test]
fn copies_are_equal() {
    let first = object(b"[<< /Size 5 /Kids [1 0 R (text) /Sym ] >> 1.5 null]")
        .unwrap()
        .unwrap();
    let copy = copy_object(&first);
    assert_eq!(copy, first);
    assert_eq!(first.clone(), first);
}

#[test]
fn dictionary_of_odd_length_gets_a_null() {
    let dict = dictionary(b"<< /Size 5 /Root >>");
    assert_eq!(dict.get(PdfName::Root), Some(&PdfObject::Null));
    assert_eq!(dict.get_u32(PdfName::Size), Some(5));
    assert_eq!(dict.len(), 2);
}

#[test]
fn dictionary_drops_symbol_keys() {
    let dict = dictionary(b"<< /F1 12 /Size 5 /Unheard (of) >>");
    assert_eq!(dict.len(), 1);
    assert_eq!(dict.get_u32(PdfName::Size), Some(5));
}

#[test]
fn dictionary_keeps_the_first_of_two_values() {
    let dict = dictionary(b"<< /Size 5 /Size 6 >>");
    assert_eq!(dict.len(), 1);
    assert_eq!(dict.get_u32(PdfName::Size), Some(5));
}

#[test]
fn dictionary_with_a_key_that_is_no_name_fails() {
    assert_eq!(
        object(b"<< 5 /Size >>"),
        Err(PdfError::InvalidPdf("malformed dictionary"))
    );
    assert_eq!(
        build_dictionary(vec![PdfObject::Null, integer(1)]).err(),
        Some(PdfError::InvalidPdf("malformed dictionary"))
    );
    assert_eq!(build_dictionary(vec![]).map(|d| d.len()), Ok(0));
}

#[test]
fn references_fold_the_two_integers_before_them() {
    assert_eq!(
        object(b"[7 1 2 R 8]"),
        Ok(Some(PdfObject::Array(vec![
            integer(7),
            PdfObject::Reference(Reference::new(1, 2)),
            integer(8)
        ])))
    );
    assert_eq!(
        object(b"[1 R]"),
        Err(PdfError::InvalidPdf("not enough arguments for R"))
    );
    assert_eq!(
        object(b"[1 (two) R]"),
        Err(PdfError::InvalidPdf("invalid arguments to R"))
    );
    // Outside a list the keyword stays a keyword.
    assert_eq!(object(b"R"), Ok(Some(PdfObject::Keyword(PdfKeyword::R))));
}

#[test]
fn closing_brackets_and_the_end_give_none() {
    assert_eq!(object(b"]"), Ok(None));
    assert_eq!(object(b">>"), Ok(None));
    assert_eq!(object(b"  "), Ok(None));
    // A list that the input ends in is closed there.
    assert_eq!(object(b"[1 2"), Ok(Some(PdfObject::Array(vec![integer(1), integer(2)]))));
}

#[test]
fn needed_objects() {
    let mut source = ByteSliceSource::new(b"12 0 obj << /Size 3 >> endobj");
    assert_eq!(need_u32(&mut source, 12), Ok(()));
    assert_eq!(need_u32(&mut source, 0), Ok(()));
    assert_eq!(need_keyword(&mut source, PdfKeyword::obj), Ok(()));
    let dict = need_dictionary(&mut source).unwrap();
    assert_eq!(dict.get_u32(PdfName::Size), Some(3));
    assert_eq!(need_keyword(&mut source, PdfKeyword::endobj), Ok(()));

    let mut source = ByteSliceSource::new(b"12 obj 5");
    assert_eq!(need_u32(&mut source, 13), Err(PdfError::InvalidReferenceTarget));
    assert_eq!(
        need_keyword(&mut source, PdfKeyword::endobj),
        Err(PdfError::KeywordExpected(PdfKeyword::endobj))
    );
    assert_eq!(
        need_dictionary(&mut source).err(),
        Some(PdfError::InvalidPdf("dictionary expected"))
    );
    assert_eq!(need_u32(&mut source, 1), Err(PdfError::InvalidReferenceTarget));
    assert_eq!(
        need_keyword(&mut source, PdfKeyword::obj),
        Err(PdfError::KeywordExpected(PdfKeyword::obj))
    );
}

#[test]
fn typed_lookups() {
    let mut dict = dictionary(
        b"<< /Size -1 /Root 4 0 R /Info (text) /Type /Page /ID /Sym /Dur 1.5 \
          /Kids [1 2] /Names << /Count 1 >> >>",
    );
    assert_eq!(dict.get_i32(PdfName::Size), Some(-1));
    assert_eq!(dict.get_u32(PdfName::Size), Some(u32::MAX));
    assert_eq!(dict.get_u64(PdfName::Size), Some(u64::MAX));
    assert_eq!(dict.get_reference(PdfName::Root), Some(Reference::new(4, 0)));
    assert_eq!(dict.get_string(PdfName::Info), Some(b"text".to_vec()));
    assert_eq!(dict.get_name(PdfName::Type), Some(PdfName::Page));
    assert_eq!(dict.get_symbol(PdfName::ID), Some(b"Sym".to_vec()));
    assert_eq!(
        dict.get_number(PdfName::Dur),
        Some(PdfNumber::Real(b"1.5".to_vec()))
    );
    assert_eq!(dict.get_number(PdfName::Size), Some(PdfNumber::Integer(-1)));
    assert_eq!(dict.get_array(PdfName::Kids), Some(vec![integer(1), integer(2)]));
    assert_eq!(
        dict.get_dictionary(PdfName::Names).unwrap().get_u32(PdfName::Count),
        Some(1)
    );
    // Another type, or no entry, is no value.
    assert_eq!(dict.get_u32(PdfName::Info), None);
    assert_eq!(dict.get_string(PdfName::Size), None);
    assert_eq!(dict.get_reference(PdfName::Prev), None);
    assert_eq!(dict.len(), 8);

    // Taking removes the entry, whatever its type.
    assert_eq!(dict.remove_string(PdfName::Info), Some(b"text".to_vec()));
    assert_eq!(dict.remove_string(PdfName::Info), None);
    assert_eq!(dict.remove_string(PdfName::Size), None);
    assert_eq!(dict.get_i32(PdfName::Size), None);
    assert_eq!(dict.remove_symbol(PdfName::ID), Some(b"Sym".to_vec()));
    assert_eq!(dict.remove_array(PdfName::Kids), Some(vec![integer(1), integer(2)]));
    assert!(dict.remove_dictionary(PdfName::Names).is_some());
    assert_eq!(dict.want_name(PdfName::Type), Some(PdfName::Page));
    assert_eq!(dict.want_number(PdfName::Dur), Some(PdfNumber::Real(b"1.5".to_vec())));
    assert_eq!(
        dict.need_reference(PdfName::Root, PdfError::InvalidReference),
        Ok(Reference::new(4, 0))
    );
    assert_eq!(
        dict.need_reference(PdfName::Root, PdfError::InvalidReference),
        Err(PdfError::InvalidReference)
    );
    assert_eq!(dict.len(), 0);
}

#[test]
fn insert_and_remove() {
    let mut dict = Dictionary::new();
    assert_eq!(dict.insert(PdfName::Size, integer(1)), None);
    assert_eq!(dict.insert(PdfName::Root, integer(2)), None);
    assert_eq!(dict.insert(PdfName::Size, integer(3)), Some(integer(1)));
    assert_eq!(dict.len(), 2);
    assert!(dict.contains_key(PdfName::Root));
    assert_eq!(dict.get(PdfName::Size), Some(&integer(3)));
    assert_eq!(dict.remove(PdfName::Size), Some(integer(3)));
    assert_eq!(dict.remove(PdfName::Size), None);
    assert_eq!(dict.name_at(0), PdfName::Root);
    assert_eq!(dict.value_at(0), &integer(2));
}

#[test]
fn page_contents_come_to_an_end() {
    let mut page = PageContents::new(b"1 0 0 1 50 50 cm [(a) -3 (b)] TJ 7".to_vec());
    let all = page.objects().unwrap();
    assert_eq!(all.len(), 10);
    assert_eq!(all[6], PdfObject::Keyword(PdfKeyword::cm));
    assert_eq!(all[9], integer(7));
    // What was read is not read again.
    assert_eq!(page.next_object(), Ok(None));
    assert_eq!(page.next_object(), Ok(None));
    assert_eq!(page.objects(), Ok(vec![]));

    let mut page = PageContents::new(b"5".to_vec());
    assert_eq!(page.next_object(), Ok(Some(integer(5))));
    assert_eq!(page.next_object(), Ok(None));

    let mut page = PageContents::new(b"q * Q".to_vec());
    assert_eq!(page.next_object(), Ok(Some(PdfObject::Keyword(PdfKeyword::q))));
    assert_eq!(page.next_object(), Err(PdfError::InvalidPdf("syntax error")));
}

#[test]
fn objects_are_read_from_where_the_cursor_stands() {
    let mut source = ByteSliceSource::new(b"(skipped) [1 2] /Size");
    assert_eq!(source.seek(SeekFrom::Start(10)), Ok(10));
    assert_eq!(
        next_object(&mut source),
        Ok(Some(PdfObject::Array(vec![integer(1), integer(2)])))
    );
    assert_eq!(source.seek(SeekFrom::Current(0)), Ok(15));
}

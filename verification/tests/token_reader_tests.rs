use llpr::names::PdfKeyword;
use llpr::pdf_source::{ByteSliceSource, SeekFrom};
use llpr::pdf_types::PdfToken;
use llpr::token_reader::TokenReader;
use llpr::PdfError;

fn tokens(source: &'static str) -> TokenReader<ByteSliceSource<'static>> {
    TokenReader::new(ByteSliceSource::new(source.as_bytes()))
}

fn real_of(token: PdfToken) -> f64 {
    match token {
        PdfToken::Real(text) => String::from_utf8(text).unwrap().parse().unwrap(),
        other => panic!("not a real: {:?}", other),
    }
}

#[test]
fn identifiers() {
    // A run of letters that is no keyword of the format is the keyword `Unknown`.
    let mut tr = tokens("ident Ident\nIDENT ");
    let tok = tr.next().unwrap();
    assert_eq!(tok, PdfToken::Keyword(PdfKeyword::Unknown));
    let tok = tr.next().unwrap();
    assert_eq!(tok, PdfToken::Keyword(PdfKeyword::Unknown));
    let tok = tr.next().unwrap();
    assert_eq!(tok, PdfToken::Keyword(PdfKeyword::Unknown));
    assert_eq!(tr.next().err(), Some(PdfError::EndOfFile));
}

#[test]
fn token_reader_integers() {
    let mut tr = tokens("0 15 -24\t\t+212 %blah blah blah\n12345 ");
    let tok = tr.next().unwrap();
    assert_eq!(tok, PdfToken::Integer(0));
    let tok = tr.next().unwrap();
    assert_eq!(tok, PdfToken::Integer(15));
    let tok = tr.next().unwrap();
    assert_eq!(tok, PdfToken::Integer(-24));
    let tok = tr.next().unwrap();
    assert_eq!(tok, PdfToken::Integer(212));
    let tok = tr.next().unwrap();
    assert_eq!(tok, PdfToken::Integer(12345));
}

#[test]
fn token_reader_reals() {
    let mut tr = tokens("0.0 2030.0 3.1415926 -32. .5 ");
    let tok = tr.next().unwrap();
    assert_eq!(real_of(tok), 0.0);
    let tok = tr.next().unwrap();
    assert_eq!(real_of(tok), 2030.0);
    let tok = tr.next().unwrap();
    assert_eq!(real_of(tok), 3.1415926);
    let tok = tr.next().unwrap();
    assert_eq!(real_of(tok), -32.0);
    let tok = tr.next().unwrap();
    assert_eq!(real_of(tok), 0.5);
}

#[test]
fn token_reader_names() {
    // None of these is a well-known name, so each is a symbol with its bytes.
    let mut tr = tokens("/Name /size /TEST /AnotherName ");
    let tok = tr.next().unwrap();
    assert_eq!(tok, PdfToken::Symbol(b"Name".to_vec()));
    let tok = tr.next().unwrap();
    assert_eq!(tok, PdfToken::Symbol(b"size".to_vec()));
    let tok = tr.next().unwrap();
    assert_eq!(tok, PdfToken::Symbol(b"TEST".to_vec()));
    let tok = tr.next().unwrap();
    assert_eq!(tok, PdfToken::Symbol(b"AnotherName".to_vec()));
}

#[test]
fn token_reader_strings() {
    let mut tr = tokens(
        r###"
(This is a string)
(Strings may contain newlines
and such.)
(Strings may contain balanced parentheses ( ) and
special characters ( * ! & } ^ % and so on ).)
(The following is an empty string.)
()
(It has zero (0) length.)
(String with escapes: \n \r \t \b \f \( \) \\ \0 \10 \100 \1234)
"###,
    );

    let tok = tr.next().unwrap();
    assert_eq!(
        tok,
        PdfToken::Str(vec![
            84, 104, 105, 115, 32, 105, 115, 32, 97, 32, 115, 116, 114, 105, 110, 103
        ])
    );
    let tok = tr.next().unwrap();
    assert_eq!(
        tok,
        PdfToken::Str(vec![
            83, 116, 114, 105, 110, 103, 115, 32, 109, 97, 121, 32, 99, 111, 110, 116, 97, 105,
            110, 32, 110, 101, 119, 108, 105, 110, 101, 115, 10, 97, 110, 100, 32, 115, 117, 99,
            104, 46
        ])
    );
    let tok = tr.next().unwrap();
    assert_eq!(
        tok,
        PdfToken::Str(vec![
            83, 116, 114, 105, 110, 103, 115, 32, 109, 97, 121, 32, 99, 111, 110, 116, 97, 105,
            110, 32, 98, 97, 108, 97, 110, 99, 101, 100, 32, 112, 97, 114, 101, 110, 116, 104,
            101, 115, 101, 115, 32, 40, 32, 41, 32, 97, 110, 100, 10, 115, 112, 101, 99, 105, 97,
            108, 32, 99, 104, 97, 114, 97, 99, 116, 101, 114, 115, 32, 40, 32, 42, 32, 33, 32, 38,
            32, 125, 32, 94, 32, 37, 32, 97, 110, 100, 32, 115, 111, 32, 111, 110, 32, 41, 46
        ])
    );
    let tok = tr.next().unwrap();
    assert_eq!(
        tok,
        PdfToken::Str(vec![
            84, 104, 101, 32, 102, 111, 108, 108, 111, 119, 105, 110, 103, 32, 105, 115, 32, 97,
            110, 32, 101, 109, 112, 116, 121, 32, 115, 116, 114, 105, 110, 103, 46
        ])
    );
    let tok = tr.next().unwrap();
    assert_eq!(tok, PdfToken::Str(vec![]));
    let tok = tr.next().unwrap();
    assert_eq!(
        tok,
        PdfToken::Str(vec![
            73, 116, 32, 104, 97, 115, 32, 122, 101, 114, 111, 32, 40, 48, 41, 32, 108, 101, 110,
            103, 116, 104, 46
        ])
    );
    // A doubled backslash writes one backslash, byte 92.
    let tok = tr.next().unwrap();
    assert_eq!(
        tok,
        PdfToken::Str(vec![
            83, 116, 114, 105, 110, 103, 32, 119, 105, 116, 104, 32, 101, 115, 99, 97, 112, 101,
            115, 58, 32, 10, 32, 13, 32, 9, 32, 8, 32, 12, 32, 40, 32, 41, 32, 92, 32, 0, 32, 8,
            32, 64, 32, 83, 52
        ])
    );
}

#[test]
fn token_reader_hex_strings() {
    let mut tr = tokens("<><a> <12AbCd> <deadbeef> <CAFEBABE> ");
    let tok = tr.next().unwrap();
    assert_eq!(tok, PdfToken::Str(vec![]));
    let tok = tr.next().unwrap();
    assert_eq!(tok, PdfToken::Str(vec![0xa0]));
    let tok = tr.next().unwrap();
    assert_eq!(tok, PdfToken::Str(vec![0x12, 0xab, 0xcd]));
    let tok = tr.next().unwrap();
    assert_eq!(tok, PdfToken::Str(vec![0xde, 0xad, 0xbe, 0xef]));
    let tok = tr.next().unwrap();
    assert_eq!(tok, PdfToken::Str(vec![0xca, 0xfe, 0xba, 0xbe]));
}

#[test]
fn token_reader_structures() {
    let mut tr = tokens("<< >> [ ] ");
    let tok = tr.next().unwrap();
    assert_eq!(tok, PdfToken::BeginDictionary);
    let tok = tr.next().unwrap();
    assert_eq!(tok, PdfToken::EndDictionary);
    let tok = tr.next().unwrap();
    assert_eq!(tok, PdfToken::BeginArray);
    let tok = tr.next().unwrap();
    assert_eq!(tok, PdfToken::EndArray);
}

#[test]
fn seek() {
    let mut tr = tokens("<< >> [ ] ");
    let _ = tr.seek(SeekFrom::Start(6));
    let tok = tr.next().unwrap();
    assert_eq!(tok, PdfToken::BeginArray);
    let tok = tr.next().unwrap();
    assert_eq!(tok, PdfToken::EndArray);
}

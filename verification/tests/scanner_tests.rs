use llpr::names::{pdf_keyword, pdf_name, PdfKeyword, PdfName};
use llpr::next_token::{
    is_real, next_token, nybble, octal_escape, parse_integer, skip_whitespace,
};
use llpr::pdf_source::{ByteSliceSource, ByteSource, SeekFrom, Source};
use llpr::pdf_types::PdfToken;
use llpr::PdfError;

fn token(text: &[u8]) -> Result<Option<PdfToken>, PdfError> {
    let mut source = ByteSliceSource::new(text);
    next_token(&mut source)
}

fn string_token(text: &[u8]) -> Vec<u8> {
    match token(text) {
        Ok(Some(PdfToken::Str(bytes))) => bytes,
        other => panic!("not a string: {:?}", other),
    }
}

#[test]
fn hex_string_takes_two_digits_to_a_byte() {
    assert_eq!(string_token(b"<>"), Vec::<u8>::new());
    assert_eq!(string_token(b"<a>"), vec![0xa0]);
    assert_eq!(string_token(b"<abc>"), vec![0xab, 0xc0]);
    assert_eq!(string_token(b"<deadbeef>"), vec![0xde, 0xad, 0xbe, 0xef]);
}

#[test]
fn hex_string_passes_over_white_space() {
    assert_eq!(string_token(b"<12 34>"), vec![0x12, 0x34]);
    assert_eq!(string_token(b"< 1\t2\n3\r4\x0c5 >"), vec![0x12, 0x34, 0x50]);
}

#[test]
fn hex_string_failures() {
    assert_eq!(token(b"<12"), Err(PdfError::EndOfFile));
    assert_eq!(token(b"<"), Err(PdfError::EndOfFile));
    assert_eq!(
        token(b"<1g>"),
        Err(PdfError::InvalidPdf("invalid hex character"))
    );
}

#[test]
fn octal_escapes_take_up_to_three_digits() {
    assert_eq!(string_token(b"(\\7)"), vec![7]);
    assert_eq!(string_token(b"(\\18)"), vec![1, b'8']);
    assert_eq!(string_token(b"(\\101)"), vec![b'A']);
    assert_eq!(string_token(b"(\\1234)"), vec![0o123, b'4']);
    assert_eq!(string_token(b"(\\0009)"), vec![0, b'9']);
    assert_eq!(string_token(b"(\\377)"), vec![255]);
    // Above 255 the high bits are lost.
    assert_eq!(string_token(b"(\\400)"), vec![0]);
    assert_eq!(string_token(b"(\\777)"), vec![255]);
}

#[test]
fn octal_escape_leaves_the_cursor_behind_its_digits() {
    let mut source = ByteSliceSource::new(b"23x");
    assert_eq!(octal_escape(&mut source, b'1'), Ok(0o123));
    assert_eq!(source.getch(), Ok(Some(b'x')));
    let mut source = ByteSliceSource::new(b"9");
    assert_eq!(octal_escape(&mut source, b'5'), Ok(5));
    assert_eq!(source.getch(), Ok(Some(b'9')));
    let mut source = ByteSliceSource::new(b"1");
    assert_eq!(octal_escape(&mut source, b'7'), Ok(0o71));
    assert_eq!(source.getch(), Ok(None));
}

#[test]
fn string_escapes() {
    assert_eq!(
        string_token(b"(\\n\\r\\t\\b\\f\\(\\)\\\\)"),
        vec![10, 13, 9, 8, 12, b'(', b')', b'\\']
    );
    // An escape that is not known is dropped with its byte.
    assert_eq!(string_token(b"(a\\qb)"), vec![b'a', b'b']);
}

#[test]
fn string_ends_at_the_end_of_the_input() {
    assert_eq!(string_token(b"(abc"), b"abc".to_vec());
    // One closing parenthesis is added for each level that is open.
    assert_eq!(string_token(b"(a(b(c"), b"a(b(c))".to_vec());
    assert_eq!(string_token(b"(a\\"), b"a".to_vec());
}

#[test]
fn keywords_are_looked_up_by_exact_spelling() {
    assert_eq!(pdf_keyword(b"obj"), PdfKeyword::obj);
    assert_eq!(pdf_keyword(b"Obj"), PdfKeyword::Unknown);
    assert_eq!(pdf_keyword(b"TJ"), PdfKeyword::TJ);
    assert_eq!(pdf_keyword(b"Tj"), PdfKeyword::Tj);
    assert_eq!(pdf_keyword(b"f"), PdfKeyword::f);
    assert_eq!(pdf_keyword(b"F"), PdfKeyword::F);
    assert_eq!(pdf_keyword(b""), PdfKeyword::Unknown);
    assert_eq!(pdf_keyword(b"true"), PdfKeyword::True);
    assert_eq!(pdf_keyword(b"startxref"), PdfKeyword::startxref);
    assert_eq!(PdfKeyword::endstream.text(), "endstream");
    assert_eq!(PdfKeyword::False.text(), "false");
}

#[test]
fn names_are_looked_up_by_exact_spelling() {
    assert_eq!(pdf_name(b"Root"), Some(PdfName::Root));
    assert_eq!(pdf_name(b"root"), None);
    assert_eq!(pdf_name(b"FlateDecode"), Some(PdfName::FlateDecode));
    assert_eq!(pdf_name(b"ASCII85Decode"), Some(PdfName::ASCII85Decode));
    assert_eq!(pdf_name(b"XObject"), Some(PdfName::XObject));
    assert_eq!(pdf_name(b"F1"), None);
    assert_eq!(pdf_name(b""), None);
    assert_eq!(PdfName::ViewerPreferences.text(), "ViewerPreferences");
}

#[test]
fn every_keyword_and_name_is_found_by_its_text() {
    for word in [
        PdfKeyword::obj,
        PdfKeyword::endobj,
        PdfKeyword::stream,
        PdfKeyword::R,
        PdfKeyword::n,
        PdfKeyword::null,
        PdfKeyword::BT,
        PdfKeyword::scn,
        PdfKeyword::y,
    ] {
        assert_eq!(pdf_keyword(word.text().as_bytes()), word);
    }
    for name in [
        PdfName::AA,
        PdfName::Page,
        PdfName::Pages,
        PdfName::Prev,
        PdfName::Size,
        PdfName::Type,
        PdfName::XObject,
    ] {
        assert_eq!(pdf_name(name.text().as_bytes()), Some(name));
    }
}

#[test]
fn name_escapes() {
    assert_eq!(token(b"/A#42C "), Ok(Some(PdfToken::Symbol(b"ABC".to_vec()))));
    assert_eq!(token(b"/Ro#6ft "), Ok(Some(PdfToken::Name(PdfName::Root))));
    assert_eq!(token(b"/#ff"), Ok(Some(PdfToken::Symbol(vec![0xff]))));
    assert_eq!(token(b"/A#4"), Err(PdfError::EndOfFile));
    assert_eq!(
        token(b"/A#4x "),
        Err(PdfError::InvalidPdf("invalid hex character"))
    );
    // A name runs up to white space, not up to a bracket.
    assert_eq!(token(b"/Type/Page "), Ok(Some(PdfToken::Symbol(b"Type/Page".to_vec()))));
    assert_eq!(token(b"/"), Ok(Some(PdfToken::Symbol(vec![]))));
}

#[test]
fn nybbles() {
    assert_eq!(nybble(Some(b'0')), Ok(0));
    assert_eq!(nybble(Some(b'9')), Ok(9));
    assert_eq!(nybble(Some(b'a')), Ok(10));
    assert_eq!(nybble(Some(b'F')), Ok(15));
    assert_eq!(nybble(None), Err(PdfError::EndOfFile));
    assert_eq!(
        nybble(Some(b'G')),
        Err(PdfError::InvalidPdf("invalid hex character"))
    );
}

#[test]
fn integers_at_the_limits() {
    assert_eq!(parse_integer(b"9223372036854775807"), Ok(i64::MAX));
    assert_eq!(parse_integer(b"-9223372036854775808"), Ok(i64::MIN));
    assert_eq!(parse_integer(b"+0000000000000000000000000007"), Ok(7));
    assert_eq!(parse_integer(b"9223372036854775808"), Err(PdfError::ParseIntError));
    assert_eq!(parse_integer(b"-9223372036854775809"), Err(PdfError::ParseIntError));
    assert_eq!(parse_integer(b"99999999999999999999999"), Err(PdfError::ParseIntError));
    assert_eq!(parse_integer(b""), Err(PdfError::ParseIntError));
    assert_eq!(parse_integer(b"+"), Err(PdfError::ParseIntError));
    assert_eq!(parse_integer(b"-"), Err(PdfError::ParseIntError));
    assert_eq!(parse_integer(b"12a"), Err(PdfError::ParseIntError));
}

#[test]
fn number_failures() {
    assert_eq!(token(b"+ "), Err(PdfError::ParseIntError));
    assert_eq!(token(b"- "), Err(PdfError::ParseIntError));
    assert_eq!(token(b". "), Err(PdfError::ParseFloatError));
    assert_eq!(token(b"1.2.3 "), Err(PdfError::ParseFloatError));
    assert_eq!(token(b"+. "), Err(PdfError::ParseFloatError));
    assert_eq!(token(b"99999999999999999999 "), Err(PdfError::ParseIntError));
}

#[test]
fn real_literals() {
    assert!(is_real(b"1.5"));
    assert!(is_real(b"-.5"));
    assert!(is_real(b"+5."));
    assert!(is_real(b"00.00"));
    assert!(!is_real(b"."));
    assert!(!is_real(b"-."));
    assert!(!is_real(b"15"));
    assert!(!is_real(b"1..5"));
    assert!(!is_real(b"1.5e3"));
    assert!(!is_real(b""));
    assert_eq!(token(b"-12.50 x"), Ok(Some(PdfToken::Real(b"-12.50".to_vec()))));
}

#[test]
fn syntax_errors() {
    assert_eq!(token(b"> "), Err(PdfError::InvalidPdf("syntax error")));
    assert_eq!(token(b">"), Err(PdfError::InvalidPdf("syntax error")));
    assert_eq!(token(b"*"), Err(PdfError::InvalidPdf("syntax error")));
    assert_eq!(token(b")"), Err(PdfError::InvalidPdf("syntax error")));
}

#[test]
fn comments_and_white_space_are_skipped() {
    let mut source = ByteSliceSource::new(b" \t\r\n\x0c% a comment ( [ <<\n %another\n  obj");
    assert_eq!(skip_whitespace(&mut source), Ok(()));
    assert_eq!(source.seek(SeekFrom::Current(0)), Ok(36));
    assert_eq!(next_token(&mut source), Ok(Some(PdfToken::Keyword(PdfKeyword::obj))));
    assert_eq!(next_token(&mut source), Ok(None));
    // A comment that the input ends in.
    assert_eq!(token(b"% nothing more"), Ok(None));
}

#[test]
fn a_token_at_the_end_of_the_input_is_read_once() {
    let mut source = ByteSliceSource::new(b"12345");
    assert_eq!(next_token(&mut source), Ok(Some(PdfToken::Integer(12345))));
    assert_eq!(next_token(&mut source), Ok(None));
    let mut source = ByteSliceSource::new(b"/Root");
    assert_eq!(next_token(&mut source), Ok(Some(PdfToken::Name(PdfName::Root))));
    assert_eq!(next_token(&mut source), Ok(None));
    let mut source = ByteSliceSource::new(b"ET");
    assert_eq!(next_token(&mut source), Ok(Some(PdfToken::Keyword(PdfKeyword::ET))));
    assert_eq!(next_token(&mut source), Ok(None));
}

#[test]
fn tokens_end_where_the_next_begins() {
    let mut source = ByteSliceSource::new(b"12[true]<</Size 3>>(a)<62>endobj");
    let expected = vec![
        PdfToken::Integer(12),
        PdfToken::BeginArray,
        PdfToken::Keyword(PdfKeyword::True),
        PdfToken::EndArray,
        PdfToken::BeginDictionary,
        PdfToken::Name(PdfName::Size),
        PdfToken::Integer(3),
        PdfToken::EndDictionary,
        PdfToken::Str(vec![b'a']),
        PdfToken::Str(vec![b'b']),
        PdfToken::Keyword(PdfKeyword::endobj),
    ];
    for token in expected {
        assert_eq!(next_token(&mut source), Ok(Some(token)));
    }
    assert_eq!(next_token(&mut source), Ok(None));
}

#[test]
fn source_seek_read_and_pushback() {
    let mut source = ByteSource::new(b"0123456789".to_vec());
    assert_eq!(source.getch(), Ok(Some(b'0')));
    assert_eq!(source.getch(), Ok(Some(b'1')));
    source.backup();
    assert_eq!(source.getch(), Ok(Some(b'1')));
    assert_eq!(source.seek(SeekFrom::Start(8)), Ok(8));
    assert_eq!(source.read(5), b"89".to_vec());
    assert_eq!(source.read(5), Vec::<u8>::new());
    assert_eq!(source.getch(), Ok(None));
    assert_eq!(source.seek(SeekFrom::End(-3)), Ok(7));
    assert_eq!(source.read(2), b"78".to_vec());
    assert_eq!(source.seek(SeekFrom::Current(-4)), Ok(5));
    assert_eq!(source.seek(SeekFrom::Current(0)), Ok(5));
    assert_eq!(source.seek(SeekFrom::Current(-6)), Err(PdfError::IoError));
    assert_eq!(source.seek(SeekFrom::Current(0)), Ok(5));
    assert_eq!(source.seek(SeekFrom::End(-11)), Err(PdfError::IoError));
    assert_eq!(source.seek(SeekFrom::Start(0)), Ok(0));
    source.backup();
    assert_eq!(source.getch(), Ok(Some(b'0')));
    // Beyond the end nothing is read.
    assert_eq!(source.seek(SeekFrom::End(4)), Ok(14));
    assert_eq!(source.getch(), Ok(None));
    assert_eq!(source.read(3), Vec::<u8>::new());
    assert_eq!(source.seek(SeekFrom::Current(0)), Ok(14));
    assert_eq!(source.seek(SeekFrom::Start(u64::MAX)), Ok(u64::MAX));
    assert_eq!(source.seek(SeekFrom::Current(1)), Err(PdfError::IoError));
}

#[test]
fn error_texts() {
    assert_eq!(PdfError::EndOfFile.message(), "unexpected end of file");
    assert_eq!(
        PdfError::InvalidPdf("no trailer").message(),
        "invalid pdf file: no trailer"
    );
    assert_eq!(
        PdfError::KeywordExpected(PdfKeyword::endobj).message(),
        "pdf keyword expected: endobj"
    );
    assert_eq!(
        PdfError::DecompressionError("bad data".to_string()).message(),
        "decompression error: bad data"
    );
    assert_eq!(PdfError::InvalidPageNumber.kind(), "invalid page number");
}

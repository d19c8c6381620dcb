//! The token scanner.
//!
//! `token_at` says, for any bytes and any cursor, which token is read next and
//! where the cursor stands afterwards.  `next_token` reads that token from a
//! source.  Where scanning fails the contract names the failure and leaves the
//! cursor open.

use vstd::prelude::*;
use crate::errors::PdfError;
use crate::names::{keyword_of, name_of, pdf_keyword, pdf_name};
use crate::pdf_source::{byte_at, Source};
use crate::pdf_types::{PdfToken, TokenView};

verus! {

pub const TAB: u8 = 0x09;

pub const LINE_FEED: u8 = 0x0a;

pub const FORM_FEED: u8 = 0x0c;

pub const CARRIAGE_RETURN: u8 = 0x0d;

pub const SPACE: u8 = 0x20;

pub const HASH: u8 = 0x23;

pub const PERCENT: u8 = 0x25;

pub const LEFT_PAREN: u8 = 0x28;

pub const RIGHT_PAREN: u8 = 0x29;

pub const PLUS: u8 = 0x2b;

pub const MINUS: u8 = 0x2d;

pub const POINT: u8 = 0x2e;

pub const SOLIDUS: u8 = 0x2f;

pub const DIGIT_ZERO: u8 = 0x30;

pub const LESS_THAN: u8 = 0x3c;

pub const GREATER_THAN: u8 = 0x3e;

pub const LEFT_BRACKET: u8 = 0x5b;

pub const BACKSLASH: u8 = 0x5c;

pub const RIGHT_BRACKET: u8 = 0x5d;

/// Space, tab, line feed, carriage return and form feed.
#[verifier::allow_in_spec]
pub fn is_whitespace(c: u8) -> bool
    returns
        c == SPACE || c == TAB || c == LINE_FEED || c == CARRIAGE_RETURN || c == FORM_FEED,
{
    c == SPACE || c == TAB || c == LINE_FEED || c == CARRIAGE_RETURN || c == FORM_FEED
}

/// The letters `A` to `Z` and `a` to `z`.
#[verifier::allow_in_spec]
pub fn is_letter(c: u8) -> bool
    returns
        (0x41 <= c && c <= 0x5a) || (0x61 <= c && c <= 0x7a),
{
    (0x41 <= c && c <= 0x5a) || (0x61 <= c && c <= 0x7a)
}

/// The digits `0` to `9`.
#[verifier::allow_in_spec]
pub fn is_digit(c: u8) -> bool
    returns
        0x30 <= c && c <= 0x39,
{
    0x30 <= c && c <= 0x39
}

/// The digits `0` to `7`.
#[verifier::allow_in_spec]
pub fn is_octal(c: u8) -> bool
    returns
        0x30 <= c && c <= 0x37,
{
    0x30 <= c && c <= 0x37
}

/// A byte that can start a number: a sign, a point or a digit.
#[verifier::allow_in_spec]
pub fn starts_number(c: u8) -> bool
    returns
        c == PLUS || c == MINUS || c == POINT || (0x30 <= c && c <= 0x39),
{
    c == PLUS || c == MINUS || c == POINT || (0x30 <= c && c <= 0x39)
}

/// The value of a hexadecimal digit, in either case.
pub open spec fn hex_value(c: u8) -> Option<u8> {
    if 0x30 <= c <= 0x39 {
        Some((c - 0x30) as u8)
    } else if 0x41 <= c <= 0x46 {
        Some((c - 0x41 + 10) as u8)
    } else if 0x61 <= c <= 0x66 {
        Some((c - 0x61 + 10) as u8)
    } else {
        None
    }
}

/// What a byte read as a hexadecimal digit gives: its value, or the failure
/// for the end of the input or for any other byte.
pub open spec fn nybble_of(ch: Option<u8>) -> Result<u8, PdfError> {
    match ch {
        None => Err(PdfError::EndOfFile),
        Some(c) => match hex_value(c) {
            Some(v) => Ok(v),
            None => Err(PdfError::InvalidPdf("invalid hex character")),
        },
    }
}

/// Reads a byte as a hexadecimal digit.
pub fn nybble(ch: Option<u8>) -> (r: Result<u8, PdfError>)
    ensures
        r == nybble_of(ch),
        r matches Ok(v) ==> v < 16,
{
    match ch {
        None => Err(PdfError::EndOfFile),
        Some(c) => {
            if 0x30 <= c && c <= 0x39 {
                Ok(c - 0x30)
            } else if 0x41 <= c && c <= 0x46 {
                Ok(c - 0x41 + 10)
            } else if 0x61 <= c && c <= 0x66 {
                Ok(c - 0x61 + 10)
            } else {
                Err(PdfError::InvalidPdf("invalid hex character"))
            }
        },
    }
}

/// The cursor after white space and comments: the first position from `pos`
/// on that holds a byte of a token, or the end.  A comment runs from `%` to
/// the next line feed.
pub open spec fn after_blanks(s: Seq<u8>, pos: nat, in_comment: bool) -> nat
    decreases s.len() - pos,
{
    if pos >= s.len() {
        pos
    } else if in_comment {
        after_blanks(s, pos + 1, s[pos as int] != LINE_FEED)
    } else if s[pos as int] == PERCENT {
        after_blanks(s, pos + 1, true)
    } else if is_whitespace(s[pos as int]) {
        after_blanks(s, pos + 1, false)
    } else {
        pos
    }
}

/// Moves the cursor past white space and comments.
pub fn skip_whitespace<S: Source>(source: &mut S) -> (r: Result<(), PdfError>)
    ensures
        final(source).content() == old(source).content(),
        r is Ok,
        final(source).cursor() == after_blanks(
            old(source).content(),
            old(source).cursor(),
            false,
        ),
{
    let mut in_comment = false;
    loop
        invariant
            source.content() == old(source).content(),
            after_blanks(source.content(), source.cursor(), in_comment) == after_blanks(
                old(source).content(),
                old(source).cursor(),
                false,
            ),
        decreases source.content().len() - source.cursor(),
    {
        match source.getch()? {
            None => {
                return Ok(());
            },
            Some(c) => {
                if in_comment {
                    if c == LINE_FEED {
                        in_comment = false;
                    }
                } else if c == PERCENT {
                    in_comment = true;
                } else if !is_whitespace(c) {
                    source.backup();
                    return Ok(());
                }
            },
        }
    }
}

/// The end of the run of letters that starts at `pos`.
pub open spec fn letters_end(s: Seq<u8>, pos: nat) -> nat
    decreases s.len() - pos,
{
    if pos < s.len() && is_letter(s[pos as int]) {
        letters_end(s, pos + 1)
    } else {
        pos
    }
}

/// The keyword token whose first letter stands at `start`.
pub open spec fn keyword_at(s: Seq<u8>, start: nat) -> (TokenView, nat) {
    let end = letters_end(s, start + 1);
    (TokenView::Keyword(keyword_of(s.subrange(start as int, end as int))), end)
}

/// A run of letters never ends before it starts, nor beyond the bytes.
pub proof fn lemma_letters_end(s: Seq<u8>, pos: nat)
    ensures
        pos <= letters_end(s, pos),
        pos <= s.len() ==> letters_end(s, pos) <= s.len(),
    decreases s.len() - pos,
{
    if pos < s.len() && is_letter(s[pos as int]) {
        lemma_letters_end(s, pos + 1);
    }
}

/// Reads the rest of a keyword whose first letter, `first`, was just read.
fn keyword<S: Source>(source: &mut S, first: u8) -> (r: Result<Option<PdfToken>, PdfError>)
    requires
        old(source).cursor() >= 1,
        byte_at(old(source).content(), (old(source).cursor() - 1) as nat) == Some(first),
    ensures
        final(source).content() == old(source).content(),
        r matches Ok(Some(token)) && (token@, final(source).cursor()) == keyword_at(
            old(source).content(),
            (old(source).cursor() - 1) as nat,
        ),
{
    let ghost s = source.content();
    let ghost start = (source.cursor() - 1) as nat;
    let mut lexeme: Vec<u8> = Vec::new();
    lexeme.push(first);
    assert(lexeme@ =~= s.subrange(start as int, start as int + 1));
    loop
        invariant
            source.content() == s,
            s == old(source).content(),
            start == old(source).cursor() - 1,
            start < source.cursor() <= s.len(),
            lexeme@ == s.subrange(start as int, source.cursor() as int),
            letters_end(s, source.cursor()) == letters_end(s, start + 1),
        decreases s.len() - source.cursor(),
    {
        match source.getch()? {
            Some(c) => {
                if is_letter(c) {
                    lexeme.push(c);
                    assert(lexeme@ =~= s.subrange(start as int, source.cursor() as int));
                } else {
                    source.backup();
                    return Ok(Some(PdfToken::Keyword(pdf_keyword(lexeme.as_slice()))));
                }
            },
            None => {
                return Ok(Some(PdfToken::Keyword(pdf_keyword(lexeme.as_slice()))));
            },
        }
    }
}

/// The end of the run of digits and points that starts at `pos`.
pub open spec fn digits_end(s: Seq<u8>, pos: nat) -> nat
    decreases s.len() - pos,
{
    if pos < s.len() && (is_digit(s[pos as int]) || s[pos as int] == POINT) {
        digits_end(s, pos + 1)
    } else {
        pos
    }
}

/// A run of digits and points never ends before it starts, nor beyond the bytes.
pub proof fn lemma_digits_end(s: Seq<u8>, pos: nat)
    ensures
        pos <= digits_end(s, pos),
        pos <= s.len() ==> digits_end(s, pos) <= s.len(),
    decreases s.len() - pos,
{
    if pos < s.len() && (is_digit(s[pos as int]) || s[pos as int] == POINT) {
        lemma_digits_end(s, pos + 1);
    }
}

/// Whether every byte is a decimal digit.
pub open spec fn all_digits(digits: Seq<u8>) -> bool {
    forall|i: int| 0 <= i < digits.len() ==> is_digit(#[trigger] digits[i])
}

/// The number that decimal digits write.
pub open spec fn digits_value(digits: Seq<u8>) -> nat
    decreases digits.len(),
{
    if digits.len() == 0 {
        0
    } else {
        (digits_value(digits.drop_last()) * 10 + (digits.last() - DIGIT_ZERO)) as nat
    }
}

/// Whether a literal starts with a sign.
pub open spec fn is_signed(lexeme: Seq<u8>) -> bool {
    lexeme.len() > 0 && (lexeme[0] == PLUS || lexeme[0] == MINUS)
}

/// A literal without its sign.
pub open spec fn unsigned_part(lexeme: Seq<u8>) -> Seq<u8> {
    if is_signed(lexeme) {
        lexeme.subrange(1, lexeme.len() as int)
    } else {
        lexeme
    }
}

/// The integer that a literal writes: an optional sign and at least one
/// digit, with a value that fits in 64 bits.
pub open spec fn integer_of(lexeme: Seq<u8>) -> Option<i64> {
    let digits = unsigned_part(lexeme);
    let value: int = if lexeme.len() > 0 && lexeme[0] == MINUS {
        -(digits_value(digits) as int)
    } else {
        digits_value(digits) as int
    };
    if digits.len() > 0 && all_digits(digits) && i64::MIN <= value <= i64::MAX {
        Some(value as i64)
    } else {
        None
    }
}

/// How many points the bytes hold.
pub open spec fn points(digits: Seq<u8>) -> nat
    decreases digits.len(),
{
    if digits.len() == 0 {
        0
    } else {
        points(digits.drop_last()) + if digits.last() == POINT {
            1nat
        } else {
            0nat
        }
    }
}

/// Whether a literal writes a decimal number: an optional sign, then digits
/// around exactly one point, at least one digit among them.
pub open spec fn is_real_literal(lexeme: Seq<u8>) -> bool {
    let body = unsigned_part(lexeme);
    &&& forall|i: int| 0 <= i < body.len() ==> is_digit(#[trigger] body[i]) || body[i] == POINT
    &&& points(body) == 1
    &&& body.len() >= 2
}

/// The number token whose first byte stands at `start`: the run of digits and
/// points behind that byte decides where it ends, a point anywhere in it
/// makes it a real.
pub open spec fn number_at(s: Seq<u8>, start: nat) -> Result<(TokenView, nat), PdfError> {
    let end = digits_end(s, start + 1);
    let lexeme = s.subrange(start as int, end as int);
    if points(lexeme) > 0 {
        if is_real_literal(lexeme) {
            Ok((TokenView::Real(lexeme), end))
        } else {
            Err(PdfError::ParseFloatError)
        }
    } else {
        match integer_of(lexeme) {
            Some(value) => Ok((TokenView::Integer(value), end)),
            None => Err(PdfError::ParseIntError),
        }
    }
}

/// The value of the first digits is no more than the value of all of them.
pub proof fn lemma_value_grows(digits: Seq<u8>, i: int)
    requires
        all_digits(digits),
        0 <= i <= digits.len(),
    ensures
        digits_value(digits.subrange(0, i)) <= digits_value(digits),
    decreases digits.len() - i,
{
    if i == digits.len() {
        assert(digits.subrange(0, i) =~= digits);
    } else {
        let longer = digits.subrange(0, i + 1);
        assert(longer.drop_last() =~= digits.subrange(0, i));
        assert(is_digit(digits[i]));
        assert(longer.last() == digits[i]);
        lemma_value_grows(digits, i + 1);
    }
}

/// Reads an integer literal.
pub fn parse_integer(lexeme: &[u8]) -> (r: Result<i64, PdfError>)
    ensures
        match integer_of(lexeme@) {
            Some(value) => r == Ok::<i64, PdfError>(value),
            None => r == Err::<i64, PdfError>(PdfError::ParseIntError),
        },
{
    let n = lexeme.len();
    if n == 0 {
        return Err(PdfError::ParseIntError);
    }
    let negative = lexeme[0] == MINUS;
    let from: usize = if lexeme[0] == MINUS || lexeme[0] == PLUS {
        1
    } else {
        0
    };
    let ghost digits = unsigned_part(lexeme@);
    if from == n {
        return Err(PdfError::ParseIntError);
    }
    let limit: u64 = 0x8000_0000_0000_0000;
    let mut value: u64 = 0;
    let mut i: usize = from;
    assert(digits.subrange(0, 0) =~= Seq::<u8>::empty());
    while i < n
        invariant
            n == lexeme@.len(),
            from <= i <= n,
            digits == lexeme@.subrange(from as int, n as int),
            digits == unsigned_part(lexeme@),
            limit == 0x8000_0000_0000_0000,
            value <= limit,
            value == digits_value(digits.subrange(0, i - from)),
            forall|j: int| 0 <= j < i - from ==> is_digit(#[trigger] digits[j]),
        decreases n - i,
    {
        let c = lexeme[i];
        if !is_digit(c) {
            assert(!is_digit(digits[i - from]));
            return Err(PdfError::ParseIntError);
        }
        proof {
            let longer = digits.subrange(0, i + 1 - from);
            assert(longer.drop_last() =~= digits.subrange(0, i - from));
            assert(longer.last() == c);
        }
        if value > (limit - (c - DIGIT_ZERO) as u64) / 10 {
            proof {
                if all_digits(digits) {
                    lemma_value_grows(digits, i + 1 - from);
                }
            }
            return Err(PdfError::ParseIntError);
        }
        value = value * 10 + (c - DIGIT_ZERO) as u64;
        i = i + 1;
    }
    assert(digits.subrange(0, n - from) =~= digits);
    if negative {
        if value == limit {
            Ok(i64::MIN)
        } else {
            Ok(-(value as i64))
        }
    } else if value == limit {
        Err(PdfError::ParseIntError)
    } else {
        Ok(value as i64)
    }
}

/// Whether the bytes hold a point, with the count for the proof.
fn has_point(lexeme: &[u8]) -> (found: bool)
    ensures
        found == (points(lexeme@) > 0),
{
    let mut i: usize = 0;
    let mut found = false;
    assert(lexeme@.subrange(0, 0) =~= Seq::<u8>::empty());
    while i < lexeme.len()
        invariant
            i <= lexeme.len() == lexeme@.len(),
            found == (points(lexeme@.subrange(0, i as int)) > 0),
        decreases lexeme.len() - i,
    {
        if lexeme[i] == POINT {
            found = true;
        }
        i = i + 1;
        assert(lexeme@.subrange(0, i as int).drop_last() =~= lexeme@.subrange(0, i - 1));
    }
    assert(lexeme@.subrange(0, i as int) =~= lexeme@);
    found
}

/// Whether the bytes write a decimal number with a point.
pub fn is_real(lexeme: &[u8]) -> (r: bool)
    ensures
        r == is_real_literal(lexeme@),
{
    let n = lexeme.len();
    let from: usize = if n > 0 && (lexeme[0] == MINUS || lexeme[0] == PLUS) {
        1
    } else {
        0
    };
    let ghost body = unsigned_part(lexeme@);
    let mut count: usize = 0;
    let mut i: usize = from;
    assert(body.subrange(0, 0) =~= Seq::<u8>::empty());
    while i < n
        invariant
            n == lexeme@.len(),
            from <= i <= n,
            body == lexeme@.subrange(from as int, n as int),
            body == unsigned_part(lexeme@),
            count == points(body.subrange(0, i - from)),
            count <= i - from,
            forall|j: int| 0 <= j < i - from ==> is_digit(#[trigger] body[j]) || body[j] == POINT,
        decreases n - i,
    {
        let c = lexeme[i];
        if c == POINT {
            count = count + 1;
        } else if !is_digit(c) {
            assert(!(is_digit(body[i - from]) || body[i - from] == POINT));
            return false;
        }
        i = i + 1;
        assert(body.subrange(0, i - from).drop_last() =~= body.subrange(0, i - 1 - from));
    }
    assert(body.subrange(0, n - from) =~= body);
    count == 1 && n - from >= 2
}

/// Reads the rest of a number whose first byte, `first`, was just read.
fn number<S: Source>(source: &mut S, first: u8) -> (r: Result<Option<PdfToken>, PdfError>)
    requires
        old(source).cursor() >= 1,
        byte_at(old(source).content(), (old(source).cursor() - 1) as nat) == Some(first),
    ensures
        final(source).content() == old(source).content(),
        match number_at(old(source).content(), (old(source).cursor() - 1) as nat) {
            Ok((view, end)) => r matches Ok(Some(token)) && token@ == view && final(source).cursor() == end,
            Err(e) => r == Err::<Option<PdfToken>, PdfError>(e),
        },
{
    let ghost s = source.content();
    let ghost start = (source.cursor() - 1) as nat;
    let mut lexeme: Vec<u8> = Vec::new();
    lexeme.push(first);
    assert(lexeme@ =~= s.subrange(start as int, start as int + 1));
    loop
        invariant_except_break
            source.content() == s,
            s == old(source).content(),
            start == old(source).cursor() - 1,
            start < source.cursor() <= s.len(),
            lexeme@ == s.subrange(start as int, source.cursor() as int),
            digits_end(s, source.cursor()) == digits_end(s, start + 1),
        ensures
            source.content() == s,
            source.cursor() == digits_end(s, start + 1),
            lexeme@ == s.subrange(start as int, source.cursor() as int),
        decreases s.len() - source.cursor(),
    {
        match source.getch()? {
            Some(c) => {
                if is_digit(c) || c == POINT {
                    lexeme.push(c);
                    assert(lexeme@ =~= s.subrange(start as int, source.cursor() as int));
                } else {
                    source.backup();
                    break ;
                }
            },
            None => {
                break ;
            },
        }
    }
    if has_point(lexeme.as_slice()) {
        if is_real(lexeme.as_slice()) {
            Ok(Some(PdfToken::Real(lexeme)))
        } else {
            Err(PdfError::ParseFloatError)
        }
    } else {
        let value = parse_integer(lexeme.as_slice())?;
        Ok(Some(PdfToken::Integer(value)))
    }
}

/// The bytes of a name from `pos` on, with every `#` and its two
/// hexadecimal digits replaced by the byte they write, up to the next white
/// space or the end.  `acc` holds the bytes read so far.
pub open spec fn name_scan(s: Seq<u8>, pos: nat, acc: Seq<u8>) -> Result<(Seq<u8>, nat), PdfError>
    decreases s.len() - pos,
{
    if pos >= s.len() || is_whitespace(s[pos as int]) {
        Ok((acc, pos))
    } else if s[pos as int] == HASH {
        match nybble_of(byte_at(s, pos + 1)) {
            Err(e) => Err(e),
            Ok(high) => match nybble_of(byte_at(s, pos + 2)) {
                Err(e) => Err(e),
                Ok(low) => name_scan(s, pos + 3, acc.push((high * 16 + low) as u8)),
            },
        }
    } else {
        name_scan(s, pos + 1, acc.push(s[pos as int]))
    }
}

/// The token for the bytes of a name: the well-known name that they spell,
/// or a symbol that carries them.
pub open spec fn name_token(bytes: Seq<u8>) -> TokenView {
    match name_of(bytes) {
        Some(name) => TokenView::Name(name),
        None => TokenView::Symbol(bytes),
    }
}

/// The name token whose solidus stands just before `pos`.
pub open spec fn name_at(s: Seq<u8>, pos: nat) -> Result<(TokenView, nat), PdfError> {
    match name_scan(s, pos, Seq::empty()) {
        Ok((bytes, end)) => Ok((name_token(bytes), end)),
        Err(e) => Err(e),
    }
}

/// Reads a name whose solidus was just read.
fn name_or_symbol<S: Source>(source: &mut S) -> (r: Result<Option<PdfToken>, PdfError>)
    ensures
        final(source).content() == old(source).content(),
        match name_at(old(source).content(), old(source).cursor()) {
            Ok((view, end)) => r matches Ok(Some(token)) && token@ == view && final(source).cursor()
                == end,
            Err(e) => r == Err::<Option<PdfToken>, PdfError>(e),
        },
{
    let ghost s = source.content();
    let ghost start = source.cursor();
    let mut name: Vec<u8> = Vec::new();
    loop
        invariant_except_break
            source.content() == s,
            s == old(source).content(),
            start == old(source).cursor(),
            name_scan(s, source.cursor(), name@) == name_scan(s, start, Seq::empty()),
        ensures
            source.content() == s,
            name_scan(s, start, Seq::empty()) == Ok::<(Seq<u8>, nat), PdfError>(
                (name@, source.cursor()),
            ),
        decreases s.len() - source.cursor(),
    {
        match source.getch()? {
            None => {
                break ;
            },
            Some(c) => {
                if is_whitespace(c) {
                    source.backup();
                    break ;
                } else if c == HASH {
                    let high = nybble(source.getch()?)?;
                    let low = nybble(source.getch()?)?;
                    name.push(high * 16 + low);
                } else {
                    name.push(c);
                }
            },
        }
    }
    match pdf_name(name.as_slice()) {
        Some(known) => Ok(Some(PdfToken::Name(known))),
        None => Ok(Some(PdfToken::Symbol(name))),
    }
}

/// The byte that an octal escape writes, and the cursor behind the escape.
/// `first` is its first digit and `pos` the position behind that digit: up to
/// two more octal digits are taken, and a value above 255 loses its high bits.
pub open spec fn octal_at(s: Seq<u8>, pos: nat, first: u8) -> (u8, nat) {
    let one = first - DIGIT_ZERO;
    if pos < s.len() && is_octal(s[pos as int]) {
        let two = one * 8 + (s[pos as int] - DIGIT_ZERO);
        if pos + 1 < s.len() && is_octal(s[pos + 1 as int]) {
            (((two * 8 + (s[pos + 1 as int] - DIGIT_ZERO)) % 256) as u8, pos + 2)
        } else {
            (two as u8, pos + 1)
        }
    } else {
        (one as u8, pos)
    }
}

/// Reads the rest of an octal escape whose first digit, `first`, was just read.
pub fn octal_escape<S: Source>(source: &mut S, first: u8) -> (r: Result<u8, PdfError>)
    requires
        is_octal(first),
    ensures
        final(source).content() == old(source).content(),
        r matches Ok(byte) && (byte, final(source).cursor()) == octal_at(
            old(source).content(),
            old(source).cursor(),
            first,
        ),
{
    let one: u16 = (first - DIGIT_ZERO) as u16;
    match source.getch()? {
        Some(second) => {
            if !is_octal(second) {
                source.backup();
                return Ok(one as u8);
            }
            let two: u16 = one * 8 + (second - DIGIT_ZERO) as u16;
            match source.getch()? {
                Some(third) => {
                    if !is_octal(third) {
                        source.backup();
                        return Ok(two as u8);
                    }
                    let three: u16 = two * 8 + (third - DIGIT_ZERO) as u16;
                    Ok((three % 256) as u8)
                },
                None => Ok(two as u8),
            }
        },
        None => Ok(one as u8),
    }
}

/// What a backslash and one further byte write, for the escapes that are
/// not octal.
pub open spec fn escaped(c: u8) -> Option<u8> {
    if c == 0x6e {
        Some(LINE_FEED)
    } else if c == 0x72 {
        Some(CARRIAGE_RETURN)
    } else if c == 0x74 {
        Some(TAB)
    } else if c == 0x62 {
        Some(0x08u8)
    } else if c == 0x66 {
        Some(FORM_FEED)
    } else if c == LEFT_PAREN || c == RIGHT_PAREN || c == BACKSLASH {
        Some(c)
    } else {
        None
    }
}

/// As many closing parentheses as there are levels open.
pub open spec fn closing(depth: nat) -> Seq<u8> {
    Seq::new(depth, |i: int| RIGHT_PAREN)
}

/// The bytes of a literal string from `pos` on, and the cursor behind it.
/// `depth` counts the parentheses that are open inside the string and `acc`
/// holds the bytes read so far.  Balanced parentheses belong to the string;
/// a backslash starts an escape, and one that is not known is dropped with
/// the byte behind it.  At the end of the input the string ends, after one
/// closing parenthesis for each level still open.
pub open spec fn string_scan(s: Seq<u8>, pos: nat, depth: nat, acc: Seq<u8>) -> (Seq<u8>, nat)
    decreases s.len() - pos,
{
    if pos >= s.len() {
        (acc + closing(depth), pos)
    } else {
        let c = s[pos as int];
        if c == LEFT_PAREN {
            string_scan(s, pos + 1, depth + 1, acc.push(c))
        } else if c == RIGHT_PAREN {
            if depth == 0 {
                (acc, pos + 1)
            } else {
                string_scan(s, pos + 1, (depth - 1) as nat, acc.push(c))
            }
        } else if c == BACKSLASH {
            if pos + 1 >= s.len() {
                string_scan(s, pos + 1, depth, acc)
            } else if is_octal(s[pos + 1 as int]) {
                let (byte, end) = octal_at(s, pos + 2, s[pos + 1 as int]);
                string_scan(s, end, depth, acc.push(byte))
            } else {
                match escaped(s[pos + 1 as int]) {
                    Some(byte) => string_scan(s, pos + 2, depth, acc.push(byte)),
                    None => string_scan(s, pos + 2, depth, acc),
                }
            }
        } else {
            string_scan(s, pos + 1, depth, acc.push(c))
        }
    }
}

/// The string token whose opening parenthesis stands just before `pos`.
pub open spec fn string_at(s: Seq<u8>, pos: nat) -> (TokenView, nat) {
    let (bytes, end) = string_scan(s, pos, 0, Seq::empty());
    (TokenView::Str(bytes), end)
}

/// Reads a literal string whose opening parenthesis was just read.
fn string<S: Source>(source: &mut S) -> (r: Result<Option<PdfToken>, PdfError>)
    ensures
        final(source).content() == old(source).content(),
        r matches Ok(Some(token)) && (token@, final(source).cursor()) == string_at(
            old(source).content(),
            old(source).cursor(),
        ),
{
    let ghost s = source.content();
    let ghost start = source.cursor();
    let ghost whole = string_scan(s, start, 0, Seq::empty());
    let mut nesting: usize = 0;
    let mut string: Vec<u8> = Vec::new();
    loop
        invariant_except_break
            source.content() == s,
            s == old(source).content(),
            start == old(source).cursor(),
            whole == string_scan(s, start, 0, Seq::empty()),
            string_scan(s, source.cursor(), nesting as nat, string@) == whole,
            start + nesting <= source.cursor(),
        ensures
            source.content() == s,
            s == old(source).content(),
            start == old(source).cursor(),
            whole == string_scan(s, start, 0, Seq::empty()),
            whole == (string@ + closing(nesting as nat), source.cursor()),
        decreases s.len() - source.cursor(),
    {
        proof {
            source.bounds();
        }
        match source.getch()? {
            None => {
                break ;
            },
            Some(c) => {
                if c == LEFT_PAREN {
                    string.push(c);
                    nesting = nesting + 1;
                } else if c == RIGHT_PAREN {
                    if nesting == 0 {
                        assert(string@ + closing(0) =~= string@);
                        break ;
                    }
                    string.push(c);
                    nesting = nesting - 1;
                } else if c == BACKSLASH {
                    match source.getch()? {
                        None => {},
                        Some(e) => {
                            if is_octal(e) {
                                let byte = octal_escape(source, e)?;
                                string.push(byte);
                            } else if e == 0x6e {
                                string.push(LINE_FEED);
                            } else if e == 0x72 {
                                string.push(CARRIAGE_RETURN);
                            } else if e == 0x74 {
                                string.push(TAB);
                            } else if e == 0x62 {
                                string.push(0x08);
                            } else if e == 0x66 {
                                string.push(FORM_FEED);
                            } else if e == LEFT_PAREN || e == RIGHT_PAREN || e == BACKSLASH {
                                string.push(e);
                            }
                        },
                    }
                } else {
                    string.push(c);
                }
            },
        }
    }
    while nesting > 0
        invariant
            source.content() == s,
            s == old(source).content(),
            start == old(source).cursor(),
            whole == string_scan(s, start, 0, Seq::empty()),
            whole == (string@ + closing(nesting as nat), source.cursor()),
        decreases nesting,
    {
        let ghost before = string@;
        string.push(RIGHT_PAREN);
        nesting = nesting - 1;
        assert(string@ + closing(nesting as nat) =~= before + closing((nesting + 1) as nat));
    }
    assert(string@ + closing(0) =~= string@);
    Ok(Some(PdfToken::Str(string)))
}

/// The bytes of a hexadecimal string from `pos` on, and the cursor behind
/// its closing `>`.  White space between the digits counts for nothing.
/// `acc` holds the bytes read so far and `pending` the digit that waits for
/// its partner; a digit left alone at the end is the high half of a last byte.
pub open spec fn hex_scan(s: Seq<u8>, pos: nat, acc: Seq<u8>, pending: Option<u8>) -> Result<
    (Seq<u8>, nat),
    PdfError,
>
    decreases s.len() - pos,
{
    if pos < s.len() && is_whitespace(s[pos as int]) {
        hex_scan(s, pos + 1, acc, pending)
    } else if pos < s.len() && s[pos as int] == GREATER_THAN {
        Ok(
            (
                match pending {
                    Some(high) => acc.push((high * 16) as u8),
                    None => acc,
                },
                pos + 1,
            ),
        )
    } else {
        match nybble_of(byte_at(s, pos)) {
            Err(e) => Err(e),
            Ok(digit) => match pending {
                None => hex_scan(s, pos + 1, acc, Some(digit)),
                Some(high) => hex_scan(s, pos + 1, acc.push((high * 16 + digit) as u8), None),
            },
        }
    }
}

/// The string token of the hexadecimal string whose `<` stands just before `pos`.
pub open spec fn hex_string_at(s: Seq<u8>, pos: nat) -> Result<(TokenView, nat), PdfError> {
    match hex_scan(s, pos, Seq::empty(), None) {
        Ok((bytes, end)) => Ok((TokenView::Str(bytes), end)),
        Err(e) => Err(e),
    }
}

/// Reads a hexadecimal string whose `<` was just read.
fn hex_string<S: Source>(source: &mut S) -> (r: Result<Option<PdfToken>, PdfError>)
    ensures
        final(source).content() == old(source).content(),
        match hex_string_at(old(source).content(), old(source).cursor()) {
            Ok((view, end)) => r matches Ok(Some(token)) && token@ == view && final(source).cursor()
                == end,
            Err(e) => r == Err::<Option<PdfToken>, PdfError>(e),
        },
{
    let ghost s = source.content();
    let ghost start = source.cursor();
    let mut pending: Option<u8> = None;
    let mut string: Vec<u8> = Vec::new();
    loop
        invariant
            source.content() == s,
            s == old(source).content(),
            start == old(source).cursor(),
            hex_scan(s, source.cursor(), string@, pending) == hex_scan(
                s,
                start,
                Seq::empty(),
                None,
            ),
            pending matches Some(high) ==> high < 16,
        decreases s.len() - source.cursor(),
    {
        let ch = source.getch()?;
        match ch {
            Some(c) if is_whitespace(c) => {},
            Some(c) if c == GREATER_THAN => {
                match pending {
                    Some(high) => {
                        string.push(high * 16);
                    },
                    None => {},
                }
                return Ok(Some(PdfToken::Str(string)));
            },
            _ => {
                let digit = nybble(ch)?;
                match pending {
                    None => {
                        pending = Some(digit);
                    },
                    Some(high) => {
                        string.push(high * 16 + digit);
                        pending = None;
                    },
                }
            },
        }
    }
}

/// What a token is, if there is one.
pub open spec fn token_view(found: Option<PdfToken>) -> Option<TokenView> {
    match found {
        Some(token) => Some(token@),
        None => None,
    }
}

/// A token together with the cursor behind it.
pub open spec fn some_token(scanned: Result<(TokenView, nat), PdfError>) -> Result<
    (Option<TokenView>, nat),
    PdfError,
> {
    match scanned {
        Ok((token, end)) => Ok((Some(token), end)),
        Err(e) => Err(e),
    }
}

/// The token that starts at the first byte of `s` from `pos` on that is
/// neither white space nor comment, and the cursor behind it; `None` where
/// only white space and comments are left.
#[verifier::opaque]
pub open spec fn token_at(s: Seq<u8>, pos: nat) -> Result<(Option<TokenView>, nat), PdfError> {
    let start = after_blanks(s, pos, false);
    if start >= s.len() {
        Ok((None, start))
    } else {
        let c = s[start as int];
        if is_letter(c) {
            some_token(Ok(keyword_at(s, start)))
        } else if starts_number(c) {
            some_token(number_at(s, start))
        } else if c == SOLIDUS {
            some_token(name_at(s, start + 1))
        } else if c == LEFT_BRACKET {
            Ok((Some(TokenView::BeginArray), start + 1))
        } else if c == RIGHT_BRACKET {
            Ok((Some(TokenView::EndArray), start + 1))
        } else if c == LEFT_PAREN {
            some_token(Ok(string_at(s, start + 1)))
        } else if c == LESS_THAN {
            if byte_at(s, start + 1) == Some(LESS_THAN) {
                Ok((Some(TokenView::BeginDictionary), start + 2))
            } else {
                some_token(hex_string_at(s, start + 1))
            }
        } else if c == GREATER_THAN && byte_at(s, start + 1) == Some(GREATER_THAN) {
            Ok((Some(TokenView::EndDictionary), start + 2))
        } else {
            Err(PdfError::InvalidPdf("syntax error"))
        }
    }
}

/// Reads the next token.  `None` means that nothing but white space and
/// comments was left.
pub fn next_token<S: Source>(source: &mut S) -> (r: Result<Option<PdfToken>, PdfError>)
    ensures
        final(source).content() == old(source).content(),
        match token_at(old(source).content(), old(source).cursor()) {
            Ok((found, end)) => r matches Ok(token) && token_view(token) == found && final(
                source
            ).cursor() == end,
            Err(e) => r == Err::<Option<PdfToken>, PdfError>(e),
        },
{
    reveal(token_at);
    skip_whitespace(source)?;
    match source.getch()? {
        None => Ok(None),
        Some(c) => {
            if is_letter(c) {
                keyword(source, c)
            } else if starts_number(c) {
                number(source, c)
            } else if c == SOLIDUS {
                name_or_symbol(source)
            } else if c == LEFT_BRACKET {
                Ok(Some(PdfToken::BeginArray))
            } else if c == RIGHT_BRACKET {
                Ok(Some(PdfToken::EndArray))
            } else if c == LEFT_PAREN {
                string(source)
            } else if c == LESS_THAN {
                match source.getch()? {
                    Some(d) => {
                        if d == LESS_THAN {
                            Ok(Some(PdfToken::BeginDictionary))
                        } else {
                            source.backup();
                            hex_string(source)
                        }
                    },
                    None => hex_string(source),
                }
            } else if c == GREATER_THAN {
                match source.getch()? {
                    Some(d) => {
                        if d == GREATER_THAN {
                            Ok(Some(PdfToken::EndDictionary))
                        } else {
                            Err(PdfError::InvalidPdf("syntax error"))
                        }
                    },
                    None => Err(PdfError::InvalidPdf("syntax error")),
                }
            } else {
                Err(PdfError::InvalidPdf("syntax error"))
            }
        },
    }
}

/// Skipping never moves the cursor back, nor past the end.
pub proof fn lemma_after_blanks(s: Seq<u8>, pos: nat, in_comment: bool)
    ensures
        pos <= after_blanks(s, pos, in_comment),
        pos <= s.len() ==> after_blanks(s, pos, in_comment) <= s.len(),
    decreases s.len() - pos,
{
    if pos < s.len() {
        if in_comment {
            lemma_after_blanks(s, pos + 1, s[pos as int] != LINE_FEED);
        } else if s[pos as int] == PERCENT {
            lemma_after_blanks(s, pos + 1, true);
        } else if is_whitespace(s[pos as int]) {
            lemma_after_blanks(s, pos + 1, false);
        }
    }
}

/// A name ends at or behind the place it starts, within the bytes.
pub proof fn lemma_name_scan(s: Seq<u8>, pos: nat, acc: Seq<u8>)
    ensures
        name_scan(s, pos, acc) matches Ok((_, end)) ==> pos <= end && (pos <= s.len() ==> end
            <= s.len()),
    decreases s.len() - pos,
{
    if pos >= s.len() || is_whitespace(s[pos as int]) {
    } else if s[pos as int] == HASH {
        match nybble_of(byte_at(s, pos + 1)) {
            Err(e) => {},
            Ok(high) => match nybble_of(byte_at(s, pos + 2)) {
                Err(e) => {},
                Ok(low) => {
                    lemma_name_scan(s, pos + 3, acc.push((high * 16 + low) as u8));
                },
            },
        }
    } else {
        lemma_name_scan(s, pos + 1, acc.push(s[pos as int]));
    }
}

/// A literal string ends at or behind the place it starts, within the bytes.
pub proof fn lemma_string_scan(s: Seq<u8>, pos: nat, depth: nat, acc: Seq<u8>)
    ensures
        pos <= string_scan(s, pos, depth, acc).1,
        pos <= s.len() ==> string_scan(s, pos, depth, acc).1 <= s.len(),
    decreases s.len() - pos,
{
    if pos < s.len() {
        let c = s[pos as int];
        if c == LEFT_PAREN {
            lemma_string_scan(s, pos + 1, depth + 1, acc.push(c));
        } else if c == RIGHT_PAREN {
            if depth > 0 {
                lemma_string_scan(s, pos + 1, (depth - 1) as nat, acc.push(c));
            }
        } else if c == BACKSLASH {
            if pos + 1 >= s.len() {
                lemma_string_scan(s, pos + 1, depth, acc);
            } else if is_octal(s[pos + 1 as int]) {
                let (byte, end) = octal_at(s, pos + 2, s[pos + 1 as int]);
                lemma_string_scan(s, end, depth, acc.push(byte));
            } else {
                match escaped(s[pos + 1 as int]) {
                    Some(byte) => lemma_string_scan(s, pos + 2, depth, acc.push(byte)),
                    None => lemma_string_scan(s, pos + 2, depth, acc),
                }
            }
        } else {
            lemma_string_scan(s, pos + 1, depth, acc.push(c));
        }
    }
}

/// A hexadecimal string ends behind the place it starts, within the bytes.
pub proof fn lemma_hex_scan(s: Seq<u8>, pos: nat, acc: Seq<u8>, pending: Option<u8>)
    ensures
        hex_scan(s, pos, acc, pending) matches Ok((_, end)) ==> pos < end <= s.len(),
    decreases s.len() - pos,
{
    if pos < s.len() && is_whitespace(s[pos as int]) {
        lemma_hex_scan(s, pos + 1, acc, pending);
    } else if pos < s.len() && s[pos as int] == GREATER_THAN {
    } else {
        match nybble_of(byte_at(s, pos)) {
            Err(e) => {},
            Ok(digit) => match pending {
                None => lemma_hex_scan(s, pos + 1, acc, Some(digit)),
                Some(high) => lemma_hex_scan(s, pos + 1, acc.push((high * 16 + digit) as u8), None),
            },
        }
    }
}

/// Reading a token never moves the cursor back, and a token that is read
/// takes at least one byte.  From a cursor within the bytes the cursor stays
/// within them.
pub proof fn lemma_token_advances(s: Seq<u8>, pos: nat)
    ensures
        token_at(s, pos) matches Ok((found, end)) ==> pos <= end && (found is Some ==> pos < end
            <= s.len()) && (pos <= s.len() ==> end <= s.len()),
{
    reveal(token_at);
    let start = after_blanks(s, pos, false);
    lemma_after_blanks(s, pos, false);
    if start < s.len() {
        lemma_letters_end(s, start + 1);
        lemma_digits_end(s, start + 1);
        lemma_name_scan(s, start + 1, Seq::empty());
        lemma_string_scan(s, start + 1, 0, Seq::empty());
        lemma_hex_scan(s, start + 1, Seq::empty(), None);
    }
}

/// The values of the hexadecimal digits among the bytes from `from` up to `to`.
pub open spec fn nibbles(s: Seq<u8>, from: nat, to: nat) -> Seq<u8>
    decreases to - from,
{
    if from >= to || from >= s.len() {
        Seq::empty()
    } else {
        match hex_value(s[from as int]) {
            Some(digit) => seq![digit] + nibbles(s, from + 1, to),
            None => nibbles(s, from + 1, to),
        }
    }
}

/// The bytes that hexadecimal digits write, two digits to a byte.  An odd
/// digit at the end is the high half of a last byte whose low half is zero.
pub open spec fn packed(digits: Seq<u8>) -> Seq<u8> {
    Seq::new(
        ((digits.len() + 1) / 2) as nat,
        |i: int|
            if 2 * i + 1 < digits.len() {
                (digits[2 * i] * 16 + digits[2 * i + 1]) as u8
            } else {
                (digits[2 * i] * 16) as u8
            },
    )
}

/// The digit that waits for its partner, as a list.
pub open spec fn waiting(pending: Option<u8>) -> Seq<u8> {
    match pending {
        Some(high) => seq![high],
        None => Seq::empty(),
    }
}

/// What a scan of a hexadecimal string adds to the bytes read so far: the
/// digits up to the closing `>`, packed two to a byte.
pub proof fn lemma_hex_scan_packs(s: Seq<u8>, pos: nat, acc: Seq<u8>, pending: Option<u8>)
    ensures
        hex_scan(s, pos, acc, pending) matches Ok((bytes, end)) ==> bytes == acc + packed(
            waiting(pending) + nibbles(s, pos, (end - 1) as nat),
        ),
    decreases s.len() - pos,
{
    match hex_scan(s, pos, acc, pending) {
        Ok((bytes, end)) => {
            lemma_hex_scan(s, pos, acc, pending);
            let last = (end - 1) as nat;
            if pos < s.len() && is_whitespace(s[pos as int]) {
                lemma_hex_scan_packs(s, pos + 1, acc, pending);
                lemma_hex_scan(s, pos + 1, acc, pending);
            } else if pos < s.len() && s[pos as int] == GREATER_THAN {
                assert(nibbles(s, pos, last) =~= Seq::empty());
                assert(waiting(pending) + Seq::<u8>::empty() =~= waiting(pending));
                assert(bytes =~= acc + packed(waiting(pending)));
            } else {
                let digit = nybble_of(byte_at(s, pos))->Ok_0;
                let rest = nibbles(s, pos + 1, last);
                match pending {
                    None => {
                        lemma_hex_scan_packs(s, pos + 1, acc, Some(digit));
                        lemma_hex_scan(s, pos + 1, acc, Some(digit));
                        assert(waiting(None) + nibbles(s, pos, last) =~= waiting(Some(digit))
                            + rest);
                    },
                    Some(high) => {
                        let byte = (high * 16 + digit) as u8;
                        lemma_hex_scan_packs(s, pos + 1, acc.push(byte), None);
                        lemma_hex_scan(s, pos + 1, acc.push(byte), None);
                        let all = waiting(pending) + nibbles(s, pos, last);
                        assert(all =~= seq![high, digit] + rest);
                        assert(waiting(None) + rest =~= rest);
                        assert(packed(all) =~= seq![byte] + packed(rest)) by {
                            assert(packed(all).len() == packed(rest).len() + 1);
                            assert forall|i: int| 0 <= i < packed(all).len() implies packed(all)[i]
                                == (seq![byte] + packed(rest))[i] by {
                                if i > 0 {
                                    assert(all[2 * i] == rest[2 * (i - 1)]);
                                    if 2 * i + 1 < all.len() {
                                        assert(all[2 * i + 1] == rest[2 * (i - 1) + 1]);
                                    }
                                }
                            }
                        }
                        assert(acc + (seq![byte] + packed(rest)) =~= acc.push(byte) + packed(rest));
                    },
                }
            }
        },
        Err(e) => {},
    }
}

/// A hexadecimal string of N digits writes the bytes of its digits packed
/// two to a byte: (N + 1) / 2 bytes, and where N is odd the last digit is the
/// high half of the last byte.
pub proof fn lemma_hex_string_bytes(s: Seq<u8>, pos: nat)
    ensures
        hex_string_at(s, pos) matches Ok((token, end)) ==> {
            let digits = nibbles(s, pos, (end - 1) as nat);
            &&& token == TokenView::Str(packed(digits))
            &&& packed(digits).len() == (digits.len() + 1) / 2
            &&& digits.len() % 2 == 1 ==> packed(digits).last() == (digits.last() * 16) as u8
        },
{
    lemma_hex_scan_packs(s, pos, Seq::empty(), None);
    match hex_scan(s, pos, Seq::empty(), None) {
        Ok((bytes, end)) => {
            let digits = nibbles(s, pos, (end - 1) as nat);
            assert(waiting(None) + digits =~= digits);
            assert(Seq::<u8>::empty() + packed(digits) =~= packed(digits));
        },
        Err(e) => {},
    }
}

/// An octal escape takes its first digit and up to two more: it stops at
/// the first byte that is no octal digit, at the end of the input, or behind
/// the third digit.  The byte it writes is the value of these digits in base
/// eight, cut to eight bits.
pub proof fn lemma_octal_escape(s: Seq<u8>, pos: nat, first: u8)
    requires
        is_octal(first),
    ensures
        ({
            let (byte, end) = octal_at(s, pos, first);
            let one = first - DIGIT_ZERO;
            &&& pos <= end <= pos + 2
            &&& forall|i: int| pos <= i < end ==> i < s.len() && is_octal(#[trigger] s[i])
            &&& end < pos + 2 ==> end >= s.len() || !is_octal(s[end as int])
            &&& end == pos ==> byte == one
            &&& end == pos + 1 ==> byte == one * 8 + (s[pos as int] - DIGIT_ZERO)
            &&& end == pos + 2 ==> byte == ((one * 8 + (s[pos as int] - DIGIT_ZERO)) * 8 + (s[pos + 1 as int]
                - DIGIT_ZERO)) % 256
        }),
{
}

} // verus!

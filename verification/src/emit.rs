//! The canonical text of a value, and the proof that reading it gives the
//! value back.
//!
//! A `Written` value is a value together with the order in which the keys of
//! its dictionaries are written.  Its text puts one space behind every token.
//! `lemma_round_trip` shows that the parser reads from this text the value
//! that was written, whatever surrounds the text and in whatever order the
//! keys stand.

use vstd::prelude::*;
use crate::errors::PdfError;
use crate::names::{
    lemma_keyword_found, lemma_keyword_spellings, lemma_name_found, lemma_name_spellings,
    letters_and_digits, letters_only, PdfKeyword, PdfName,
};
use crate::next_object::{items_at, object_at, padded, pairs_map};
use crate::next_token::{
    lemma_after_blanks, after_blanks, all_digits, digits_end, digits_value, integer_of, is_digit,
    is_letter, is_real_literal, is_signed, is_whitespace, letters_end, name_at, name_scan, points,
    starts_number, token_at, unsigned_part, DIGIT_ZERO, GREATER_THAN, LEFT_BRACKET, LESS_THAN,
    MINUS, PERCENT, POINT, RIGHT_BRACKET, SOLIDUS, SPACE,
};
use crate::pdf_source::byte_at;
use crate::next_token::is_real;
use crate::pdf_types::{
    array_view, lemma_array_view, Dictionary, NumberView, ObjectView, PdfNumber, PdfObject,
    TokenView,
};

verus! {

/// The decimal digits of a number, without leading zeros.
pub open spec fn decimal(n: nat) -> Seq<u8>
    decreases n,
{
    if n < 10 {
        seq![(DIGIT_ZERO + n) as u8]
    } else {
        decimal(n / 10).push((DIGIT_ZERO + n % 10) as u8)
    }
}

/// The text of an integer: a minus sign for a negative one, then its digits.
pub open spec fn integer_text(i: i64) -> Seq<u8> {
    if i < 0 {
        seq![MINUS] + decimal((-i) as nat)
    } else {
        decimal(i as nat)
    }
}

/// The digits of a number are digits, and they write that number.
pub proof fn lemma_decimal(n: nat)
    ensures
        decimal(n).len() > 0,
        all_digits(decimal(n)),
        digits_value(decimal(n)) == n,
    decreases n,
{
    if n < 10 {
        let d = decimal(n);
        assert(d.drop_last() =~= Seq::<u8>::empty());
        assert(digits_value(d.drop_last()) == 0);
    } else {
        lemma_decimal(n / 10);
        let d = decimal(n);
        assert(d.drop_last() =~= decimal(n / 10));
    }
}

/// Digits hold no point.
pub proof fn lemma_digits_without_point(digits: Seq<u8>)
    requires
        all_digits(digits),
    ensures
        points(digits) == 0,
    decreases digits.len(),
{
    if digits.len() > 0 {
        assert(is_digit(digits[digits.len() - 1]));
        assert forall|i: int| 0 <= i < digits.drop_last().len() implies is_digit(
            #[trigger] digits.drop_last()[i],
        ) by {
            assert(digits.drop_last()[i] == digits[i]);
        }
        lemma_digits_without_point(digits.drop_last());
    }
}

/// The points of a list with one more byte at its front.
pub proof fn lemma_points_front(first: u8, rest: Seq<u8>)
    ensures
        points(seq![first] + rest) == points(rest) + if first == POINT {
            1nat
        } else {
            0nat
        },
    decreases rest.len(),
{
    let all = seq![first] + rest;
    if rest.len() == 0 {
        assert(all.drop_last() =~= Seq::<u8>::empty());
        assert(points(all.drop_last()) == 0);
    } else {
        assert(all.drop_last() =~= seq![first] + rest.drop_last());
        lemma_points_front(first, rest.drop_last());
    }
}

/// Reading the text of an integer gives the integer.
pub proof fn lemma_integer_text(i: i64)
    ensures
        integer_of(integer_text(i)) == Some(i),
        points(integer_text(i)) == 0,
        integer_text(i).len() > 0,
        starts_number(integer_text(i)[0]),
        forall|j: int| 1 <= j < integer_text(i).len() ==> is_digit(#[trigger] integer_text(i)[j]),
{
    let text = integer_text(i);
    if i < 0 {
        let digits = decimal((-i) as nat);
        lemma_decimal((-i) as nat);
        assert(unsigned_part(text) =~= digits);
        lemma_digits_without_point(digits);
        lemma_points_front(MINUS, digits);
        assert forall|j: int| 1 <= j < text.len() implies is_digit(#[trigger] text[j]) by {
            assert(text[j] == digits[j - 1]);
        }
    } else {
        lemma_decimal(i as nat);
        assert(is_digit(text[0]));
        assert(unsigned_part(text) =~= text);
        lemma_digits_without_point(text);
    }
}

/// Whether `text` stands in `s` at place `at`.
pub open spec fn placed(s: Seq<u8>, at: nat, text: Seq<u8>) -> bool {
    at + text.len() <= s.len() && s.subrange(at as int, (at + text.len()) as int) == text
}

/// Where a text stands, its bytes stand.
pub proof fn lemma_placed(s: Seq<u8>, at: nat, text: Seq<u8>)
    requires
        placed(s, at, text),
    ensures
        forall|i: int| 0 <= i < text.len() ==> s[at + i] == #[trigger] text[i],
{
    assert forall|i: int| 0 <= i < text.len() implies s[at + i] == #[trigger] text[i] by {
        assert(s.subrange(at as int, (at + text.len()) as int)[i] == s[at + i]);
    }
}

/// Where two texts stand one behind the other, each of them stands.
pub proof fn lemma_placed_parts(s: Seq<u8>, at: nat, first: Seq<u8>, second: Seq<u8>)
    requires
        placed(s, at, first + second),
    ensures
        placed(s, at, first),
        placed(s, at + first.len(), second),
{
    lemma_placed(s, at, first + second);
    assert(s.subrange(at as int, (at + first.len()) as int) =~= first) by {
        assert forall|i: int| 0 <= i < first.len() implies s[at + i] == first[i] by {
            assert((first + second)[i] == first[i]);
        }
    }
    assert(s.subrange((at + first.len()) as int, (at + first.len() + second.len()) as int)
        =~= second) by {
        assert forall|i: int| 0 <= i < second.len() implies s[at + first.len() + i]
            == second[i] by {
            assert((first + second)[first.len() + i] == second[i]);
        }
    }
}

/// A byte that starts a token is where skipping stops.
pub proof fn lemma_token_start(s: Seq<u8>, pos: nat)
    requires
        pos < s.len(),
        !is_whitespace(s[pos as int]),
        s[pos as int] != PERCENT,
    ensures
        after_blanks(s, pos, false) == pos,
{
}

/// A space is skipped.
pub proof fn lemma_space_skipped(s: Seq<u8>, pos: nat)
    requires
        pos < s.len(),
        s[pos as int] == SPACE,
    ensures
        after_blanks(s, pos, false) == after_blanks(s, pos + 1, false),
{
}

/// Letters that a byte which is no letter follows are one run.
pub proof fn lemma_letters_run(s: Seq<u8>, from: nat, to: nat)
    requires
        from <= to < s.len(),
        forall|i: int| from <= i < to ==> is_letter(#[trigger] s[i]),
        !is_letter(s[to as int]),
    ensures
        letters_end(s, from) == to,
    decreases to - from,
{
    if from < to {
        lemma_letters_run(s, from + 1, to);
    }
}

/// Digits and points that another byte follows are one run.
pub proof fn lemma_digits_run(s: Seq<u8>, from: nat, to: nat)
    requires
        from <= to < s.len(),
        forall|i: int| from <= i < to ==> is_digit(#[trigger] s[i]) || s[i] == POINT,
        !is_digit(s[to as int]),
        s[to as int] != POINT,
    ensures
        digits_end(s, from) == to,
    decreases to - from,
{
    if from < to {
        lemma_digits_run(s, from + 1, to);
    }
}

/// Letters and digits that white space follows are read as they stand.
pub proof fn lemma_name_run(s: Seq<u8>, from: nat, to: nat, acc: Seq<u8>)
    requires
        from <= to < s.len(),
        forall|i: int| from <= i < to ==> is_letter(#[trigger] s[i]) || is_digit(s[i]),
        is_whitespace(s[to as int]),
    ensures
        name_scan(s, from, acc) == Ok::<(Seq<u8>, nat), PdfError>(
            (acc + s.subrange(from as int, to as int), to),
        ),
    decreases to - from,
{
    if from < to {
        assert(is_letter(s[from as int]) || is_digit(s[from as int]));
        lemma_name_run(s, from + 1, to, acc.push(s[from as int]));
        assert(acc.push(s[from as int]) + s.subrange(from + 1 as int, to as int) =~= acc + s.subrange(
            from as int,
            to as int,
        ));
    } else {
        assert(acc + s.subrange(from as int, to as int) =~= acc);
    }
}

/// A keyword with a space behind it is read as that keyword.
pub proof fn lemma_keyword_token(s: Seq<u8>, pos: nat, start: nat, word: PdfKeyword)
    requires
        after_blanks(s, pos, false) == start,
        placed(s, start, word.bytes().push(SPACE)),
    ensures
        token_at(s, pos) == Ok::<(Option<TokenView>, nat), PdfError>(
            (Some(TokenView::Keyword(word)), start + word.bytes().len()),
        ),
{
    reveal(token_at);
    let bytes = word.bytes();
    let text = bytes.push(SPACE);
    lemma_keyword_spellings();
    assert(letters_only(bytes));
    lemma_placed(s, start, text);
    let end = start + bytes.len();
    assert forall|i: int| start <= i < end implies is_letter(#[trigger] s[i]) by {
        assert(s[i] == text[i - start]);
        assert(text[i - start] == bytes[i - start]);
    }
    assert(s[end as int] == text[bytes.len() as int]);
    assert(bytes.len() > 0);
    assert(is_letter(s[start as int]));
    lemma_letters_run(s, start + 1, end);
    assert(s.subrange(start as int, end as int) =~= bytes);
    lemma_keyword_found(word);
}

/// A number with a space behind it is read up to the space.
pub proof fn lemma_number_run(s: Seq<u8>, start: nat, text: Seq<u8>)
    requires
        placed(s, start, text.push(SPACE)),
        text.len() > 0,
        forall|j: int| 1 <= j < text.len() ==> is_digit(#[trigger] text[j]) || text[j] == POINT,
    ensures
        digits_end(s, start + 1) == start + text.len(),
        s.subrange(start as int, (start + text.len()) as int) == text,
        s[start as int] == text[0],
{
    let whole = text.push(SPACE);
    lemma_placed(s, start, whole);
    let end = start + text.len();
    assert forall|i: int| start + 1 <= i < end implies is_digit(#[trigger] s[i]) || s[i]
        == POINT by {
        assert(s[i] == whole[i - start]);
        assert(whole[i - start] == text[i - start]);
    }
    assert(s[end as int] == whole[text.len() as int]);
    lemma_digits_run(s, start + 1, end);
    assert(s.subrange(start as int, end as int) =~= text) by {
        assert forall|i: int| 0 <= i < text.len() implies s[start + i] == text[i] by {
            assert(whole[i] == text[i]);
        }
    }
    assert(s[start as int] == whole[0]);
}

/// The text of an integer with a space behind it is read as that integer.
pub proof fn lemma_integer_token(s: Seq<u8>, pos: nat, start: nat, i: i64)
    requires
        after_blanks(s, pos, false) == start,
        placed(s, start, integer_text(i).push(SPACE)),
    ensures
        token_at(s, pos) == Ok::<(Option<TokenView>, nat), PdfError>(
            (Some(TokenView::Integer(i)), start + integer_text(i).len()),
        ),
{
    reveal(token_at);
    lemma_integer_text(i);
    lemma_number_run(s, start, integer_text(i));
}

/// A real literal starts like a number and goes on in digits and points.
pub proof fn lemma_real_literal(lexeme: Seq<u8>)
    requires
        is_real_literal(lexeme),
    ensures
        lexeme.len() >= 2,
        starts_number(lexeme[0]),
        forall|j: int| 1 <= j < lexeme.len() ==> is_digit(#[trigger] lexeme[j]) || lexeme[j]
            == POINT,
        points(lexeme) > 0,
{
    let body = unsigned_part(lexeme);
    if is_signed(lexeme) {
        assert(lexeme =~= seq![lexeme[0]] + body);
        lemma_points_front(lexeme[0], body);
        assert forall|j: int| 1 <= j < lexeme.len() implies is_digit(#[trigger] lexeme[j])
            || lexeme[j] == POINT by {
            assert(lexeme[j] == body[j - 1]);
        }
    } else {
        assert(is_digit(body[0]) || body[0] == POINT);
    }
}

/// A real literal with a space behind it is read as it stands.
pub proof fn lemma_real_token(s: Seq<u8>, pos: nat, start: nat, lexeme: Seq<u8>)
    requires
        after_blanks(s, pos, false) == start,
        is_real_literal(lexeme),
        placed(s, start, lexeme.push(SPACE)),
    ensures
        token_at(s, pos) == Ok::<(Option<TokenView>, nat), PdfError>(
            (Some(TokenView::Real(lexeme)), start + lexeme.len()),
        ),
{
    reveal(token_at);
    lemma_real_literal(lexeme);
    lemma_number_run(s, start, lexeme);
}

/// A solidus, a well-known name and a space are read as that name.
pub proof fn lemma_name_token(s: Seq<u8>, pos: nat, start: nat, name: PdfName)
    requires
        after_blanks(s, pos, false) == start,
        placed(s, start, (seq![SOLIDUS] + name.bytes()).push(SPACE)),
    ensures
        token_at(s, pos) == Ok::<(Option<TokenView>, nat), PdfError>(
            (Some(TokenView::Name(name)), start + 1 + name.bytes().len()),
        ),
{
    reveal(token_at);
    let bytes = name.bytes();
    let text = (seq![SOLIDUS] + bytes).push(SPACE);
    lemma_name_spellings();
    assert(letters_and_digits(bytes));
    lemma_placed(s, start, text);
    let end = start + 1 + bytes.len();
    assert(s[start as int] == text[0]);
    assert forall|i: int| start + 1 <= i < end implies is_letter(#[trigger] s[i]) || is_digit(
        s[i],
    ) by {
        assert(s[i] == text[i - start]);
        assert(text[i - start] == bytes[i - start - 1]);
    }
    assert(s[end as int] == text[bytes.len() + 1 as int]);
    lemma_name_run(s, start + 1, end, Seq::empty());
    assert(s.subrange(start + 1 as int, end as int) =~= bytes) by {
        assert forall|i: int| 0 <= i < bytes.len() implies s[start + 1 + i] == bytes[i] by {
            assert(text[i + 1] == bytes[i]);
        }
    }
    assert(Seq::<u8>::empty() + bytes =~= bytes);
    lemma_name_found(name);
}

/// A value as it is written: nulls, booleans, numbers, well-known names,
/// arrays, and dictionaries as the list of their keys and values in the
/// order in which they stand.
pub enum Written {
    Null,
    Boolean(bool),
    Integer(i64),
    Real(Seq<u8>),
    Name(PdfName),
    Array(Seq<Written>),
    Dictionary(Seq<Written>),
}

/// Whether a written value can be read back: a real is a decimal literal,
/// and the list of a dictionary has a name in every other place, from the
/// first on, and a value behind each.
pub open spec fn well_formed(w: Written) -> bool
    decreases w,
{
    match w {
        Written::Real(lexeme) => is_real_literal(lexeme),
        Written::Array(items) => forall|i: int|
            0 <= i < items.len() ==> well_formed(#[trigger] items[i]),
        Written::Dictionary(items) => {
            &&& items.len() % 2 == 0
            &&& forall|i: int| 0 <= i < items.len() ==> well_formed(#[trigger] items[i])
            &&& forall|i: int|
                0 <= i < items.len() && i % 2 == 0 ==> (#[trigger] items[i]) is Name
        },
        _ => true,
    }
}

/// The text of a written value.  Every token has one space behind it.
pub open spec fn text(w: Written) -> Seq<u8>
    decreases w,
{
    match w {
        Written::Null => PdfKeyword::null.bytes().push(SPACE),
        Written::Boolean(b) => if b {
            PdfKeyword::True.bytes().push(SPACE)
        } else {
            PdfKeyword::False.bytes().push(SPACE)
        },
        Written::Integer(i) => integer_text(i).push(SPACE),
        Written::Real(lexeme) => lexeme.push(SPACE),
        Written::Name(name) => (seq![SOLIDUS] + name.bytes()).push(SPACE),
        Written::Array(items) => seq![LEFT_BRACKET, SPACE] + texts(items) + seq![
            RIGHT_BRACKET,
            SPACE,
        ],
        Written::Dictionary(items) => seq![LESS_THAN, LESS_THAN, SPACE] + texts(items) + seq![
            GREATER_THAN,
            GREATER_THAN,
            SPACE,
        ],
    }
}

/// The texts of a list of written values, one behind the other.
pub open spec fn texts(items: Seq<Written>) -> Seq<u8>
    decreases items,
{
    if items.len() == 0 {
        Seq::empty()
    } else {
        text(items[0]) + texts(items.drop_first())
    }
}

/// The value that is written.  Of two entries of a dictionary with the same
/// name the first counts.
pub open spec fn value(w: Written) -> ObjectView
    decreases w,
{
    match w {
        Written::Null => ObjectView::Null,
        Written::Boolean(b) => ObjectView::Boolean(b),
        Written::Integer(i) => ObjectView::Number(NumberView::Integer(i)),
        Written::Real(lexeme) => ObjectView::Number(NumberView::Real(lexeme)),
        Written::Name(name) => ObjectView::Name(name),
        Written::Array(items) => ObjectView::Array(values(items)),
        Written::Dictionary(items) => ObjectView::Dictionary(
            match pairs_map(values(items)) {
                Ok(map) => map,
                Err(_) => Map::empty(),
            },
        ),
    }
}

/// The values of a list of written values.
pub open spec fn values(items: Seq<Written>) -> Seq<ObjectView>
    decreases items,
{
    if items.len() == 0 {
        Seq::empty()
    } else {
        seq![value(items[0])] + values(items.drop_first())
    }
}

/// A byte with which a token starts: no white space and no comment.
pub open spec fn starts_token(c: u8) -> bool {
    !is_whitespace(c) && c != PERCENT
}

/// The text of a written value has at least two bytes; the first starts a
/// token and the last is a space.
pub proof fn lemma_text_shape(w: Written)
    requires
        well_formed(w),
    ensures
        text(w).len() >= 2,
        starts_token(text(w)[0]),
        text(w).last() == SPACE,
{
    match w {
        Written::Null => {
            lemma_keyword_spellings();
            assert(letters_only(PdfKeyword::null.bytes()));
            assert(is_letter(PdfKeyword::null.bytes()[0]));
        },
        Written::Boolean(b) => {
            lemma_keyword_spellings();
            assert(letters_only(PdfKeyword::True.bytes()));
            assert(letters_only(PdfKeyword::False.bytes()));
            assert(is_letter(PdfKeyword::True.bytes()[0]));
            assert(is_letter(PdfKeyword::False.bytes()[0]));
        },
        Written::Integer(i) => {
            lemma_integer_text(i);
        },
        Written::Real(lexeme) => {
            lemma_real_literal(lexeme);
        },
        Written::Name(name) => {
            lemma_name_spellings();
        },
        Written::Array(items) => {},
        Written::Dictionary(items) => {},
    }
}

/// The bracket that closes an array, or the pair that closes a dictionary.
pub open spec fn closing_text(array: bool) -> Seq<u8> {
    if array {
        seq![RIGHT_BRACKET]
    } else {
        seq![GREATER_THAN, GREATER_THAN]
    }
}

/// The texts of a list with its closing bracket start with a token.
pub proof fn lemma_texts_start(items: Seq<Written>, array: bool)
    requires
        forall|i: int| 0 <= i < items.len() ==> well_formed(#[trigger] items[i]),
    ensures
        (texts(items) + closing_text(array)).len() > 0,
        starts_token((texts(items) + closing_text(array))[0]),
{
    if items.len() > 0 {
        lemma_text_shape(items[0]);
    }
}

/// The values of a list stand in the places of the list.
pub proof fn lemma_values(items: Seq<Written>)
    ensures
        values(items).len() == items.len(),
        forall|i: int| 0 <= i < items.len() ==> #[trigger] values(items)[i] == value(items[i]),
    decreases items.len(),
{
    if items.len() > 0 {
        lemma_values(items.drop_first());
        assert forall|i: int| 0 <= i < items.len() implies #[trigger] values(items)[i] == value(
            items[i],
        ) by {
            if i > 0 {
                assert(items.drop_first()[i - 1] == items[i]);
            }
        }
    }
}

/// A list with a name in every other place, from the first on, writes a dictionary.
pub proof fn lemma_named_pairs(list: Seq<ObjectView>)
    requires
        list.len() % 2 == 0,
        forall|i: int| 0 <= i < list.len() && i % 2 == 0 ==> (#[trigger] list[i]) is Name,
    ensures
        pairs_map(list) is Ok,
    decreases list.len(),
{
    if list.len() >= 2 {
        let rest = list.subrange(2, list.len() as int);
        assert forall|i: int| 0 <= i < rest.len() && i % 2 == 0 implies (#[trigger] rest[i])
            is Name by {
            assert(rest[i] == list[i + 2]);
        }
        lemma_named_pairs(rest);
        assert(list[0] is Name);
    }
}

/// The tokens that brackets write.
pub proof fn lemma_bracket_tokens(s: Seq<u8>, pos: nat, start: nat)
    requires
        after_blanks(s, pos, false) == start,
        start < s.len(),
    ensures
        s[start as int] == LEFT_BRACKET ==> token_at(s, pos) == Ok::<
            (Option<TokenView>, nat),
            PdfError,
        >((Some(TokenView::BeginArray), start + 1)),
        s[start as int] == RIGHT_BRACKET ==> token_at(s, pos) == Ok::<
            (Option<TokenView>, nat),
            PdfError,
        >((Some(TokenView::EndArray), start + 1)),
        s[start as int] == LESS_THAN && byte_at(s, start + 1) == Some(LESS_THAN) ==> token_at(
            s,
            pos,
        ) == Ok::<(Option<TokenView>, nat), PdfError>((Some(TokenView::BeginDictionary), start + 2)),
        s[start as int] == GREATER_THAN && byte_at(s, start + 1) == Some(GREATER_THAN)
            ==> token_at(s, pos) == Ok::<(Option<TokenView>, nat), PdfError>(
            (Some(TokenView::EndDictionary), start + 2),
        ),
{
    reveal(token_at);
}

/// Reading the text of a written value gives the value that was written,
/// and leaves the cursor at the space behind its last token.  The text may
/// stand anywhere, behind any white space and comments.
pub proof fn lemma_round_trip(w: Written, s: Seq<u8>, pos: nat, start: nat)
    requires
        well_formed(w),
        after_blanks(s, pos, false) == start,
        placed(s, start, text(w)),
    ensures
        object_at(s, pos) == Ok::<(Option<ObjectView>, nat), PdfError>(
            (Some(value(w)), (start + text(w).len() - 1) as nat),
        ),
    decreases w, 0nat,
{
    lemma_after_blanks(s, pos, false);
    match w {
        Written::Null => {
            lemma_keyword_token(s, pos, start, PdfKeyword::null);
        },
        Written::Boolean(b) => {
            if b {
                lemma_keyword_token(s, pos, start, PdfKeyword::True);
            } else {
                lemma_keyword_token(s, pos, start, PdfKeyword::False);
            }
        },
        Written::Integer(i) => {
            lemma_integer_token(s, pos, start, i);
        },
        Written::Real(lexeme) => {
            lemma_real_token(s, pos, start, lexeme);
        },
        Written::Name(name) => {
            lemma_name_token(s, pos, start, name);
        },
        Written::Array(items) => {
            let open = seq![LEFT_BRACKET, SPACE];
            let inner = texts(items) + closing_text(true);
            assert(text(w) =~= open + (inner + seq![SPACE]));
            lemma_placed_parts(s, start, open, inner + seq![SPACE]);
            lemma_placed_parts(s, start + 2, inner, seq![SPACE]);
            lemma_placed(s, start, open);
            assert(s[start as int] == open[0]);
            assert(s[start + 1 as int] == open[1]);
            lemma_bracket_tokens(s, pos, start);
            lemma_texts_start(items, true);
            lemma_placed(s, start + 2, inner);
            assert(s[start + 2 as int] == inner[0]);
            lemma_space_skipped(s, start + 1);
            lemma_token_start(s, start + 2);
            lemma_items_round_trip(items, s, start + 1, start + 2, Seq::empty(), true);
            assert(Seq::<ObjectView>::empty() + values(items) =~= values(items));
        },
        Written::Dictionary(items) => {
            let open = seq![LESS_THAN, LESS_THAN, SPACE];
            let inner = texts(items) + closing_text(false);
            assert(text(w) =~= open + (inner + seq![SPACE]));
            lemma_placed_parts(s, start, open, inner + seq![SPACE]);
            lemma_placed_parts(s, start + 3, inner, seq![SPACE]);
            lemma_placed(s, start, open);
            assert(s[start as int] == open[0]);
            assert(s[start + 1 as int] == open[1]);
            assert(s[start + 2 as int] == open[2]);
            lemma_bracket_tokens(s, pos, start);
            lemma_texts_start(items, false);
            lemma_placed(s, start + 3, inner);
            assert(s[start + 3 as int] == inner[0]);
            lemma_space_skipped(s, start + 2);
            lemma_token_start(s, start + 3);
            lemma_items_round_trip(items, s, start + 2, start + 3, Seq::empty(), false);
            assert(Seq::<ObjectView>::empty() + values(items) =~= values(items));
            lemma_values(items);
            assert forall|i: int| 0 <= i < values(items).len() && i % 2 == 0 implies (
            #[trigger] values(items)[i]) is Name by {
                assert(items[i] is Name);
                assert(values(items)[i] == value(items[i]));
            }
            lemma_named_pairs(values(items));
            assert(padded(values(items)) == values(items));
        },
    }
}

/// Reading the texts of a list of written values, up to the bracket that
/// closes the list, gives the values that were written.
pub proof fn lemma_items_round_trip(
    items: Seq<Written>,
    s: Seq<u8>,
    pos: nat,
    start: nat,
    acc: Seq<ObjectView>,
    array: bool,
)
    requires
        forall|i: int| 0 <= i < items.len() ==> well_formed(#[trigger] items[i]),
        after_blanks(s, pos, false) == start,
        placed(s, start, texts(items) + closing_text(array)),
    ensures
        items_at(s, pos, acc) == Ok::<(Seq<ObjectView>, nat), PdfError>(
            (acc + values(items), start + texts(items).len() + closing_text(array).len()),
        ),
    decreases items, 1nat,
{
    lemma_after_blanks(s, pos, false);
    let close = closing_text(array);
    if items.len() == 0 {
        assert(texts(items) + close =~= close);
        lemma_placed(s, start, close);
        assert(s[start as int] == close[0]);
        if !array {
            assert(s[start + 1 as int] == close[1]);
        }
        lemma_bracket_tokens(s, pos, start);
        assert(acc + values(items) =~= acc);
    } else {
        let first = items[0];
        let rest = items.drop_first();
        let head = text(first);
        let tail = texts(rest) + close;
        assert(texts(items) + close =~= head + tail);
        lemma_placed_parts(s, start, head, tail);
        lemma_text_shape(first);
        lemma_round_trip(first, s, pos, start);
        let end = (start + head.len() - 1) as nat;
        // The space behind the first value is skipped; the next text follows.
        lemma_placed(s, start, head);
        assert(s[end as int] == head[head.len() - 1]);
        assert forall|i: int| 0 <= i < rest.len() implies well_formed(#[trigger] rest[i]) by {
            assert(rest[i] == items[i + 1]);
        }
        lemma_texts_start(rest, array);
        lemma_placed(s, start + head.len(), tail);
        assert(s[start + head.len() as int] == tail[0]);
        lemma_space_skipped(s, end);
        lemma_token_start(s, end + 1);
        lemma_items_round_trip(rest, s, end, end + 1, acc.push(value(first)), array);
        assert(acc.push(value(first)) + values(rest) =~= acc + values(items));
        assert(value(first) != ObjectView::Keyword(PdfKeyword::R));
    }
}

/// Whether a value has a canonical text: it is built from nulls, booleans,
/// integers, real literals and well-known names by arrays and dictionaries.
pub open spec fn writable(v: ObjectView) -> bool
    decreases v,
{
    match v {
        ObjectView::Null => true,
        ObjectView::Boolean(_) => true,
        ObjectView::Number(NumberView::Integer(_)) => true,
        ObjectView::Number(NumberView::Real(lexeme)) => is_real_literal(lexeme),
        ObjectView::Name(_) => true,
        ObjectView::Array(items) => forall|i: int|
            0 <= i < items.len() ==> writable(#[trigger] items[i]),
        ObjectView::Dictionary(map) => forall|name: PdfName|
            map.contains_key(name) ==> writable(#[trigger] map[name]),
        _ => false,
    }
}

/// The texts of a list with one more value at its end.
pub proof fn lemma_texts_push(items: Seq<Written>, last: Written)
    ensures
        texts(items.push(last)) == texts(items) + text(last),
    decreases items.len(),
{
    let all = items.push(last);
    reveal_with_fuel(texts, 2);
    if items.len() == 0 {
        assert(all.drop_first() =~= Seq::<Written>::empty());
        assert(texts(all) =~= text(last) + Seq::<u8>::empty());
        assert(texts(items) + text(last) =~= text(last));
        assert(text(last) + Seq::<u8>::empty() =~= text(last));
    } else {
        lemma_texts_push(items.drop_first(), last);
        assert(all.drop_first() =~= items.drop_first().push(last));
        assert(text(items[0]) + (texts(items.drop_first()) + text(last)) =~= (text(items[0])
            + texts(items.drop_first())) + text(last));
    }
}

/// The values of a list with one more value at its end.
pub proof fn lemma_values_push(items: Seq<Written>, last: Written)
    ensures
        values(items.push(last)) == values(items).push(value(last)),
{
    lemma_values(items);
    lemma_values(items.push(last));
    assert(values(items.push(last)) =~= values(items).push(value(last)));
}

/// A list of names that all differ, each with its value behind it, writes
/// the map from these names to these values.
pub proof fn lemma_pairs_of_names(
    list: Seq<ObjectView>,
    names: Seq<PdfName>,
    map: Map<PdfName, ObjectView>,
)
    requires
        list.len() == 2 * names.len(),
        names.no_duplicates(),
        forall|j: int|
            0 <= j < names.len() ==> list[2 * j] == ObjectView::Name(#[trigger] names[j])
                && map.contains_key(names[j]) && list[2 * j + 1] == map[names[j]],
        forall|name: PdfName| map.contains_key(name) ==> names.contains(name),
    ensures
        pairs_map(list) == Ok::<Map<PdfName, ObjectView>, PdfError>(map),
    decreases names.len(),
{
    if names.len() == 0 {
        assert forall|name: PdfName| !map.contains_key(name) by {
            if map.contains_key(name) {
                assert(names.contains(name));
            }
        }
        assert(map =~= Map::<PdfName, ObjectView>::empty());
    } else {
        let rest = list.subrange(2, list.len() as int);
        let others = names.drop_first();
        let smaller = map.remove(names[0]);
        assert forall|j: int| 0 <= j < others.len() implies rest[2 * j] == ObjectView::Name(
            #[trigger] others[j],
        ) && smaller.contains_key(others[j]) && rest[2 * j + 1] == smaller[others[j]] by {
            assert(others[j] == names[j + 1]);
            assert(rest[2 * j] == list[2 * (j + 1)]);
            assert(rest[2 * j + 1] == list[2 * (j + 1) + 1]);
        }
        assert forall|name: PdfName| smaller.contains_key(name) implies others.contains(name) by {
            assert(map.contains_key(name));
            assert(names.contains(name));
            let j = choose|j: int| 0 <= j < names.len() && names[j] == name;
            assert(j > 0);
            assert(others[j - 1] == name);
        }
        lemma_pairs_of_names(rest, others, smaller);
        assert(list[0] == ObjectView::Name(names[0]));
        assert(list[1] == map[names[0]]);
        assert(smaller.insert(names[0], map[names[0]]) =~= map);
    }
}

/// An array with an item that has no canonical text has none.
pub proof fn lemma_array_not_writable(items: Seq<ObjectView>, i: int)
    requires
        0 <= i < items.len(),
        !writable(items[i]),
    ensures
        !writable(ObjectView::Array(items)),
{
    let whole = ObjectView::Array(items);
    assert(whole->Array_0 == items);
    if writable(whole) {
        assert(writable(whole->Array_0[i]));
    }
}

/// A dictionary with a value that has no canonical text has none.
pub proof fn lemma_dictionary_not_writable(map: Map<PdfName, ObjectView>, name: PdfName)
    requires
        map.contains_key(name),
        !writable(map[name]),
    ensures
        !writable(ObjectView::Dictionary(map)),
{
    let whole = ObjectView::Dictionary(map);
    assert(whole->Dictionary_0 == map);
    if writable(whole) {
        assert(writable(whole->Dictionary_0[name]));
    }
}

/// Appends `bytes` to `out`.
pub fn append_bytes(out: &mut Vec<u8>, bytes: &[u8])
    ensures
        final(out)@ == old(out)@ + bytes@,
{
    let mut i: usize = 0;
    assert(out@ =~= old(out)@ + bytes@.subrange(0, 0));
    while i < bytes.len()
        invariant
            i <= bytes.len() == bytes@.len(),
            out@ == old(out)@ + bytes@.subrange(0, i as int),
        decreases bytes.len() - i,
    {
        out.push(bytes[i]);
        i = i + 1;
        assert(out@ =~= old(out)@ + bytes@.subrange(0, i as int));
    }
    assert(bytes@.subrange(0, i as int) =~= bytes@);
}

/// Appends the decimal digits of `n` to `out`.
pub fn write_decimal(n: u64, out: &mut Vec<u8>)
    ensures
        final(out)@ == old(out)@ + decimal(n as nat),
    decreases n,
{
    if n < 10 {
        out.push(DIGIT_ZERO + n as u8);
        assert(out@ =~= old(out)@ + decimal(n as nat));
    } else {
        write_decimal(n / 10, out);
        out.push(DIGIT_ZERO + (n % 10) as u8);
        assert(out@ =~= old(out)@ + decimal(n as nat));
    }
}

/// Appends the text of an integer to `out`.
pub fn write_integer(i: i64, out: &mut Vec<u8>)
    ensures
        final(out)@ == old(out)@ + integer_text(i),
{
    if i < 0 {
        out.push(MINUS);
        let magnitude: u64 = (-(i as i128)) as u64;
        write_decimal(magnitude, out);
        assert(out@ =~= old(out)@ + integer_text(i));
    } else {
        write_decimal(i as u64, out);
    }
}

/// Appends a keyword and a space to `out`.
fn write_keyword(word: PdfKeyword, out: &mut Vec<u8>)
    ensures
        final(out)@ == old(out)@ + word.bytes().push(SPACE),
{
    append_bytes(out, word.text().as_bytes());
    out.push(SPACE);
    assert(out@ =~= old(out)@ + word.bytes().push(SPACE));
}

/// Appends a solidus, a name and a space to `out`.
fn write_name(name: PdfName, out: &mut Vec<u8>)
    ensures
        final(out)@ == old(out)@ + text(Written::Name(name)),
{
    out.push(SOLIDUS);
    append_bytes(out, name.text().as_bytes());
    out.push(SPACE);
    assert(out@ =~= old(out)@ + (seq![SOLIDUS] + name.bytes()).push(SPACE));
}

/// Appends the canonical text of `object` to `out`, if the object has one.
/// Tells whether it has, and in which order the keys of its dictionaries
/// were written.
pub fn write_object(object: &PdfObject, out: &mut Vec<u8>) -> (r: (bool, Ghost<Written>))
    ensures
        r.0 == writable(object@),
        r.0 ==> well_formed(r.1@) && value(r.1@) == object@ && final(out)@ == old(out)@ + text(
            r.1@,
        ),
    decreases object,
{
    match object {
        PdfObject::Null => {
            write_keyword(PdfKeyword::null, out);
            (true, Ghost(Written::Null))
        },
        PdfObject::Boolean(b) => {
            if *b {
                write_keyword(PdfKeyword::True, out);
            } else {
                write_keyword(PdfKeyword::False, out);
            }
            (true, Ghost(Written::Boolean(*b)))
        },
        PdfObject::Number(PdfNumber::Integer(i)) => {
            write_integer(*i, out);
            out.push(SPACE);
            assert(out@ =~= old(out)@ + integer_text(*i).push(SPACE));
            (true, Ghost(Written::Integer(*i)))
        },
        PdfObject::Number(PdfNumber::Real(lexeme)) => {
            if is_real(lexeme.as_slice()) {
                append_bytes(out, lexeme.as_slice());
                out.push(SPACE);
                assert(out@ =~= old(out)@ + lexeme@.push(SPACE));
                (true, Ghost(Written::Real(lexeme@)))
            } else {
                (false, Ghost(Written::Null))
            }
        },
        PdfObject::Name(name) => {
            write_name(*name, out);
            (true, Ghost(Written::Name(*name)))
        },
        PdfObject::Array(items) => {
            proof {
                lemma_array_view(*items);
            }
            out.push(LEFT_BRACKET);
            out.push(SPACE);
            let ghost mut written: Seq<Written> = Seq::empty();
            let mut i: usize = 0;
            assert(out@ =~= old(out)@ + seq![LEFT_BRACKET, SPACE] + texts(written));
            assert(values(written) =~= array_view(items@).subrange(0, 0));
            while i < items.len()
                invariant
                    i <= items@.len(),
                    *object == PdfObject::Array(*items),
                    object@ == ObjectView::Array(array_view(items@)),
                    written.len() == i,
                    forall|j: int| 0 <= j < i ==> well_formed(#[trigger] written[j]),
                    forall|j: int| 0 <= j < i ==> writable(#[trigger] array_view(items@)[j]),
                    values(written) == array_view(items@).subrange(0, i as int),
                    out@ == old(out)@ + seq![LEFT_BRACKET, SPACE] + texts(written),
                decreases items@.len() - i,
            {
                let ghost before = out@;
                let (ok, item) = write_object(&items[i], out);
                if !ok {
                    assert(array_view(items@)[i as int] == items@[i as int]@);
                    assert(!writable(array_view(items@)[i as int]));
                    proof {
                        lemma_array_not_writable(array_view(items@), i as int);
                    }
                    return (false, Ghost(Written::Null));
                }
                assert(array_view(items@)[i as int] == items@[i as int]@);
                proof {
                    lemma_texts_push(written, item@);
                    lemma_values_push(written, item@);
                    assert(values(written).push(value(item@)) =~= array_view(items@).subrange(
                        0,
                        i + 1,
                    ));
                    assert(before + text(item@) =~= old(out)@ + seq![LEFT_BRACKET, SPACE] + (texts(
                        written,
                    ) + text(item@)));
                    written = written.push(item@);
                }
                i = i + 1;
            }
            out.push(RIGHT_BRACKET);
            out.push(SPACE);
            proof {
                assert(array_view(items@).subrange(0, i as int) =~= array_view(items@));
                assert(out@ =~= old(out)@ + text(Written::Array(written)));
            }
            (true, Ghost(Written::Array(written)))
        },
        PdfObject::Dictionary(dict) => {
            out.push(LESS_THAN);
            out.push(LESS_THAN);
            out.push(SPACE);
            let n = dict.len();
            let ghost names = dict.names();
            let ghost mut written: Seq<Written> = Seq::empty();
            let mut i: usize = 0;
            assert(out@ =~= old(out)@ + seq![LESS_THAN, LESS_THAN, SPACE] + texts(written));
            while i < n
                invariant
                    i <= n,
                    n == names.len(),
                    names == dict.names(),
                    names.no_duplicates(),
                    *object == PdfObject::Dictionary(*dict),
                    object@ == ObjectView::Dictionary(dict@),
                    forall|name: PdfName| dict@.contains_key(name) <==> names.contains(name),
                    written.len() == 2 * i,
                    forall|j: int| 0 <= j < 2 * i ==> well_formed(#[trigger] written[j]),
                    forall|j: int|
                        0 <= j < i ==> written[2 * j] == Written::Name(#[trigger] names[j])
                            && dict@.contains_key(names[j]) && value(written[2 * j + 1])
                            == dict@[names[j]] && writable(dict@[names[j]]),
                    out@ == old(out)@ + seq![LESS_THAN, LESS_THAN, SPACE] + texts(written),
                decreases n - i,
            {
                let name = dict.name_at(i);
                let ghost before = out@;
                write_name(name, out);
                let ghost middle = out@;
                let (ok, item) = write_object(dict.value_at(i), out);
                if !ok {
                    assert(dict@.contains_key(names[i as int]));
                    assert(!writable(dict@[names[i as int]]));
                    proof {
                        lemma_dictionary_not_writable(dict@, names[i as int]);
                    }
                    return (false, Ghost(Written::Null));
                }
                proof {
                    let key = Written::Name(name);
                    lemma_texts_push(written, key);
                    lemma_texts_push(written.push(key), item@);
                    assert(middle + text(item@) =~= old(out)@ + seq![LESS_THAN, LESS_THAN, SPACE]
                        + ((texts(written) + text(key)) + text(item@)));
                    written = written.push(key).push(item@);
                }
                i = i + 1;
            }
            out.push(GREATER_THAN);
            out.push(GREATER_THAN);
            out.push(SPACE);
            proof {
                let list = values(written);
                lemma_values(written);
                assert forall|j: int| 0 <= j < names.len() implies list[2 * j]
                    == ObjectView::Name(#[trigger] names[j]) && dict@.contains_key(names[j])
                    && list[2 * j + 1] == dict@[names[j]] by {
                    assert(written[2 * j] == Written::Name(names[j]));
                    assert(list[2 * j] == value(written[2 * j]));
                    assert(list[2 * j + 1] == value(written[2 * j + 1]));
                }
                lemma_pairs_of_names(list, names, dict@);
                assert forall|j: int| 0 <= j < written.len() && j % 2 == 0 implies (
                #[trigger] written[j]) is Name by {
                    assert(written[2 * (j / 2)] == Written::Name(names[j / 2]));
                }
                assert forall|name: PdfName| dict@.contains_key(name) implies writable(
                    #[trigger] dict@[name],
                ) by {
                    assert(names.contains(name));
                    let j = choose|j: int| 0 <= j < names.len() && names[j] == name;
                    assert(writable(dict@[names[j]]));
                }
                assert(out@ =~= old(out)@ + text(Written::Dictionary(written)));
            }
            (true, Ghost(Written::Dictionary(written)))
        },
        _ => (false, Ghost(Written::Null)),
    }
}

/// The canonical text of `object`, if the object has one.  Reading the
/// text gives a value equal to `object`.
pub fn emit(object: &PdfObject) -> (r: Option<Vec<u8>>)
    ensures
        r is Some <==> writable(object@),
        r matches Some(bytes) ==> exists|w: Written| #[trigger]
            well_formed(w) && value(w) == object@ && bytes@ == text(w),
        r matches Some(bytes) ==> object_at(bytes@, 0) == Ok::<(Option<ObjectView>, nat), PdfError>(
            (Some(object@), (bytes@.len() - 1) as nat),
        ),
{
    let mut out: Vec<u8> = Vec::new();
    let (ok, written) = write_object(object, &mut out);
    if ok {
        proof {
            let w = written@;
            assert(out@ =~= text(w));
            lemma_text_shape(w);
            assert(out@.subrange(0, text(w).len() as int) =~= text(w));
            lemma_token_start(out@, 0);
            lemma_round_trip(w, out@, 0, 0);
        }
        Some(out)
    } else {
        None
    }
}

} // verus!

//! The object parser.
//!
//! `object_at` says which object is read from given bytes at a given cursor:
//! simple tokens become simple objects, and a bracket opens a list of objects
//! that runs until a closing bracket or the end.  In such a list the keyword
//! `R` turns the two integers before it into a reference.

use vstd::prelude::*;
use crate::errors::PdfError;
use crate::names::{PdfKeyword, PdfName};
use crate::next_token::{lemma_token_advances, next_token, token_at};
use crate::pdf_source::Source;
use crate::pdf_types::{
    array_view, lemma_array_view, Dictionary, NumberView, ObjectView, PdfNumber, PdfObject,
    PdfToken, Reference, TokenView,
};

verus! {

/// The object that a keyword stands for: `null`, `true` and `false` are
/// values, every other keyword stays a keyword.
pub open spec fn keyword_object(word: PdfKeyword) -> ObjectView {
    match word {
        PdfKeyword::null => ObjectView::Null,
        PdfKeyword::True => ObjectView::Boolean(true),
        PdfKeyword::False => ObjectView::Boolean(false),
        _ => ObjectView::Keyword(word),
    }
}

/// The list with its last two items, both integers, replaced by the
/// reference that they write; the number and the generation keep their low
/// 32 and 16 bits.
pub open spec fn folded(items: Seq<ObjectView>) -> Result<Seq<ObjectView>, PdfError> {
    if items.len() < 2 {
        Err(PdfError::InvalidPdf("not enough arguments for R"))
    } else {
        match (items[items.len() - 2], items[items.len() - 1]) {
            (
                ObjectView::Number(NumberView::Integer(id)),
                ObjectView::Number(NumberView::Integer(gen)),
            ) => Ok(
                items.subrange(0, items.len() - 2).push(
                    ObjectView::Reference(Reference { id: id as u32, gen: gen as u16 }),
                ),
            ),
            _ => Err(PdfError::InvalidPdf("invalid arguments to R")),
        }
    }
}

/// The map after the pair of `key` and `value` is entered.
pub open spec fn entered(key: ObjectView, value: ObjectView, rest: Map<PdfName, ObjectView>) -> Result<
    Map<PdfName, ObjectView>,
    PdfError,
> {
    match key {
        ObjectView::Name(name) => Ok(rest.insert(name, value)),
        ObjectView::Symbol(_) => Ok(rest),
        _ => Err(PdfError::InvalidPdf("malformed dictionary")),
    }
}

/// The map that a list of keys and values writes, pair by pair.  A pair
/// covers the pairs behind it, so of two values for one name the first
/// stays.  A pair whose key is a symbol is left out, and any other key that
/// is no name is a failure.
pub open spec fn pairs_map(items: Seq<ObjectView>) -> Result<Map<PdfName, ObjectView>, PdfError>
    decreases items.len(),
{
    if items.len() < 2 {
        Ok(Map::empty())
    } else {
        match pairs_map(items.subrange(2, items.len() as int)) {
            Err(e) => Err(e),
            Ok(rest) => entered(items[0], items[1], rest),
        }
    }
}

/// A list of even length: a list of odd length gets a null at its end.
pub open spec fn padded(items: Seq<ObjectView>) -> Seq<ObjectView> {
    if items.len() % 2 != 0 {
        items.push(ObjectView::Null)
    } else {
        items
    }
}

/// The dictionary that the objects between `<<` and `>>` write.
pub open spec fn dictionary_of(items: Seq<ObjectView>) -> Result<Map<PdfName, ObjectView>, PdfError> {
    pairs_map(padded(items))
}

/// The object read at `pos`, and the cursor behind it.  `None` stands for a
/// closing bracket or the end of the input.
pub open spec fn object_at(s: Seq<u8>, pos: nat) -> Result<(Option<ObjectView>, nat), PdfError>
    decreases s.len() - pos, 0nat,
{
    match token_at(s, pos) {
        Err(e) => Err(e),
        Ok((None, end)) => Ok((None, end)),
        Ok((Some(token), end)) => match token {
            TokenView::Keyword(word) => Ok((Some(keyword_object(word)), end)),
            TokenView::Integer(i) => Ok((Some(ObjectView::Number(NumberView::Integer(i))), end)),
            TokenView::Real(text) => Ok((Some(ObjectView::Number(NumberView::Real(text))), end)),
            TokenView::Name(name) => Ok((Some(ObjectView::Name(name)), end)),
            TokenView::Symbol(bytes) => Ok((Some(ObjectView::Symbol(bytes)), end)),
            TokenView::Str(bytes) => Ok((Some(ObjectView::String(bytes)), end)),
            TokenView::BeginArray => {
                // A token takes at least one byte, so the condition always holds.
                if pos < end <= s.len() {
                    match items_at(s, end, Seq::empty()) {
                        Err(e) => Err(e),
                        Ok((items, after)) => Ok((Some(ObjectView::Array(items)), after)),
                    }
                } else {
                    Ok((None, end))
                }
            },
            TokenView::BeginDictionary => {
                if pos < end <= s.len() {
                    match items_at(s, end, Seq::empty()) {
                        Err(e) => Err(e),
                        Ok((items, after)) => match dictionary_of(items) {
                            Err(e) => Err(e),
                            Ok(map) => Ok((Some(ObjectView::Dictionary(map)), after)),
                        },
                    }
                } else {
                    Ok((None, end))
                }
            },
            TokenView::EndArray => Ok((None, end)),
            TokenView::EndDictionary => Ok((None, end)),
        },
    }
}

/// The objects read from `pos` on, up to a closing bracket or the end, and
/// the cursor behind them.  `acc` holds the objects read so far.
pub open spec fn items_at(s: Seq<u8>, pos: nat, acc: Seq<ObjectView>) -> Result<
    (Seq<ObjectView>, nat),
    PdfError,
>
    decreases s.len() - pos, 1nat,
{
    match object_at(s, pos) {
        Err(e) => Err(e),
        Ok((None, end)) => Ok((acc, end)),
        Ok((Some(item), end)) => {
            // An object takes at least one byte, so the condition never holds.
            if !(pos < end <= s.len()) {
                Ok((acc, end))
            } else if item == ObjectView::Keyword(PdfKeyword::R) {
                match folded(acc) {
                    Err(e) => Err(e),
                    Ok(next) => items_at(s, end, next),
                }
            } else {
                items_at(s, end, acc.push(item))
            }
        },
    }
}

/// Reading an object never moves the cursor back, and an object that is
/// read takes at least one byte.
pub proof fn lemma_object_advances(s: Seq<u8>, pos: nat)
    ensures
        object_at(s, pos) matches Ok((found, end)) ==> pos <= end && (found is Some ==> pos < end
            <= s.len()) && (pos <= s.len() ==> end <= s.len()),
    decreases s.len() - pos, 0nat,
{
    lemma_token_advances(s, pos);
    match token_at(s, pos) {
        Ok((Some(token), end)) => {
            if token is BeginArray || token is BeginDictionary {
                lemma_items_advance(s, end, Seq::empty());
            }
        },
        _ => {},
    }
}

/// Reading a list of objects never moves the cursor back.
pub proof fn lemma_items_advance(s: Seq<u8>, pos: nat, acc: Seq<ObjectView>)
    ensures
        items_at(s, pos, acc) matches Ok((_, end)) ==> pos <= end && (pos <= s.len() ==> end
            <= s.len()),
    decreases s.len() - pos, 1nat,
{
    lemma_object_advances(s, pos);
    match object_at(s, pos) {
        Ok((Some(item), end)) => {
            if pos < end <= s.len() {
                if item == ObjectView::Keyword(PdfKeyword::R) {
                    match folded(acc) {
                        Err(e) => {},
                        Ok(next) => lemma_items_advance(s, end, next),
                    }
                } else {
                    lemma_items_advance(s, end, acc.push(item));
                }
            }
        },
        _ => {},
    }
}

/// The only failure of a list of pairs is a key that is neither name nor symbol.
pub proof fn lemma_pairs_failure(items: Seq<ObjectView>)
    ensures
        pairs_map(items) matches Err(e) ==> e == PdfError::InvalidPdf("malformed dictionary"),
    decreases items.len(),
{
    if items.len() >= 2 {
        lemma_pairs_failure(items.subrange(2, items.len() as int));
    }
}

/// Where the pairs from place `from` on fail, the whole list fails.
pub proof fn lemma_pairs_failure_spreads(items: Seq<ObjectView>, from: int)
    requires
        0 <= from <= items.len(),
        from % 2 == 0,
        items.len() % 2 == 0,
        pairs_map(items.subrange(from, items.len() as int)) is Err,
    ensures
        pairs_map(items) == Err::<Map<PdfName, ObjectView>, PdfError>(
            PdfError::InvalidPdf("malformed dictionary"),
        ),
    decreases from,
{
    if from == 0 {
        assert(items.subrange(0, items.len() as int) =~= items);
        lemma_pairs_failure(items);
    } else {
        let longer = items.subrange(from - 2, items.len() as int);
        assert(longer.subrange(2, longer.len() as int) =~= items.subrange(
            from,
            items.len() as int,
        ));
        lemma_pairs_failure_spreads(items, from - 2);
    }
}

/// What an object is, if there is one.
pub open spec fn object_view(found: Option<PdfObject>) -> Option<ObjectView> {
    match found {
        Some(object) => Some(object@),
        None => None,
    }
}

/// Turns the two integers at the end of `array` into a reference.
fn reference(array: &mut Vec<PdfObject>) -> (r: Result<(), PdfError>)
    ensures
        match folded(array_view(old(array)@)) {
            Ok(next) => r is Ok && array_view(final(array)@) == next,
            Err(e) => r == Err::<(), PdfError>(e),
        },
{
    if array.len() < 2 {
        Err(PdfError::InvalidPdf("not enough arguments for R"))
    } else {
        let ghost before = array@;
        let gen = array.pop().unwrap();
        let id = array.pop().unwrap();
        match (id, gen) {
            (PdfObject::Number(PdfNumber::Integer(id)), PdfObject::Number(PdfNumber::Integer(gen))) => {
                array.push(
                    PdfObject::Reference(
                        Reference::new(
                            #[verifier::truncate]
                            (id as u32),
                            #[verifier::truncate]
                            (gen as u16),
                        ),
                    ),
                );
                assert(array_view(array@) =~= folded(array_view(before))->Ok_0);
                Ok(())
            },
            _ => Err(PdfError::InvalidPdf("invalid arguments to R")),
        }
    }
}

/// Reads objects up to a closing bracket or the end.
fn items<S: Source>(source: &mut S) -> (r: Result<Vec<PdfObject>, PdfError>)
    ensures
        final(source).content() == old(source).content(),
        match items_at(old(source).content(), old(source).cursor(), Seq::empty()) {
            Ok((views, end)) => r matches Ok(list) && array_view(list@) == views && final(
                source
            ).cursor() == end,
            Err(e) => r == Err::<Vec<PdfObject>, PdfError>(e),
        },
    decreases old(source).content().len() - old(source).cursor(), 1nat,
{
    let ghost s = source.content();
    let ghost start = source.cursor();
    let mut array: Vec<PdfObject> = Vec::new();
    assert(array_view(array@) =~= Seq::empty());
    loop
        invariant
            source.content() == s,
            s == old(source).content(),
            start == old(source).cursor(),
            start <= source.cursor(),
            source.cursor() == start || source.cursor() <= s.len(),
            items_at(s, source.cursor(), array_view(array@)) == items_at(s, start, Seq::empty()),
        decreases s.len() - source.cursor(),
    {
        proof {
            lemma_object_advances(s, source.cursor());
        }
        let ghost before = array@;
        match next_object(source)? {
            None => {
                return Ok(array);
            },
            Some(object) => {
                let fold = match &object {
                    PdfObject::Keyword(PdfKeyword::R) => true,
                    _ => false,
                };
                if fold {
                    reference(&mut array)?;
                } else {
                    array.push(object);
                    assert(array_view(array@) =~= array_view(before).push(object@));
                }
            },
        }
    }
}

/// Reads an array whose opening bracket was just read.
fn array<S: Source>(source: &mut S) -> (r: Result<Option<PdfObject>, PdfError>)
    ensures
        final(source).content() == old(source).content(),
        match items_at(old(source).content(), old(source).cursor(), Seq::empty()) {
            Ok((views, end)) => r matches Ok(Some(object)) && object@ == ObjectView::Array(views)
                && final(source).cursor() == end,
            Err(e) => r == Err::<Option<PdfObject>, PdfError>(e),
        },
    decreases old(source).content().len() - old(source).cursor(), 2nat,
{
    let list = items(source)?;
    proof {
        lemma_array_view(list);
    }
    Ok(Some(PdfObject::Array(list)))
}

/// Builds a dictionary from the keys and values between its brackets.
pub fn build_dictionary(list: Vec<PdfObject>) -> (r: Result<Dictionary, PdfError>)
    ensures
        match dictionary_of(array_view(list@)) {
            Ok(map) => r matches Ok(dict) && dict@ == map,
            Err(e) => r == Err::<Dictionary, PdfError>(e),
        },
{
    let mut array = list;
    if array.len() % 2 != 0 {
        array.push(PdfObject::Null);
    }
    let ghost all = array_view(array@);
    assert(all =~= padded(array_view(list@)));
    let mut dict = Dictionary::new();
    assert(all.subrange(all.len() as int, all.len() as int) =~= Seq::empty());
    while array.len() != 0
        invariant
            all == padded(array_view(list@)),
            all.len() % 2 == 0,
            array@.len() % 2 == 0,
            array@.len() <= all.len(),
            array_view(array@) == all.subrange(0, array@.len() as int),
            pairs_map(all.subrange(array@.len() as int, all.len() as int)) == Ok::<
                Map<PdfName, ObjectView>,
                PdfError,
            >(dict@),
        decreases array@.len(),
    {
        let ghost at = array@.len() - 2;
        let ghost tail = all.subrange(at, all.len() as int);
        proof {
            assert(tail.subrange(2, tail.len() as int) =~= all.subrange(
                array@.len() as int,
                all.len() as int,
            ));
            assert(array_view(array@)[at] == all[at]);
            assert(array_view(array@)[at + 1] == all[at + 1]);
        }
        let ghost before = array@;
        let value = array.pop().unwrap();
        let name = array.pop().unwrap();
        assert(array_view(array@) =~= all.subrange(0, array@.len() as int));
        match name {
            PdfObject::Name(name) => {
                dict.insert(name, value);
            },
            PdfObject::Symbol(_) => {},
            _ => {
                proof {
                    lemma_pairs_failure_spreads(all, at);
                }
                return Err(PdfError::InvalidPdf("malformed dictionary"));
            },
        }
    }
    assert(all.subrange(0, all.len() as int) =~= all);
    Ok(dict)
}

/// Reads a dictionary whose opening brackets were just read.
fn dictionary<S: Source>(source: &mut S) -> (r: Result<Option<PdfObject>, PdfError>)
    ensures
        final(source).content() == old(source).content(),
        match items_at(old(source).content(), old(source).cursor(), Seq::empty()) {
            Ok((views, end)) => match dictionary_of(views) {
                Ok(map) => r matches Ok(Some(object)) && object@ == ObjectView::Dictionary(map)
                    && final(source).cursor() == end,
                Err(e) => r == Err::<Option<PdfObject>, PdfError>(e),
            },
            Err(e) => r == Err::<Option<PdfObject>, PdfError>(e),
        },
    decreases old(source).content().len() - old(source).cursor(), 2nat,
{
    let list = items(source)?;
    let dict = build_dictionary(list)?;
    Ok(Some(PdfObject::Dictionary(dict)))
}

/// Reads the next object.  `None` means a closing bracket or the end of the input.
pub fn next_object<S: Source>(source: &mut S) -> (r: Result<Option<PdfObject>, PdfError>)
    ensures
        final(source).content() == old(source).content(),
        match object_at(old(source).content(), old(source).cursor()) {
            Ok((found, end)) => r matches Ok(object) && object_view(object) == found && final(
                source
            ).cursor() == end,
            Err(e) => r == Err::<Option<PdfObject>, PdfError>(e),
        },
    decreases old(source).content().len() - old(source).cursor(), 0nat,
{
    proof {
        lemma_token_advances(source.content(), source.cursor());
    }
    match next_token(source)? {
        None => Ok(None),
        Some(token) => match token {
            PdfToken::Keyword(word) => match word {
                PdfKeyword::null => Ok(Some(PdfObject::Null)),
                PdfKeyword::True => Ok(Some(PdfObject::Boolean(true))),
                PdfKeyword::False => Ok(Some(PdfObject::Boolean(false))),
                _ => Ok(Some(PdfObject::Keyword(word))),
            },
            PdfToken::Integer(i) => Ok(Some(PdfObject::Number(PdfNumber::Integer(i)))),
            PdfToken::Real(text) => Ok(Some(PdfObject::Number(PdfNumber::Real(text)))),
            PdfToken::Name(name) => Ok(Some(PdfObject::Name(name))),
            PdfToken::Symbol(symbol) => Ok(Some(PdfObject::Symbol(symbol))),
            PdfToken::Str(bytes) => Ok(Some(PdfObject::String(bytes))),
            PdfToken::BeginArray => array(source),
            PdfToken::BeginDictionary => dictionary(source),
            PdfToken::EndArray => Ok(None),
            PdfToken::EndDictionary => Ok(None),
        },
    }
}

/// The outcome of asking for `keyword`: success behind the object read,
/// if that object is exactly this keyword.
pub open spec fn keyword_needed(s: Seq<u8>, pos: nat, keyword: PdfKeyword) -> Result<nat, PdfError> {
    match object_at(s, pos) {
        Err(e) => Err(e),
        Ok((found, end)) => if found == Some(ObjectView::Keyword(keyword)) {
            Ok(end)
        } else {
            Err(PdfError::KeywordExpected(keyword))
        },
    }
}

/// The outcome of asking for the integer `value`.
pub open spec fn u32_needed(s: Seq<u8>, pos: nat, value: u32) -> Result<nat, PdfError> {
    match object_at(s, pos) {
        Err(e) => Err(e),
        Ok((found, end)) => if found == Some(
            ObjectView::Number(NumberView::Integer(value as i64)),
        ) {
            Ok(end)
        } else {
            Err(PdfError::InvalidReferenceTarget)
        },
    }
}

/// The outcome of asking for a dictionary.
pub open spec fn dictionary_needed(s: Seq<u8>, pos: nat) -> Result<
    (Map<PdfName, ObjectView>, nat),
    PdfError,
> {
    match object_at(s, pos) {
        Err(e) => Err(e),
        Ok((found, end)) => match found {
            Some(ObjectView::Dictionary(map)) => Ok((map, end)),
            _ => Err(PdfError::InvalidPdf("dictionary expected")),
        },
    }
}

/// Reads an object and fails unless it is the keyword `keyword`.
pub fn need_keyword<S: Source>(source: &mut S, keyword: PdfKeyword) -> (r: Result<(), PdfError>)
    ensures
        final(source).content() == old(source).content(),
        match keyword_needed(old(source).content(), old(source).cursor(), keyword) {
            Ok(end) => r is Ok && final(source).cursor() == end,
            Err(e) => r == Err::<(), PdfError>(e),
        },
{
    match next_object(source)? {
        Some(PdfObject::Keyword(found)) => {
            if found == keyword {
                Ok(())
            } else {
                Err(PdfError::KeywordExpected(keyword))
            }
        },
        _ => Err(PdfError::KeywordExpected(keyword)),
    }
}

/// Reads an object and fails unless it is the integer `value`.
pub fn need_u32<S: Source>(source: &mut S, value: u32) -> (r: Result<(), PdfError>)
    ensures
        final(source).content() == old(source).content(),
        match u32_needed(old(source).content(), old(source).cursor(), value) {
            Ok(end) => r is Ok && final(source).cursor() == end,
            Err(e) => r == Err::<(), PdfError>(e),
        },
{
    match next_object(source)? {
        Some(PdfObject::Number(PdfNumber::Integer(i))) => {
            if i == value as i64 {
                Ok(())
            } else {
                Err(PdfError::InvalidReferenceTarget)
            }
        },
        _ => Err(PdfError::InvalidReferenceTarget),
    }
}

/// Reads an object and fails unless it is a dictionary.
pub fn need_dictionary<S: Source>(source: &mut S) -> (r: Result<Dictionary, PdfError>)
    ensures
        final(source).content() == old(source).content(),
        match dictionary_needed(old(source).content(), old(source).cursor()) {
            Ok((map, end)) => r matches Ok(dict) && dict@ == map && final(source).cursor() == end,
            Err(e) => r == Err::<Dictionary, PdfError>(e),
        },
{
    match next_object(source)? {
        Some(PdfObject::Dictionary(dict)) => Ok(dict),
        _ => Err(PdfError::InvalidPdf("dictionary expected")),
    }
}

/// Two pairs with different names may change places: the dictionary that a
/// list of pairs writes does not depend on the order in which names that
/// differ are written.
pub proof fn lemma_pairs_order(
    before: Seq<ObjectView>,
    one: PdfName,
    one_value: ObjectView,
    other: PdfName,
    other_value: ObjectView,
    behind: Seq<ObjectView>,
)
    requires
        before.len() % 2 == 0,
        one != other,
    ensures
        pairs_map(
            before + seq![ObjectView::Name(one), one_value, ObjectView::Name(other), other_value]
                + behind,
        ) == pairs_map(
            before + seq![ObjectView::Name(other), other_value, ObjectView::Name(one), one_value]
                + behind,
        ),
    decreases before.len(),
{
    let left = before + seq![
        ObjectView::Name(one),
        one_value,
        ObjectView::Name(other),
        other_value,
    ] + behind;
    let right = before + seq![
        ObjectView::Name(other),
        other_value,
        ObjectView::Name(one),
        one_value,
    ] + behind;
    if before.len() == 0 {
        let left_tail = left.subrange(2, left.len() as int);
        let right_tail = right.subrange(2, right.len() as int);
        assert(left_tail.subrange(2, left_tail.len() as int) =~= behind);
        assert(right_tail.subrange(2, right_tail.len() as int) =~= behind);
        assert(left[0] == ObjectView::Name(one) && left[1] == one_value);
        assert(right[0] == ObjectView::Name(other) && right[1] == other_value);
        assert(left_tail[0] == ObjectView::Name(other) && left_tail[1] == other_value);
        assert(right_tail[0] == ObjectView::Name(one) && right_tail[1] == one_value);
        assert(pairs_map(left_tail) == match pairs_map(behind) {
            Err(e) => Err::<Map<PdfName, ObjectView>, PdfError>(e),
            Ok(rest) => entered(left_tail[0], left_tail[1], rest),
        });
        assert(pairs_map(right_tail) == match pairs_map(behind) {
            Err(e) => Err::<Map<PdfName, ObjectView>, PdfError>(e),
            Ok(rest) => entered(right_tail[0], right_tail[1], rest),
        });
        match pairs_map(behind) {
            Ok(rest) => {
                assert(rest.insert(other, other_value).insert(one, one_value) =~= rest.insert(
                    one,
                    one_value,
                ).insert(other, other_value));
            },
            Err(e) => {},
        }
    } else {
        let shorter = before.subrange(2, before.len() as int);
        lemma_pairs_order(shorter, one, one_value, other, other_value, behind);
        assert(left[0] == before[0] && left[1] == before[1]);
        assert(right[0] == before[0] && right[1] == before[1]);
        assert(left.subrange(2, left.len() as int) =~= shorter + seq![
            ObjectView::Name(one),
            one_value,
            ObjectView::Name(other),
            other_value,
        ] + behind);
        assert(right.subrange(2, right.len() as int) =~= shorter + seq![
            ObjectView::Name(other),
            other_value,
            ObjectView::Name(one),
            one_value,
        ] + behind);
    }
}

} // verus!

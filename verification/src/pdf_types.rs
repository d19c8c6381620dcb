//! The tokens and objects of a PDF file, and what each of them stands for.
//!
//! Every executable type has a view: a value built from integers, sequences
//! and maps.  Contracts speak of views, so that two objects are the same
//! when they denote the same value, in whatever order a dictionary happens to
//! store its entries.

use vstd::prelude::*;
use vstd::std_specs::cmp::PartialEqSpecImpl;
use crate::names::{same_bytes, PdfKeyword, PdfName};

verus! {

/// The bytes of a string, a symbol or a real literal.
pub type PdfString = Vec<u8>;

/// The elements of an array, in order.
pub type Array = Vec<PdfObject>;

/// The generation number that marks a free slot.
pub const FREE_GEN: u16 = 0xffff;

/// The number and generation of an indirect object.
#[derive(Debug, Clone, Copy, PartialEq, Eq, Structural)]
pub struct Reference {
    pub id: u32,
    pub gen: u16,
}

impl Reference {
    /// The reference to generation `gen` of object `id`.
    pub fn new(id: u32, gen: u16) -> (r: Reference)
        ensures
            r == (Reference { id, gen }),
    {
        Reference { id, gen }
    }
}

/// A number as it was written.  A real keeps its literal: an optional sign
/// and decimal digits around exactly one point.
#[derive(Debug)]
pub enum PdfNumber {
    Integer(i64),
    Real(PdfString),
}

/// What a number stands for.
pub enum NumberView {
    Integer(i64),
    Real(Seq<u8>),
}

/// A lexical token.
#[derive(Debug)]
pub enum PdfToken {
    Keyword(PdfKeyword),
    Integer(i64),
    Real(PdfString),
    Name(PdfName),
    /// A name that is not among the well-known ones.
    Symbol(PdfString),
    Str(PdfString),
    BeginArray,
    EndArray,
    BeginDictionary,
    EndDictionary,
}

/// What a token stands for.
pub enum TokenView {
    Keyword(PdfKeyword),
    Integer(i64),
    Real(Seq<u8>),
    Name(PdfName),
    Symbol(Seq<u8>),
    Str(Seq<u8>),
    BeginArray,
    EndArray,
    BeginDictionary,
    EndDictionary,
}

/// A PDF object.
#[derive(Debug)]
pub enum PdfObject {
    Null,
    Keyword(PdfKeyword),
    Boolean(bool),
    Number(PdfNumber),
    String(PdfString),
    Name(PdfName),
    /// A name that is not among the well-known ones.
    Symbol(PdfString),
    Array(Array),
    Dictionary(Dictionary),
    Reference(Reference),
}

/// What an object stands for: arrays are sequences, dictionaries are maps.
pub enum ObjectView {
    Null,
    Keyword(PdfKeyword),
    Boolean(bool),
    Number(NumberView),
    String(Seq<u8>),
    Name(PdfName),
    Symbol(Seq<u8>),
    Array(Seq<ObjectView>),
    Dictionary(Map<PdfName, ObjectView>),
    Reference(Reference),
}

/// A dictionary: at most one value for each well-known name.
#[derive(Debug)]
pub struct Dictionary {
    entries: Vec<(PdfName, PdfObject)>,
}

/// Whether some slot of `entries` holds `name`.
pub open spec fn has_name(entries: Seq<(PdfName, PdfObject)>, name: PdfName) -> bool {
    exists|i: int| 0 <= i < entries.len() && (#[trigger] entries[i]).0 == name
}

/// Some slot of `entries` that holds `name`, if there is one.
pub open spec fn slot_of(entries: Seq<(PdfName, PdfObject)>, name: PdfName) -> int {
    choose|i: int| 0 <= i < entries.len() && (#[trigger] entries[i]).0 == name
}

/// With all names different, the slot of a name is the one it is found in.
pub proof fn lemma_slot(entries: Seq<(PdfName, PdfObject)>, i: int)
    requires
        distinct_names(entries),
        0 <= i < entries.len(),
    ensures
        has_name(entries, entries[i].0),
        slot_of(entries, entries[i].0) == i,
{
    let name = entries[i].0;
    assert(entries[i].0 == name);
    let found = slot_of(entries, name);
    assert(0 <= found < entries.len() && entries[found].0 == name);
}

/// Whether no name occurs in two slots.
pub open spec fn distinct_names(entries: Seq<(PdfName, PdfObject)>) -> bool {
    forall|i: int, j: int|
        0 <= i < entries.len() && 0 <= j < entries.len() && i != j ==> entries[i].0
            != entries[j].0
}

impl PdfNumber {
    pub open spec fn view(&self) -> NumberView {
        match self {
            PdfNumber::Integer(i) => NumberView::Integer(*i),
            PdfNumber::Real(text) => NumberView::Real(text@),
        }
    }
}

impl PdfToken {
    pub open spec fn view(&self) -> TokenView {
        match self {
            PdfToken::Keyword(word) => TokenView::Keyword(*word),
            PdfToken::Integer(i) => TokenView::Integer(*i),
            PdfToken::Real(text) => TokenView::Real(text@),
            PdfToken::Name(name) => TokenView::Name(*name),
            PdfToken::Symbol(bytes) => TokenView::Symbol(bytes@),
            PdfToken::Str(bytes) => TokenView::Str(bytes@),
            PdfToken::BeginArray => TokenView::BeginArray,
            PdfToken::EndArray => TokenView::EndArray,
            PdfToken::BeginDictionary => TokenView::BeginDictionary,
            PdfToken::EndDictionary => TokenView::EndDictionary,
        }
    }
}

/// The views of the elements of an array.
pub open spec fn array_view(items: Seq<PdfObject>) -> Seq<ObjectView> {
    Seq::new(items.len(), |i: int| items[i]@)
}

impl PdfObject {
    pub open spec fn view(&self) -> ObjectView
        decreases self,
    {
        match self {
            PdfObject::Null => ObjectView::Null,
            PdfObject::Keyword(word) => ObjectView::Keyword(*word),
            PdfObject::Boolean(b) => ObjectView::Boolean(*b),
            PdfObject::Number(n) => ObjectView::Number(n@),
            PdfObject::String(bytes) => ObjectView::String(bytes@),
            PdfObject::Name(name) => ObjectView::Name(*name),
            PdfObject::Symbol(bytes) => ObjectView::Symbol(bytes@),
            PdfObject::Array(items) => ObjectView::Array(
                Seq::new(
                    items@.len(),
                    |i: int|
                        if 0 <= i < items@.len() {
                            items@[i].view()
                        } else {
                            ObjectView::Null
                        },
                ),
            ),
            PdfObject::Dictionary(dict) => ObjectView::Dictionary(dict.view()),
            PdfObject::Reference(r) => ObjectView::Reference(*r),
        }
    }
}

impl Dictionary {
    /// The map from the names that have an entry to the views of their values.
    pub closed spec fn view(&self) -> Map<PdfName, ObjectView>
        decreases self,
    {
        let entries = self.entries@;
        Map::new(
            |name: PdfName| has_name(entries, name),
            |name: PdfName|
                {
                    let i = slot_of(entries, name);
                    if 0 <= i < entries.len() {
                        entries[i].1.view()
                    } else {
                        ObjectView::Null
                    }
                },
        )
    }

    #[verifier::type_invariant]
    spec fn well_formed(&self) -> bool {
        distinct_names(self.entries@)
    }

    /// The names that have an entry, in the order in which they are stored.
    pub closed spec fn names(&self) -> Seq<PdfName> {
        Seq::new(self.entries@.len(), |i: int| self.entries@[i].0)
    }

    /// The empty dictionary.
    pub fn new() -> (dict: Dictionary)
        ensures
            dict@ == Map::<PdfName, ObjectView>::empty(),
            dict.names().len() == 0,
    {
        let dict = Dictionary { entries: Vec::new() };
        assert(dict@ =~= Map::<PdfName, ObjectView>::empty());
        dict
    }

    /// The slot that holds `name`.
    fn position(&self, name: PdfName) -> (slot: Option<usize>)
        ensures
            match slot {
                Some(i) => i < self.entries@.len() && self.entries@[i as int].0 == name
                    && self@.contains_key(name) && self@[name] == self.entries@[i as int].1@,
                None => !self@.contains_key(name),
            },
    {
        proof {
            use_type_invariant(self);
        }
        let mut i: usize = 0;
        while i < self.entries.len()
            invariant
                i <= self.entries@.len(),
                distinct_names(self.entries@),
                forall|j: int| 0 <= j < i ==> (#[trigger] self.entries@[j]).0 != name,
            decreases self.entries@.len() - i,
        {
            if self.entries[i].0 == name {
                proof {
                    lemma_slot(self.entries@, i as int);
                }
                return Some(i);
            }
            i = i + 1;
        }
        None
    }

    /// How many names have an entry.  They are all different, and they are
    /// the names that the view maps.
    pub fn len(&self) -> (n: usize)
        ensures
            n == self.names().len(),
            self.names().no_duplicates(),
            forall|name: PdfName| self@.contains_key(name) <==> self.names().contains(name),
    {
        proof {
            use_type_invariant(self);
            let names = self.names();
            assert forall|name: PdfName| self@.contains_key(name) implies names.contains(name) by {
                let i = slot_of(self.entries@, name);
                assert(names[i] == name);
            }
            assert forall|name: PdfName| names.contains(name) implies self@.contains_key(
                name,
            ) by {
                let i = choose|i: int| 0 <= i < names.len() && names[i] == name;
                assert(self.entries@[i].0 == name);
            }
        }
        self.entries.len()
    }

    /// The name in slot `i`.
    pub fn name_at(&self, i: usize) -> (name: PdfName)
        requires
            i < self.names().len(),
        ensures
            name == self.names()[i as int],
            self@.contains_key(name),
    {
        self.entries[i].0
    }

    /// The value in slot `i`.
    pub fn value_at(&self, i: usize) -> (value: &PdfObject)
        requires
            i < self.names().len(),
        ensures
            self@.contains_key(self.names()[i as int]),
            value@ == self@[self.names()[i as int]],
            decreases_to!(*self => *value),
    {
        proof {
            use_type_invariant(self);
            lemma_slot(self.entries@, i as int);
        }
        &self.entries[i].1
    }

    /// The value entered for `name`.
    pub fn get(&self, name: PdfName) -> (found: Option<&PdfObject>)
        ensures
            match found {
                Some(value) => self@.contains_key(name) && self@[name] == value@,
                None => !self@.contains_key(name),
            },
    {
        match self.position(name) {
            Some(i) => Some(&self.entries[i].1),
            None => None,
        }
    }

    /// Whether `name` has an entry.
    pub fn contains_key(&self, name: PdfName) -> (found: bool)
        ensures
            found == self@.contains_key(name),
    {
        self.position(name).is_some()
    }

    /// Enters `value` for `name` and returns the value it replaces.
    pub fn insert(&mut self, name: PdfName, value: PdfObject) -> (replaced: Option<PdfObject>)
        ensures
            final(self)@ == old(self)@.insert(name, value@),
            match replaced {
                Some(before) => old(self)@.contains_key(name) && old(self)@[name] == before@,
                None => !old(self)@.contains_key(name),
            },
    {
        proof {
            use_type_invariant(&*self);
        }
        let replaced = self.remove(name);
        let ghost without = self.entries@;
        let ghost middle = self@;
        proof {
            use_type_invariant(&*self);
            assert(!middle.contains_key(name));
            assert(!has_name(without, name));
        }
        let mut entries: Vec<(PdfName, PdfObject)> = Vec::new();
        core::mem::swap(&mut entries, &mut self.entries);
        entries.push((name, value));
        proof {
            let last = entries@.len() - 1;
            assert forall|i: int, j: int|
                0 <= i < entries@.len() && 0 <= j < entries@.len() && i != j implies entries@[i].0
                != entries@[j].0 by {
                if i < last {
                    assert(without[i] == entries@[i]);
                }
                if j < last {
                    assert(without[j] == entries@[j]);
                }
            }
        }
        core::mem::swap(&mut entries, &mut self.entries);
        proof {
            let entries = self.entries@;
            let last = entries.len() - 1;
            assert(forall|i: int| 0 <= i < last ==> entries[i] == without[i]);
            assert(entries[last].0 == name);
            assert forall|key: PdfName| #[trigger]
                self@.contains_key(key) == middle.insert(name, value@).contains_key(key) by {
                if key == name {
                    assert(entries[last].0 == key);
                } else if middle.contains_key(key) {
                    let i = slot_of(without, key);
                    assert(entries[i].0 == key);
                } else if self@.contains_key(key) {
                    let i = slot_of(entries, key);
                    assert(without[i].0 == key);
                }
            }
            assert forall|key: PdfName| #[trigger] self@.contains_key(key) implies self@[key]
                == middle.insert(name, value@)[key] by {
                let i = slot_of(entries, key);
                if key == name {
                    assert(i == last);
                } else {
                    let j = slot_of(without, key);
                    assert(without[i].0 == key);
                    assert(i == j);
                }
            }
            assert(self@ =~= middle.insert(name, value@));
            assert(middle.insert(name, value@) =~= old(self)@.insert(name, value@));
        }
        replaced
    }

    /// Takes the entry for `name` out and returns its value.
    pub fn remove(&mut self, name: PdfName) -> (removed: Option<PdfObject>)
        ensures
            final(self)@ == old(self)@.remove(name),
            match removed {
                Some(before) => old(self)@.contains_key(name) && old(self)@[name] == before@,
                None => !old(self)@.contains_key(name),
            },
    {
        proof {
            use_type_invariant(&*self);
        }
        match self.position(name) {
            Some(at) => {
                let ghost before = self.entries@;
                let mut entries: Vec<(PdfName, PdfObject)> = Vec::new();
                core::mem::swap(&mut entries, &mut self.entries);
                let entry = entries.swap_remove(at);
                core::mem::swap(&mut entries, &mut self.entries);
                proof {
                    let entries = self.entries@;
                    let last = before.len() - 1;
                    // Slot `at` now holds what the last slot held; the others are as before.
                    assert forall|i: int| 0 <= i < entries.len() implies entries[i] == before[if i
                        == at {
                        last
                    } else {
                        i
                    }] by {}
                    assert forall|key: PdfName| #[trigger]
                        self@.contains_key(key) == old(self)@.remove(name).contains_key(key) by {
                        if self@.contains_key(key) {
                            let i = slot_of(entries, key);
                            let source = if i == at {
                                last
                            } else {
                                i
                            };
                            assert(before[source].0 == key);
                        } else if old(self)@.remove(name).contains_key(key) {
                            let i = slot_of(before, key);
                            assert(i != at);
                            let target = if i == last {
                                at as int
                            } else {
                                i
                            };
                            assert(entries[target].0 == key);
                        }
                    }
                    assert forall|key: PdfName| #[trigger] self@.contains_key(key) implies self@[key]
                        == old(self)@.remove(name)[key] by {
                        let i = slot_of(entries, key);
                        let source = if i == at {
                            last
                        } else {
                            i
                        };
                        assert(before[source].0 == key);
                        assert(slot_of(before, key) == source);
                    }
                    assert(self@ =~= old(self)@.remove(name));
                }
                Some(entry.1)
            },
            None => {
                assert(self@ =~= old(self)@.remove(name));
                None
            },
        }
    }
}

/// The view of an array object is the sequence of the views of its elements.
pub proof fn lemma_array_view(items: Vec<PdfObject>)
    ensures
        PdfObject::Array(items)@ == ObjectView::Array(array_view(items@)),
{
    assert(PdfObject::Array(items)@->Array_0 =~= array_view(items@));
}

/// A copy of the bytes.
pub fn copy_bytes(bytes: &[u8]) -> (copy: Vec<u8>)
    ensures
        copy@ == bytes@,
{
    let mut copy: Vec<u8> = Vec::new();
    let mut i: usize = 0;
    while i < bytes.len()
        invariant
            i <= bytes.len() == bytes@.len(),
            copy@ == bytes@.subrange(0, i as int),
        decreases bytes.len() - i,
    {
        copy.push(bytes[i]);
        i = i + 1;
        assert(copy@ =~= bytes@.subrange(0, i as int));
    }
    assert(bytes@ =~= bytes@.subrange(0, i as int));
    copy
}

/// Whether two numbers are written alike.
pub fn same_number(a: &PdfNumber, b: &PdfNumber) -> (same: bool)
    ensures
        same == (a@ == b@),
{
    match a {
        PdfNumber::Integer(x) => match b {
            PdfNumber::Integer(y) => *x == *y,
            _ => false,
        },
        PdfNumber::Real(x) => match b {
            PdfNumber::Real(y) => same_bytes(x.as_slice(), y.as_slice()),
            _ => false,
        },
    }
}

/// Whether two tokens stand for the same.
pub fn same_token(a: &PdfToken, b: &PdfToken) -> (same: bool)
    ensures
        same == (a@ == b@),
{
    match a {
        PdfToken::Keyword(x) => match b {
            PdfToken::Keyword(y) => *x == *y,
            _ => false,
        },
        PdfToken::Integer(x) => match b {
            PdfToken::Integer(y) => *x == *y,
            _ => false,
        },
        PdfToken::Real(x) => match b {
            PdfToken::Real(y) => same_bytes(x.as_slice(), y.as_slice()),
            _ => false,
        },
        PdfToken::Name(x) => match b {
            PdfToken::Name(y) => *x == *y,
            _ => false,
        },
        PdfToken::Symbol(x) => match b {
            PdfToken::Symbol(y) => same_bytes(x.as_slice(), y.as_slice()),
            _ => false,
        },
        PdfToken::Str(x) => match b {
            PdfToken::Str(y) => same_bytes(x.as_slice(), y.as_slice()),
            _ => false,
        },
        PdfToken::BeginArray => match b {
            PdfToken::BeginArray => true,
            _ => false,
        },
        PdfToken::EndArray => match b {
            PdfToken::EndArray => true,
            _ => false,
        },
        PdfToken::BeginDictionary => match b {
            PdfToken::BeginDictionary => true,
            _ => false,
        },
        PdfToken::EndDictionary => match b {
            PdfToken::EndDictionary => true,
            _ => false,
        },
    }
}

/// Whether two objects stand for the same value.  Arrays are compared
/// element by element, dictionaries entry by entry in whatever order each
/// stores them.
pub fn same_object(a: &PdfObject, b: &PdfObject) -> (same: bool)
    ensures
        same == (a@ == b@),
    decreases a, 0nat,
{
    match a {
        PdfObject::Null => match b {
            PdfObject::Null => true,
            _ => false,
        },
        PdfObject::Keyword(x) => match b {
            PdfObject::Keyword(y) => *x == *y,
            _ => false,
        },
        PdfObject::Boolean(x) => match b {
            PdfObject::Boolean(y) => *x == *y,
            _ => false,
        },
        PdfObject::Number(x) => match b {
            PdfObject::Number(y) => same_number(x, y),
            _ => false,
        },
        PdfObject::String(x) => match b {
            PdfObject::String(y) => same_bytes(x.as_slice(), y.as_slice()),
            _ => false,
        },
        PdfObject::Name(x) => match b {
            PdfObject::Name(y) => *x == *y,
            _ => false,
        },
        PdfObject::Symbol(x) => match b {
            PdfObject::Symbol(y) => same_bytes(x.as_slice(), y.as_slice()),
            _ => false,
        },
        PdfObject::Array(x) => match b {
            PdfObject::Array(y) => {
                proof {
                    lemma_array_view(*x);
                    lemma_array_view(*y);
                }
                same_array(x, y)
            },
            _ => false,
        },
        PdfObject::Dictionary(x) => match b {
            PdfObject::Dictionary(y) => same_dictionary(x, y),
            _ => false,
        },
        PdfObject::Reference(x) => match b {
            PdfObject::Reference(y) => *x == *y,
            _ => false,
        },
    }
}

/// Whether two arrays have the same length and stand for the same, place by place.
pub fn same_array(a: &Array, b: &Array) -> (same: bool)
    ensures
        same == (array_view(a@) == array_view(b@)),
    decreases a, 1nat,
{
    if a.len() != b.len() {
        assert(array_view(a@).len() != array_view(b@).len());
        return false;
    }
    let mut i: usize = 0;
    while i < a.len()
        invariant
            a@.len() == b@.len(),
            i <= a@.len(),
            forall|j: int| 0 <= j < i ==> (#[trigger] a@[j])@ == b@[j]@,
        decreases a@.len() - i,
    {
        if !same_object(&a[i], &b[i]) {
            assert(array_view(a@)[i as int] != array_view(b@)[i as int]);
            return false;
        }
        i = i + 1;
    }
    assert(array_view(a@) =~= array_view(b@));
    true
}

/// Whether two dictionaries map the same names to the same values.
pub fn same_dictionary(a: &Dictionary, b: &Dictionary) -> (same: bool)
    ensures
        same == (a@ == b@),
    decreases a, 1nat,
{
    proof {
        use_type_invariant(a);
        use_type_invariant(b);
    }
    let mut i: usize = 0;
    while i < a.entries.len()
        invariant
            i <= a.entries@.len(),
            distinct_names(a.entries@),
            forall|j: int|
                0 <= j < i ==> b@.contains_key((#[trigger] a.entries@[j]).0) && b@[a.entries@[j].0]
                    == a.entries@[j].1@,
        decreases a.entries@.len() - i,
    {
        proof {
            lemma_slot(a.entries@, i as int);
        }
        match b.get(a.entries[i].0) {
            Some(value) => {
                if !same_object(&a.entries[i].1, value) {
                    assert(a@[a.entries@[i as int].0] != b@[a.entries@[i as int].0]);
                    return false;
                }
            },
            None => {
                assert(a@.contains_key(a.entries@[i as int].0));
                return false;
            },
        }
        i = i + 1;
    }
    let mut k: usize = 0;
    while k < b.entries.len()
        invariant
            k <= b.entries@.len(),
            distinct_names(b.entries@),
            forall|j: int| 0 <= j < k ==> a@.contains_key((#[trigger] b.entries@[j]).0),
        decreases b.entries@.len() - k,
    {
        proof {
            lemma_slot(b.entries@, k as int);
        }
        if !a.contains_key(b.entries[k].0) {
            assert(b@.contains_key(b.entries@[k as int].0));
            return false;
        }
        k = k + 1;
    }
    proof {
        assert forall|name: PdfName| a@.contains_key(name) == b@.contains_key(name) by {
            if a@.contains_key(name) {
                let j = slot_of(a.entries@, name);
                assert(a.entries@[j].0 == name);
            }
            if b@.contains_key(name) {
                let j = slot_of(b.entries@, name);
                assert(b.entries@[j].0 == name);
            }
        }
        assert forall|name: PdfName| a@.contains_key(name) implies a@[name] == b@[name] by {
            let j = slot_of(a.entries@, name);
            assert(a.entries@[j].0 == name);
        }
        assert(a@ =~= b@);
    }
    true
}

/// A copy of a number.
pub fn copy_number(n: &PdfNumber) -> (copy: PdfNumber)
    ensures
        copy@ == n@,
{
    match n {
        PdfNumber::Integer(i) => PdfNumber::Integer(*i),
        PdfNumber::Real(text) => PdfNumber::Real(copy_bytes(text.as_slice())),
    }
}

/// A copy of an object, down to the last element.
pub fn copy_object(object: &PdfObject) -> (copy: PdfObject)
    ensures
        copy@ == object@,
    decreases object, 0nat,
{
    match object {
        PdfObject::Null => PdfObject::Null,
        PdfObject::Keyword(word) => PdfObject::Keyword(*word),
        PdfObject::Boolean(b) => PdfObject::Boolean(*b),
        PdfObject::Number(n) => PdfObject::Number(copy_number(n)),
        PdfObject::String(bytes) => PdfObject::String(copy_bytes(bytes.as_slice())),
        PdfObject::Name(name) => PdfObject::Name(*name),
        PdfObject::Symbol(bytes) => PdfObject::Symbol(copy_bytes(bytes.as_slice())),
        PdfObject::Array(items) => {
            let copy = copy_array(items);
            proof {
                lemma_array_view(*items);
                lemma_array_view(copy);
            }
            PdfObject::Array(copy)
        },
        PdfObject::Dictionary(dict) => PdfObject::Dictionary(copy_dictionary(dict)),
        PdfObject::Reference(r) => PdfObject::Reference(*r),
    }
}

/// A copy of an array.
pub fn copy_array(items: &Array) -> (copy: Array)
    ensures
        array_view(copy@) == array_view(items@),
    decreases items, 1nat,
{
    let mut copy: Vec<PdfObject> = Vec::new();
    let mut i: usize = 0;
    while i < items.len()
        invariant
            i <= items@.len(),
            copy@.len() == i,
            forall|j: int| 0 <= j < i ==> (#[trigger] copy@[j])@ == items@[j]@,
        decreases items@.len() - i,
    {
        let item = copy_object(&items[i]);
        copy.push(item);
        i = i + 1;
    }
    assert(array_view(copy@) =~= array_view(items@));
    copy
}

/// A copy of a dictionary.
pub fn copy_dictionary(dict: &Dictionary) -> (copy: Dictionary)
    ensures
        copy@ == dict@,
    decreases dict, 1nat,
{
    proof {
        use_type_invariant(dict);
    }
    let mut entries: Vec<(PdfName, PdfObject)> = Vec::new();
    let mut i: usize = 0;
    while i < dict.entries.len()
        invariant
            i <= dict.entries@.len(),
            entries@.len() == i,
            forall|j: int|
                0 <= j < i ==> (#[trigger] entries@[j]).0 == dict.entries@[j].0 && entries@[j].1@
                    == dict.entries@[j].1@,
        decreases dict.entries@.len() - i,
    {
        let value = copy_object(&dict.entries[i].1);
        entries.push((dict.entries[i].0, value));
        i = i + 1;
    }
    proof {
        assert forall|a: int, b: int|
            0 <= a < entries@.len() && 0 <= b < entries@.len() && a != b implies entries@[a].0
            != entries@[b].0 by {
            assert(entries@[a].0 == dict.entries@[a].0);
            assert(entries@[b].0 == dict.entries@[b].0);
        }
    }
    let copy = Dictionary { entries };
    proof {
        assert forall|name: PdfName| copy@.contains_key(name) == dict@.contains_key(name) by {
            if copy@.contains_key(name) {
                let j = slot_of(copy.entries@, name);
                assert(dict.entries@[j].0 == name);
            }
            if dict@.contains_key(name) {
                let j = slot_of(dict.entries@, name);
                assert(copy.entries@[j].0 == name);
            }
        }
        assert forall|name: PdfName| copy@.contains_key(name) implies copy@[name] == dict@[name] by {
            let j = slot_of(copy.entries@, name);
            assert(dict.entries@[j].0 == name);
            lemma_slot(dict.entries@, j);
        }
        assert(copy@ =~= dict@);
    }
    copy
}

impl Clone for PdfNumber {
    fn clone(&self) -> (copy: Self)
        ensures
            copy@ == self@,
    {
        copy_number(self)
    }
}

impl Clone for PdfObject {
    fn clone(&self) -> (copy: Self)
        ensures
            copy@ == self@,
    {
        copy_object(self)
    }
}

impl Clone for Dictionary {
    fn clone(&self) -> (copy: Self)
        ensures
            copy@ == self@,
    {
        copy_dictionary(self)
    }
}

impl PartialEq for PdfNumber {
    fn eq(&self, other: &Self) -> (same: bool) {
        same_number(self, other)
    }
}

impl PartialEqSpecImpl for PdfNumber {
    open spec fn obeys_eq_spec() -> bool {
        true
    }

    open spec fn eq_spec(&self, other: &Self) -> bool {
        self@ == other@
    }
}

impl PartialEq for PdfToken {
    fn eq(&self, other: &Self) -> (same: bool) {
        same_token(self, other)
    }
}

impl PartialEqSpecImpl for PdfToken {
    open spec fn obeys_eq_spec() -> bool {
        true
    }

    open spec fn eq_spec(&self, other: &Self) -> bool {
        self@ == other@
    }
}

impl PartialEq for PdfObject {
    fn eq(&self, other: &Self) -> (same: bool) {
        same_object(self, other)
    }
}

impl PartialEqSpecImpl for PdfObject {
    open spec fn obeys_eq_spec() -> bool {
        true
    }

    open spec fn eq_spec(&self, other: &Self) -> bool {
        self@ == other@
    }
}

impl PartialEq for Dictionary {
    fn eq(&self, other: &Self) -> (same: bool) {
        same_dictionary(self, other)
    }
}

impl PartialEqSpecImpl for Dictionary {
    open spec fn obeys_eq_spec() -> bool {
        true
    }

    open spec fn eq_spec(&self, other: &Self) -> bool {
        self@ == other@
    }
}

} // verus!

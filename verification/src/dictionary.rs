//! Typed access to the entries of a dictionary.
//!
//! A lookup answers `None` both where the name has no entry and where its
//! value is of another type.  The `get_` methods leave the dictionary as it
//! is and hand out copies; the `remove_` methods take the entry out, whatever
//! its type, and hand its value over if the type fits.

use vstd::prelude::*;
use crate::errors::PdfError;
use crate::names::PdfName;
use crate::pdf_types::{
    array_view, copy_array, copy_bytes, copy_dictionary, copy_number, lemma_array_view, Array,
    Dictionary, NumberView, ObjectView, PdfNumber, PdfObject, PdfString, Reference,
};

verus! {

/// The value entered for `name`, if there is one.
pub open spec fn lookup(map: Map<PdfName, ObjectView>, name: PdfName) -> Option<ObjectView> {
    if map.contains_key(name) {
        Some(map[name])
    } else {
        None
    }
}

/// The reference entered for `name`.
pub open spec fn reference_in(map: Map<PdfName, ObjectView>, name: PdfName) -> Option<Reference> {
    match lookup(map, name) {
        Some(ObjectView::Reference(r)) => Some(r),
        _ => None,
    }
}

/// The integer entered for `name`, as it is written.
pub open spec fn integer_in(map: Map<PdfName, ObjectView>, name: PdfName) -> Option<i64> {
    match lookup(map, name) {
        Some(ObjectView::Number(NumberView::Integer(i))) => Some(i),
        _ => None,
    }
}

/// The bytes of the string entered for `name`.
pub open spec fn string_in(map: Map<PdfName, ObjectView>, name: PdfName) -> Option<Seq<u8>> {
    match lookup(map, name) {
        Some(ObjectView::String(bytes)) => Some(bytes),
        _ => None,
    }
}

/// The name entered for `name`.
pub open spec fn name_in(map: Map<PdfName, ObjectView>, name: PdfName) -> Option<PdfName> {
    match lookup(map, name) {
        Some(ObjectView::Name(value)) => Some(value),
        _ => None,
    }
}

/// The bytes of the symbol entered for `name`.
pub open spec fn symbol_in(map: Map<PdfName, ObjectView>, name: PdfName) -> Option<Seq<u8>> {
    match lookup(map, name) {
        Some(ObjectView::Symbol(bytes)) => Some(bytes),
        _ => None,
    }
}

/// The number entered for `name`.
pub open spec fn number_in(map: Map<PdfName, ObjectView>, name: PdfName) -> Option<NumberView> {
    match lookup(map, name) {
        Some(ObjectView::Number(n)) => Some(n),
        _ => None,
    }
}

/// The items of the array entered for `name`.
pub open spec fn array_in(map: Map<PdfName, ObjectView>, name: PdfName) -> Option<
    Seq<ObjectView>,
> {
    match lookup(map, name) {
        Some(ObjectView::Array(items)) => Some(items),
        _ => None,
    }
}

/// The dictionary entered for `name`.
pub open spec fn dictionary_in(map: Map<PdfName, ObjectView>, name: PdfName) -> Option<
    Map<PdfName, ObjectView>,
> {
    match lookup(map, name) {
        Some(ObjectView::Dictionary(inner)) => Some(inner),
        _ => None,
    }
}

/// Typed lookups in a dictionary.
pub trait Access {
    /// What the dictionary maps.
    spec fn mapping(&self) -> Map<PdfName, ObjectView>;

    /// The reference entered for `name`.
    fn get_reference(&self, name: PdfName) -> (r: Option<Reference>)
        ensures
            r == reference_in(self.mapping(), name),
    ;

    /// The integer entered for `name`, cut to its low 32 bits.
    fn get_i32(&self, name: PdfName) -> (r: Option<i32>)
        ensures
            match integer_in(self.mapping(), name) {
                Some(i) => r == Some(i as i32),
                None => r is None,
            },
    ;

    /// The integer entered for `name`, cut to its low 32 bits.
    fn get_u32(&self, name: PdfName) -> (r: Option<u32>)
        ensures
            match integer_in(self.mapping(), name) {
                Some(i) => r == Some(i as u32),
                None => r is None,
            },
    ;

    /// The integer entered for `name`, read as unsigned.
    fn get_u64(&self, name: PdfName) -> (r: Option<u64>)
        ensures
            match integer_in(self.mapping(), name) {
                Some(i) => r == Some(i as u64),
                None => r is None,
            },
    ;

    /// A copy of the string entered for `name`.
    fn get_string(&self, name: PdfName) -> (r: Option<PdfString>)
        ensures
            match string_in(self.mapping(), name) {
                Some(bytes) => r matches Some(copy) && copy@ == bytes,
                None => r is None,
            },
    ;

    /// The name entered for `name`.
    fn get_name(&self, name: PdfName) -> (r: Option<PdfName>)
        ensures
            r == name_in(self.mapping(), name),
    ;

    /// A copy of the symbol entered for `name`.
    fn get_symbol(&self, name: PdfName) -> (r: Option<PdfString>)
        ensures
            match symbol_in(self.mapping(), name) {
                Some(bytes) => r matches Some(copy) && copy@ == bytes,
                None => r is None,
            },
    ;

    /// A copy of the number entered for `name`.
    fn get_number(&self, name: PdfName) -> (r: Option<PdfNumber>)
        ensures
            match number_in(self.mapping(), name) {
                Some(n) => r matches Some(copy) && copy@ == n,
                None => r is None,
            },
    ;

    /// A copy of the array entered for `name`.
    fn get_array(&self, name: PdfName) -> (r: Option<Array>)
        ensures
            match array_in(self.mapping(), name) {
                Some(items) => r matches Some(copy) && array_view(copy@) == items,
                None => r is None,
            },
    ;

    /// A copy of the dictionary entered for `name`.
    fn get_dictionary(&self, name: PdfName) -> (r: Option<Dictionary>)
        ensures
            match dictionary_in(self.mapping(), name) {
                Some(inner) => r matches Some(copy) && copy@ == inner,
                None => r is None,
            },
    ;

    /// Takes the entry for `name` out; hands its value over if it is a string.
    fn remove_string(&mut self, name: PdfName) -> (r: Option<PdfString>)
        ensures
            final(self).mapping() == old(self).mapping().remove(name),
            match string_in(old(self).mapping(), name) {
                Some(bytes) => r matches Some(taken) && taken@ == bytes,
                None => r is None,
            },
    ;

    /// Takes the entry for `name` out; hands its value over if it is a symbol.
    fn remove_symbol(&mut self, name: PdfName) -> (r: Option<PdfString>)
        ensures
            final(self).mapping() == old(self).mapping().remove(name),
            match symbol_in(old(self).mapping(), name) {
                Some(bytes) => r matches Some(taken) && taken@ == bytes,
                None => r is None,
            },
    ;

    /// Takes the entry for `name` out; hands its value over if it is a dictionary.
    fn remove_dictionary(&mut self, name: PdfName) -> (r: Option<Dictionary>)
        ensures
            final(self).mapping() == old(self).mapping().remove(name),
            match dictionary_in(old(self).mapping(), name) {
                Some(inner) => r matches Some(taken) && taken@ == inner,
                None => r is None,
            },
    ;

    /// Takes the entry for `name` out; hands its value over if it is an array.
    fn remove_array(&mut self, name: PdfName) -> (r: Option<Array>)
        ensures
            final(self).mapping() == old(self).mapping().remove(name),
            match array_in(old(self).mapping(), name) {
                Some(items) => r matches Some(taken) && array_view(taken@) == items,
                None => r is None,
            },
    ;
}

impl Access for Dictionary {
    open spec fn mapping(&self) -> Map<PdfName, ObjectView> {
        self@
    }

    fn get_reference(&self, name: PdfName) -> (r: Option<Reference>) {
        match self.get(name) {
            Some(PdfObject::Reference(r)) => Some(*r),
            _ => None,
        }
    }

    fn get_i32(&self, name: PdfName) -> (r: Option<i32>) {
        match self.get(name) {
            Some(PdfObject::Number(PdfNumber::Integer(i))) => Some(
                #[verifier::truncate]
                (*i as i32),
            ),
            _ => None,
        }
    }

    fn get_u32(&self, name: PdfName) -> (r: Option<u32>) {
        match self.get(name) {
            Some(PdfObject::Number(PdfNumber::Integer(i))) => Some(
                #[verifier::truncate]
                (*i as u32),
            ),
            _ => None,
        }
    }

    fn get_u64(&self, name: PdfName) -> (r: Option<u64>) {
        match self.get(name) {
            Some(PdfObject::Number(PdfNumber::Integer(i))) => Some(
                #[verifier::truncate]
                (*i as u64),
            ),
            _ => None,
        }
    }

    fn get_string(&self, name: PdfName) -> (r: Option<PdfString>) {
        match self.get(name) {
            Some(PdfObject::String(bytes)) => Some(copy_bytes(bytes.as_slice())),
            _ => None,
        }
    }

    fn get_name(&self, name: PdfName) -> (r: Option<PdfName>) {
        match self.get(name) {
            Some(PdfObject::Name(value)) => Some(*value),
            _ => None,
        }
    }

    fn get_symbol(&self, name: PdfName) -> (r: Option<PdfString>) {
        match self.get(name) {
            Some(PdfObject::Symbol(bytes)) => Some(copy_bytes(bytes.as_slice())),
            _ => None,
        }
    }

    fn get_number(&self, name: PdfName) -> (r: Option<PdfNumber>) {
        match self.get(name) {
            Some(PdfObject::Number(n)) => Some(copy_number(n)),
            _ => None,
        }
    }

    fn get_array(&self, name: PdfName) -> (r: Option<Array>) {
        match self.get(name) {
            Some(PdfObject::Array(items)) => {
                proof {
                    lemma_array_view(*items);
                }
                Some(copy_array(items))
            },
            _ => None,
        }
    }

    fn get_dictionary(&self, name: PdfName) -> (r: Option<Dictionary>) {
        match self.get(name) {
            Some(PdfObject::Dictionary(inner)) => Some(copy_dictionary(inner)),
            _ => None,
        }
    }

    fn remove_string(&mut self, name: PdfName) -> (r: Option<PdfString>) {
        match self.remove(name) {
            Some(PdfObject::String(bytes)) => Some(bytes),
            _ => None,
        }
    }

    fn remove_symbol(&mut self, name: PdfName) -> (r: Option<PdfString>) {
        match self.remove(name) {
            Some(PdfObject::Symbol(bytes)) => Some(bytes),
            _ => None,
        }
    }

    fn remove_dictionary(&mut self, name: PdfName) -> (r: Option<Dictionary>) {
        match self.remove(name) {
            Some(PdfObject::Dictionary(inner)) => Some(inner),
            _ => None,
        }
    }

    fn remove_array(&mut self, name: PdfName) -> (r: Option<Array>) {
        match self.remove(name) {
            Some(PdfObject::Array(items)) => {
                proof {
                    lemma_array_view(items);
                }
                Some(items)
            },
            _ => None,
        }
    }
}

impl Dictionary {
    /// Takes the entry for `name` out; hands its value over if it is a reference.
    pub fn want_reference(&mut self, name: PdfName) -> (r: Option<Reference>)
        ensures
            final(self)@ == old(self)@.remove(name),
            match reference_in(old(self)@, name) {
                Some(v) => r == Some(v),
                None => r is None,
            },
    {
        match self.remove(name) {
            Some(PdfObject::Reference(r)) => Some(r),
            _ => None,
        }
    }

    /// Takes the entry for `name` out; fails with `err` unless its value is a reference.
    pub fn need_reference(&mut self, name: PdfName, err: PdfError) -> (r: Result<Reference, PdfError>)
        ensures
            final(self)@ == old(self)@.remove(name),
            match reference_in(old(self)@, name) {
                Some(v) => r == Ok::<Reference, PdfError>(v),
                None => r == Err::<Reference, PdfError>(err),
            },
    {
        match self.want_reference(name) {
            Some(value) => Ok(value),
            None => Err(err),
        }
    }

    /// Takes the entry for `name` out; hands its value over if it is an integer; gives its low 32 bits, signed.
    pub fn want_i32(&mut self, name: PdfName) -> (r: Option<i32>)
        ensures
            final(self)@ == old(self)@.remove(name),
            match integer_in(old(self)@, name) {
                Some(i) => r == Some(i as i32),
                None => r is None,
            },
    {
        match self.remove(name) {
            Some(PdfObject::Number(PdfNumber::Integer(i))) => Some(
                #[verifier::truncate]
                (i as i32),
            ),
            _ => None,
        }
    }

    /// Takes the entry for `name` out; fails with `err` unless its value is an integer; gives its low 32 bits, signed.
    pub fn need_i32(&mut self, name: PdfName, err: PdfError) -> (r: Result<i32, PdfError>)
        ensures
            final(self)@ == old(self)@.remove(name),
            match integer_in(old(self)@, name) {
                Some(i) => r == Ok::<i32, PdfError>(i as i32),
                None => r == Err::<i32, PdfError>(err),
            },
    {
        match self.want_i32(name) {
            Some(value) => Ok(value),
            None => Err(err),
        }
    }

    /// Takes the entry for `name` out; hands its value over if it is an integer; gives its low 32 bits.
    pub fn want_u32(&mut self, name: PdfName) -> (r: Option<u32>)
        ensures
            final(self)@ == old(self)@.remove(name),
            match integer_in(old(self)@, name) {
                Some(i) => r == Some(i as u32),
                None => r is None,
            },
    {
        match self.remove(name) {
            Some(PdfObject::Number(PdfNumber::Integer(i))) => Some(
                #[verifier::truncate]
                (i as u32),
            ),
            _ => None,
        }
    }

    /// Takes the entry for `name` out; fails with `err` unless its value is an integer; gives its low 32 bits.
    pub fn need_u32(&mut self, name: PdfName, err: PdfError) -> (r: Result<u32, PdfError>)
        ensures
            final(self)@ == old(self)@.remove(name),
            match integer_in(old(self)@, name) {
                Some(i) => r == Ok::<u32, PdfError>(i as u32),
                None => r == Err::<u32, PdfError>(err),
            },
    {
        match self.want_u32(name) {
            Some(value) => Ok(value),
            None => Err(err),
        }
    }

    /// Takes the entry for `name` out; hands its value over if it is an integer, read as unsigned.
    pub fn want_u64(&mut self, name: PdfName) -> (r: Option<u64>)
        ensures
            final(self)@ == old(self)@.remove(name),
            match integer_in(old(self)@, name) {
                Some(i) => r == Some(i as u64),
                None => r is None,
            },
    {
        match self.remove(name) {
            Some(PdfObject::Number(PdfNumber::Integer(i))) => Some(
                #[verifier::truncate]
                (i as u64),
            ),
            _ => None,
        }
    }

    /// Takes the entry for `name` out; fails with `err` unless its value is an integer, read as unsigned.
    pub fn need_u64(&mut self, name: PdfName, err: PdfError) -> (r: Result<u64, PdfError>)
        ensures
            final(self)@ == old(self)@.remove(name),
            match integer_in(old(self)@, name) {
                Some(i) => r == Ok::<u64, PdfError>(i as u64),
                None => r == Err::<u64, PdfError>(err),
            },
    {
        match self.want_u64(name) {
            Some(value) => Ok(value),
            None => Err(err),
        }
    }

    /// Takes the entry for `name` out; hands its value over if it is a string.
    pub fn want_string(&mut self, name: PdfName) -> (r: Option<PdfString>)
        ensures
            final(self)@ == old(self)@.remove(name),
            match string_in(old(self)@, name) {
                Some(v) => r matches Some(taken) && taken@ == v,
                None => r is None,
            },
    {
        match self.remove(name) {
            Some(PdfObject::String(bytes)) => Some(bytes),
            _ => None,
        }
    }

    /// Takes the entry for `name` out; fails with `err` unless its value is a string.
    pub fn need_string(&mut self, name: PdfName, err: PdfError) -> (r: Result<PdfString, PdfError>)
        ensures
            final(self)@ == old(self)@.remove(name),
            match string_in(old(self)@, name) {
                Some(v) => r matches Ok(taken) && taken@ == v,
                None => r == Err::<PdfString, PdfError>(err),
            },
    {
        match self.want_string(name) {
            Some(value) => Ok(value),
            None => Err(err),
        }
    }

    /// Takes the entry for `name` out; hands its value over if it is a name.
    pub fn want_name(&mut self, name: PdfName) -> (r: Option<PdfName>)
        ensures
            final(self)@ == old(self)@.remove(name),
            match name_in(old(self)@, name) {
                Some(v) => r == Some(v),
                None => r is None,
            },
    {
        match self.remove(name) {
            Some(PdfObject::Name(value)) => Some(value),
            _ => None,
        }
    }

    /// Takes the entry for `name` out; fails with `err` unless its value is a name.
    pub fn need_name(&mut self, name: PdfName, err: PdfError) -> (r: Result<PdfName, PdfError>)
        ensures
            final(self)@ == old(self)@.remove(name),
            match name_in(old(self)@, name) {
                Some(v) => r == Ok::<PdfName, PdfError>(v),
                None => r == Err::<PdfName, PdfError>(err),
            },
    {
        match self.want_name(name) {
            Some(value) => Ok(value),
            None => Err(err),
        }
    }

    /// Takes the entry for `name` out; hands its value over if it is a symbol.
    pub fn want_symbol(&mut self, name: PdfName) -> (r: Option<PdfString>)
        ensures
            final(self)@ == old(self)@.remove(name),
            match symbol_in(old(self)@, name) {
                Some(v) => r matches Some(taken) && taken@ == v,
                None => r is None,
            },
    {
        match self.remove(name) {
            Some(PdfObject::Symbol(bytes)) => Some(bytes),
            _ => None,
        }
    }

    /// Takes the entry for `name` out; fails with `err` unless its value is a symbol.
    pub fn need_symbol(&mut self, name: PdfName, err: PdfError) -> (r: Result<PdfString, PdfError>)
        ensures
            final(self)@ == old(self)@.remove(name),
            match symbol_in(old(self)@, name) {
                Some(v) => r matches Ok(taken) && taken@ == v,
                None => r == Err::<PdfString, PdfError>(err),
            },
    {
        match self.want_symbol(name) {
            Some(value) => Ok(value),
            None => Err(err),
        }
    }

    /// Takes the entry for `name` out; hands its value over if it is a number.
    pub fn want_number(&mut self, name: PdfName) -> (r: Option<PdfNumber>)
        ensures
            final(self)@ == old(self)@.remove(name),
            match number_in(old(self)@, name) {
                Some(v) => r matches Some(taken) && taken@ == v,
                None => r is None,
            },
    {
        match self.remove(name) {
            Some(PdfObject::Number(n)) => Some(n),
            _ => None,
        }
    }

    /// Takes the entry for `name` out; fails with `err` unless its value is a number.
    pub fn need_number(&mut self, name: PdfName, err: PdfError) -> (r: Result<PdfNumber, PdfError>)
        ensures
            final(self)@ == old(self)@.remove(name),
            match number_in(old(self)@, name) {
                Some(v) => r matches Ok(taken) && taken@ == v,
                None => r == Err::<PdfNumber, PdfError>(err),
            },
    {
        match self.want_number(name) {
            Some(value) => Ok(value),
            None => Err(err),
        }
    }

    /// Takes the entry for `name` out; hands its value over if it is an array.
    pub fn want_array(&mut self, name: PdfName) -> (r: Option<Array>)
        ensures
            final(self)@ == old(self)@.remove(name),
            match array_in(old(self)@, name) {
                Some(v) => r matches Some(taken) && array_view(taken@) == v,
                None => r is None,
            },
    {
        match self.remove(name) {
            Some(PdfObject::Array(items)) => {
                proof {
                    lemma_array_view(items);
                }
                Some(items)
            },
            _ => None,
        }
    }

    /// Takes the entry for `name` out; fails with `err` unless its value is an array.
    pub fn need_array(&mut self, name: PdfName, err: PdfError) -> (r: Result<Array, PdfError>)
        ensures
            final(self)@ == old(self)@.remove(name),
            match array_in(old(self)@, name) {
                Some(v) => r matches Ok(taken) && array_view(taken@) == v,
                None => r == Err::<Array, PdfError>(err),
            },
    {
        match self.want_array(name) {
            Some(value) => Ok(value),
            None => Err(err),
        }
    }

    /// Takes the entry for `name` out; hands its value over if it is a dictionary.
    pub fn want_dictionary(&mut self, name: PdfName) -> (r: Option<Dictionary>)
        ensures
            final(self)@ == old(self)@.remove(name),
            match dictionary_in(old(self)@, name) {
                Some(v) => r matches Some(taken) && taken@ == v,
                None => r is None,
            },
    {
        match self.remove(name) {
            Some(PdfObject::Dictionary(inner)) => Some(inner),
            _ => None,
        }
    }

    /// Takes the entry for `name` out; fails with `err` unless its value is a dictionary.
    pub fn need_dictionary(&mut self, name: PdfName, err: PdfError) -> (r: Result<Dictionary, PdfError>)
        ensures
            final(self)@ == old(self)@.remove(name),
            match dictionary_in(old(self)@, name) {
                Some(v) => r matches Ok(taken) && taken@ == v,
                None => r == Err::<Dictionary, PdfError>(err),
            },
    {
        match self.want_dictionary(name) {
            Some(value) => Ok(value),
            None => Err(err),
        }
    }

    /// Takes the entry for `Type` out; fails with `err` unless it is the name `expected`.
    pub fn need_type(&mut self, expected: PdfName, err: PdfError) -> (r: Result<PdfName, PdfError>)
        ensures
            final(self)@ == old(self)@.remove(PdfName::Type),
            r == (if name_in(old(self)@, PdfName::Type) == Some(expected) {
                Ok::<PdfName, PdfError>(expected)
            } else {
                Err::<PdfName, PdfError>(err)
            }),
    {
        match self.want_name(PdfName::Type) {
            Some(found) => {
                if found == expected {
                    Ok(found)
                } else {
                    Err(err)
                }
            },
            None => Err(err),
        }
    }
}

} // verus!

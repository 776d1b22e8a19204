//! Lookup by name and kind, and insertion of plain values.

use crate::data::{list_views, NvData, NvList, NvListRef};
use crate::error::NvError;
use crate::list::{found, name_text};
use crate::model::{Listing, NvType, Value};
use crate::owned::{copy_bytes, copy_list, copy_lists, copy_words};
use vstd::prelude::*;
use vstd::utf8::{decode_utf8, valid_utf8};

verus! {

/// The value of the first entry of `l` under `name`, where it is of kind
/// `tag`; which error, where there is no such entry or it is of another kind.
pub open spec fn typed(l: Listing, name: &str, tag: NvType) -> Result<Value, NvError> {
    match found(l, name) {
        None => Err(NvError::NotFound),
        Some(e) => if e.value.tag() == tag {
            Ok(e.value)
        } else {
            Err(NvError::TypeMismatch)
        },
    }
}

/// Calls `String::from_utf8` on a copy of the bytes. That function gives the
/// string whose bytes these are where they are valid UTF-8, and an error
/// otherwise.
#[verifier::external_body]
fn utf8_string(bytes: &[u8]) -> (r: Option<String>)
    ensures
        r is Some <==> valid_utf8(bytes@),
        r is Some ==> r->0@ == decode_utf8(bytes@),
{
    String::from_utf8(bytes.to_vec()).ok()
}

impl NvData {
    /// The bytes of a string value.
    pub fn as_str(&self) -> (r: Option<&[u8]>)
        ensures
            match self@ {
                Value::Str(s) => r matches Some(b) && b@ == s,
                _ => r is None,
            },
    {
        match self {
            NvData::Str(s) => Some(s.as_slice()),
            _ => None,
        }
    }

    /// A string value as a string, where its bytes are valid UTF-8.
    pub fn as_string(&self) -> (r: Option<String>)
        ensures
            match self@ {
                Value::Str(s) => if valid_utf8(s) {
                    r matches Some(t) && t@ == decode_utf8(s)
                } else {
                    r is None
                },
                _ => r is None,
            },
    {
        match self {
            NvData::Str(s) => utf8_string(s.as_slice()),
            _ => None,
        }
    }

    /// The list of a nested-list value, not a copy of it.
    pub fn as_list(&self) -> (r: Option<&NvListRef>)
        ensures
            match self@ {
                Value::List(l) => r matches Some(x) && x@ == l,
                _ => r is None,
            },
    {
        match self {
            NvData::NvListRef(l) => Some(&l.list),
            _ => None,
        }
    }
}

impl NvListRef {
    /// The value of the first entry of this name, where it is of this kind.
    pub fn lookup_typed(&self, name: &str, tag: NvType) -> (r: Result<&NvData, NvError>)
        ensures
            match typed(self@, name, tag) {
                Ok(v) => r matches Ok(d) && d@ == v,
                Err(e) => r matches Err(x) && x == e,
            },
    {
        match self.lookup(name) {
            Ok(p) => if p.data.tag() == tag {
                Ok(&p.data)
            } else {
                Err(NvError::TypeMismatch)
            },
            Err(e) => Err(e),
        }
    }

    /// The unsigned 64-bit number under this name.
    pub fn lookup_uint64(&self, name: &str) -> (r: Result<u64, NvError>)
        ensures
            match typed(self@, name, NvType::Uint64) {
                Ok(v) => r matches Ok(x) && Value::Uint64(x) == v,
                Err(e) => r matches Err(x) && x == e,
            },
    {
        match self.lookup_typed(name, NvType::Uint64) {
            Ok(NvData::Uint64(v)) => Ok(*v),
            Ok(_) => Err(NvError::TypeMismatch),
            Err(e) => Err(e),
        }
    }

    /// The bytes of the string under this name.
    pub fn lookup_string(&self, name: &str) -> (r: Result<Vec<u8>, NvError>)
        ensures
            match typed(self@, name, NvType::String) {
                Ok(v) => r matches Ok(x) && Value::Str(x@) == v,
                Err(e) => r matches Err(x) && x == e,
            },
    {
        match self.lookup_typed(name, NvType::String) {
            Ok(NvData::Str(s)) => Ok(copy_bytes(s.as_slice())),
            Ok(_) => Err(NvError::TypeMismatch),
            Err(e) => Err(e),
        }
    }

    /// A deep copy of the list under this name.
    pub fn lookup_nvlist(&self, name: &str) -> (r: Result<NvList, NvError>)
        ensures
            match typed(self@, name, NvType::NvList) {
                Ok(v) => r matches Ok(x) && Value::List(x@) == v,
                Err(e) => r matches Err(x) && x == e,
            },
    {
        match self.lookup_typed(name, NvType::NvList) {
            Ok(NvData::NvListRef(l)) => Ok(NvList { list: copy_list(&l.list) }),
            Ok(_) => Err(NvError::TypeMismatch),
            Err(e) => Err(e),
        }
    }

    /// The numbers of the array under this name, as many as the array holds.
    pub fn lookup_uint64_array(&self, name: &str) -> (r: Result<Vec<u64>, NvError>)
        ensures
            match typed(self@, name, NvType::Uint64Array) {
                Ok(v) => r matches Ok(x) && Value::Uint64Array(x@) == v,
                Err(e) => r matches Err(x) && x == e,
            },
    {
        match self.lookup_typed(name, NvType::Uint64Array) {
            Ok(NvData::Uint64Array(a)) => Ok(copy_words(a.as_slice())),
            Ok(_) => Err(NvError::TypeMismatch),
            Err(e) => Err(e),
        }
    }

    /// Deep copies of the lists of the array under this name, as many as the
    /// array holds.
    pub fn lookup_nvlist_array(&self, name: &str) -> (r: Result<Vec<NvList>, NvError>)
        ensures
            match typed(self@, name, NvType::NvListArray) {
                Ok(v) => r matches Ok(x) && Value::ListArray(list_views(x@)) == v,
                Err(e) => r matches Err(x) && x == e,
            },
    {
        match self.lookup_typed(name, NvType::NvListArray) {
            Ok(d) => match d {
                NvData::NvListArray(ls) => {
                    let out = copy_lists(ls);
                    assert(d@->ListArray_0 =~= list_views(ls@));
                    Ok(out)
                },
                _ => Err(NvError::TypeMismatch),
            },
            Err(e) => Err(e),
        }
    }

    /// Puts a flag of this name into the list: an entry without a value.
    pub fn add_boolean(&mut self, name: &str) -> (r: Result<(), NvError>)
        ensures
            match name_text(name) {
                Some(text) => r is Ok && final(self)@ == old(self)@.insert(text, Value::Bool),
                None => r matches Err(NvError::InvalidName) && final(self)@ == old(self)@,
            },
    {
        self.add(name, NvData::Bool)
    }

    /// Puts a byte of this name into the list.
    pub fn add_byte(&mut self, name: &str, value: u8) -> (r: Result<(), NvError>)
        ensures
            match name_text(name) {
                Some(text) => r is Ok && final(self)@ == old(self)@.insert(
                    text,
                    Value::Byte(value),
                ),
                None => r matches Err(NvError::InvalidName) && final(self)@ == old(self)@,
            },
    {
        self.add(name, NvData::Byte(value))
    }
}

} // verus!

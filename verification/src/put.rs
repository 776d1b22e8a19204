//! Plain values that can be put into a list under a name.

use crate::data::{list_views, NvData, NvList, NvListRef};
use crate::error::NvError;
use crate::list::name_text;
use crate::model::{Listing, Value};
use crate::name::{checked_text, text_of};
use crate::owned::{copy_list, copy_lists, copy_words};
use vstd::prelude::*;
use vstd::string::StringSliceAdditionalSpecFns;

verus! {

/// What is left of a list after `value` was put into it under `name`: the
/// list with the entry inserted where the name is a text and the value can
/// stand in a list, and otherwise the error and the list as it was.
pub open spec fn put(
    before: Listing,
    name: &str,
    value: Option<Value>,
    r: Result<(), NvError>,
    after: Listing,
) -> bool {
    match (name_text(name), value) {
        (Some(text), Some(v)) => if v.wf() {
            r is Ok && after == before.insert(text, v)
        } else {
            r == Err::<(), NvError>(NvError::InvalidName) && after == before
        },
        _ => r == Err::<(), NvError>(NvError::InvalidName) && after == before,
    }
}

/// A value that can be put into a list.
pub trait NvEncode {
    /// The value that this stands for in a list; none where it cannot stand
    /// in one.
    spec fn value(&self) -> Option<Value>;

    /// Puts this value into `nv` under `name`.
    fn insert(&self, name: &str, nv: &mut NvListRef) -> (r: Result<(), NvError>)
        ensures
            put(old(nv)@, name, self.value(), r, final(nv)@),
    ;
}

impl NvEncode for bool {
    open spec fn value(&self) -> Option<Value> {
        Some(Value::BoolV(*self))
    }

    fn insert(&self, name: &str, nv: &mut NvListRef) -> (r: Result<(), NvError>) {
        nv.add(name, NvData::BoolV(*self))
    }
}

impl NvEncode for i8 {
    open spec fn value(&self) -> Option<Value> {
        Some(Value::Int8(*self))
    }

    fn insert(&self, name: &str, nv: &mut NvListRef) -> (r: Result<(), NvError>) {
        nv.add(name, NvData::Int8(*self))
    }
}

impl NvEncode for u8 {
    open spec fn value(&self) -> Option<Value> {
        Some(Value::Uint8(*self))
    }

    fn insert(&self, name: &str, nv: &mut NvListRef) -> (r: Result<(), NvError>) {
        nv.add(name, NvData::Uint8(*self))
    }
}

impl NvEncode for i16 {
    open spec fn value(&self) -> Option<Value> {
        Some(Value::Int16(*self))
    }

    fn insert(&self, name: &str, nv: &mut NvListRef) -> (r: Result<(), NvError>) {
        nv.add(name, NvData::Int16(*self))
    }
}

impl NvEncode for u16 {
    open spec fn value(&self) -> Option<Value> {
        Some(Value::Uint16(*self))
    }

    fn insert(&self, name: &str, nv: &mut NvListRef) -> (r: Result<(), NvError>) {
        nv.add(name, NvData::Uint16(*self))
    }
}

impl NvEncode for i32 {
    open spec fn value(&self) -> Option<Value> {
        Some(Value::Int32(*self))
    }

    fn insert(&self, name: &str, nv: &mut NvListRef) -> (r: Result<(), NvError>) {
        nv.add(name, NvData::Int32(*self))
    }
}

impl NvEncode for u32 {
    open spec fn value(&self) -> Option<Value> {
        Some(Value::Uint32(*self))
    }

    fn insert(&self, name: &str, nv: &mut NvListRef) -> (r: Result<(), NvError>) {
        nv.add(name, NvData::Uint32(*self))
    }
}

impl NvEncode for i64 {
    open spec fn value(&self) -> Option<Value> {
        Some(Value::Int64(*self))
    }

    fn insert(&self, name: &str, nv: &mut NvListRef) -> (r: Result<(), NvError>) {
        nv.add(name, NvData::Int64(*self))
    }
}

impl NvEncode for u64 {
    open spec fn value(&self) -> Option<Value> {
        Some(Value::Uint64(*self))
    }

    fn insert(&self, name: &str, nv: &mut NvListRef) -> (r: Result<(), NvError>) {
        nv.add(name, NvData::Uint64(*self))
    }
}

impl NvEncode for str {
    open spec fn value(&self) -> Option<Value> {
        match text_of(self.spec_bytes()) {
            Some(text) => Some(Value::Str(text)),
            None => None,
        }
    }

    fn insert(&self, name: &str, nv: &mut NvListRef) -> (r: Result<(), NvError>) {
        match checked_text(self.as_bytes()) {
            Some(text) => nv.add(name, NvData::Str(text)),
            None => Err(NvError::InvalidName),
        }
    }
}

impl NvEncode for NvListRef {
    open spec fn value(&self) -> Option<Value> {
        Some(Value::List(self@))
    }

    fn insert(&self, name: &str, nv: &mut NvListRef) -> (r: Result<(), NvError>) {
        nv.add(name, NvData::NvListRef(NvList { list: copy_list(self) }))
    }
}

impl NvEncode for Vec<u64> {
    open spec fn value(&self) -> Option<Value> {
        Some(Value::Uint64Array(self@))
    }

    fn insert(&self, name: &str, nv: &mut NvListRef) -> (r: Result<(), NvError>) {
        nv.add(name, NvData::Uint64Array(copy_words(self.as_slice())))
    }
}

impl NvEncode for Vec<NvList> {
    open spec fn value(&self) -> Option<Value> {
        Some(Value::ListArray(list_views(self@)))
    }

    fn insert(&self, name: &str, nv: &mut NvListRef) -> (r: Result<(), NvError>) {
        let d = NvData::NvListArray(copy_lists(self));
        assert(d@->ListArray_0 =~= list_views(self@));
        nv.add(name, d)
    }
}

} // verus!

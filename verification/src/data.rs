//! The stored types: values, pairs and lists, each with its view in the model.

use crate::model::{Entry, Listing, Unique, Value};
use vstd::prelude::*;

verus! {

/// The value of a pair.
#[derive(Debug)]
pub enum NvData {
    /// A value of no known kind, without payload.
    Unknown,
    /// A flag: the name alone.
    Bool,
    /// A truth value.
    BoolV(bool),
    /// A byte.
    Byte(u8),
    Int8(i8),
    Uint8(u8),
    Int16(i16),
    Uint16(u16),
    Int32(i32),
    Uint32(u32),
    Int64(i64),
    Uint64(u64),
    /// A string: its bytes, none of them a terminator.
    Str(Vec<u8>),
    /// A nested list, held by value.
    NvListRef(NvList),
    /// Some unsigned 64-bit numbers.
    Uint64Array(Vec<u64>),
    /// Some nested lists, held by value.
    NvListArray(Vec<NvList>),
}

/// One entry of a list: a name and its value.
#[derive(Debug)]
pub struct NvPair {
    pub(crate) name: Vec<u8>,
    pub(crate) data: NvData,
}

/// The contents of a list, through which a list is read and changed.
#[derive(Debug)]
pub struct NvListRef {
    pub(crate) unique: Unique,
    pub(crate) pairs: Vec<NvPair>,
}

/// An owned list.
#[derive(Debug)]
pub struct NvList {
    pub(crate) list: NvListRef,
}

/// The views of some pairs, in their order.
pub open spec fn views(s: Seq<NvPair>) -> Seq<Entry> {
    Seq::new(s.len(), |i: int| s[i]@)
}

/// The views of some lists, in their order.
pub open spec fn list_views(ls: Seq<NvList>) -> Seq<Listing> {
    Seq::new(ls.len(), |i: int| ls[i]@)
}

impl NvData {
    /// The value in the model.
    pub open spec fn view(&self) -> Value
        decreases self,
    {
        match self {
            NvData::Unknown => Value::Unknown,
            NvData::Bool => Value::Bool,
            NvData::BoolV(b) => Value::BoolV(*b),
            NvData::Byte(v) => Value::Byte(*v),
            NvData::Int8(v) => Value::Int8(*v),
            NvData::Uint8(v) => Value::Uint8(*v),
            NvData::Int16(v) => Value::Int16(*v),
            NvData::Uint16(v) => Value::Uint16(*v),
            NvData::Int32(v) => Value::Int32(*v),
            NvData::Uint32(v) => Value::Uint32(*v),
            NvData::Int64(v) => Value::Int64(*v),
            NvData::Uint64(v) => Value::Uint64(*v),
            NvData::Str(s) => Value::Str(s@),
            NvData::NvListRef(l) => Value::List(l.view()),
            NvData::Uint64Array(a) => Value::Uint64Array(a@),
            NvData::NvListArray(ls) => Value::ListArray(
                Seq::new(
                    ls.len() as nat,
                    |i: int|
                        if 0 <= i < ls.len() {
                            ls[i].view()
                        } else {
                            Listing::empty(Unique::Off)
                        },
                ),
            ),
        }
    }
}

impl NvPair {
    /// The entry in the model.
    pub open(crate) spec fn view(&self) -> Entry
        decreases self,
    {
        Entry { name: self.name@, value: self.data.view() }
    }
}

impl NvListRef {
    /// The list in the model.
    pub open(crate) spec fn view(&self) -> Listing
        decreases self,
    {
        Listing {
            unique: self.unique,
            entries: Seq::new(
                self.pairs.len() as nat,
                |i: int|
                    if 0 <= i < self.pairs.len() {
                        self.pairs[i].view()
                    } else {
                        Entry { name: Seq::empty(), value: Value::Unknown }
                    },
            ),
        }
    }

    /// The list is well formed. Every list is, at all times.
    #[verifier::type_invariant]
    pub open spec fn wf(&self) -> bool {
        self.view().wf()
    }
}

impl NvList {
    /// The list in the model.
    pub open(crate) spec fn view(&self) -> Listing
        decreases self,
    {
        self.list.view()
    }

    /// The list is well formed.
    pub open spec fn wf(&self) -> bool {
        self.view().wf()
    }
}

impl core::ops::Deref for NvList {
    type Target = NvListRef;

    fn deref(&self) -> (r: &NvListRef)
        ensures
            r@ == self@,
    {
        &self.list
    }
}

} // verus!

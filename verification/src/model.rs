//! The mathematical model of a list: what every contract speaks of.

use crate::name::no_nul;
use vstd::prelude::*;

verus! {

/// What a list demands of the names of its entries.
#[derive(Clone, Copy, Debug, PartialEq, Eq, Structural)]
pub enum Unique {
    /// Entries of one name may stand side by side.
    Off,
    /// At most one entry of each name.
    Name,
    /// At most one entry of each name and kind.
    NameType,
}

/// The kind of value that an entry holds.
#[derive(Clone, Copy, Debug, PartialEq, Eq, Structural)]
pub enum NvType {
    Unknown,
    Boolean,
    BooleanValue,
    Byte,
    Int8,
    Uint8,
    Int16,
    Uint16,
    Int32,
    Uint32,
    Int64,
    Uint64,
    String,
    NvList,
    Uint64Array,
    NvListArray,
}

/// A value, as mathematics sees it.
pub enum Value {
    Unknown,
    Bool,
    BoolV(bool),
    Byte(u8),
    Int8(i8),
    Uint8(u8),
    Int16(i16),
    Uint16(u16),
    Int32(i32),
    Uint32(u32),
    Int64(i64),
    Uint64(u64),
    Str(Seq<u8>),
    List(Listing),
    Uint64Array(Seq<u64>),
    ListArray(Seq<Listing>),
}

/// A name with its value.
pub struct Entry {
    pub name: Seq<u8>,
    pub value: Value,
}

/// A list: its demand on names and its entries in insertion order.
pub struct Listing {
    pub unique: Unique,
    pub entries: Seq<Entry>,
}

impl Value {
    /// The kind of this value.
    pub open spec fn tag(self) -> NvType {
        match self {
            Value::Unknown => NvType::Unknown,
            Value::Bool => NvType::Boolean,
            Value::BoolV(_) => NvType::BooleanValue,
            Value::Byte(_) => NvType::Byte,
            Value::Int8(_) => NvType::Int8,
            Value::Uint8(_) => NvType::Uint8,
            Value::Int16(_) => NvType::Int16,
            Value::Uint16(_) => NvType::Uint16,
            Value::Int32(_) => NvType::Int32,
            Value::Uint32(_) => NvType::Uint32,
            Value::Int64(_) => NvType::Int64,
            Value::Uint64(_) => NvType::Uint64,
            Value::Str(_) => NvType::String,
            Value::List(_) => NvType::NvList,
            Value::Uint64Array(_) => NvType::Uint64Array,
            Value::ListArray(_) => NvType::NvListArray,
        }
    }

    /// Strings hold no terminator and nested lists are well formed.
    pub open spec fn wf(self) -> bool
        decreases self,
    {
        match self {
            Value::Str(s) => no_nul(s),
            Value::List(l) => l.wf(),
            Value::ListArray(ls) => forall|i: int| 0 <= i < ls.len() ==> (#[trigger] ls[i]).wf(),
            _ => true,
        }
    }
}

impl Entry {
    /// The name holds no terminator and the value is well formed.
    pub open spec fn wf(self) -> bool
        decreases self,
    {
        no_nul(self.name) && self.value.wf()
    }

    /// True when `other` may not stand beside this entry in a list that
    /// demands `unique`.
    pub open spec fn clashes(self, unique: Unique, name: Seq<u8>, tag: NvType) -> bool {
        match unique {
            Unique::Off => false,
            Unique::Name => self.name == name,
            Unique::NameType => self.name == name && self.value.tag() == tag,
        }
    }
}

impl Listing {
    /// The empty list with the given demand on names.
    pub open spec fn empty(unique: Unique) -> Listing {
        Listing { unique, entries: Seq::empty() }
    }

    /// No two entries clash under the list's demand on names.
    pub open spec fn distinct(self) -> bool {
        forall|i: int, j: int|
            0 <= i < j < self.entries.len() ==> !(#[trigger] self.entries[i]).clashes(
                self.unique,
                (#[trigger] self.entries[j]).name,
                self.entries[j].value.tag(),
            )
    }

    /// Every entry is well formed and the demand on names is met.
    pub open spec fn wf(self) -> bool
        decreases self,
    {
        &&& forall|i: int| 0 <= i < self.entries.len() ==> (#[trigger] self.entries[i]).wf()
        &&& self.distinct()
    }

    /// True when some entry has this name.
    pub open spec fn has(self, name: Seq<u8>) -> bool {
        exists|i: int| 0 <= i < self.entries.len() && (#[trigger] self.entries[i]).name == name
    }

    /// True when `i` is the place of the first entry with this name.
    pub open spec fn first_at(self, name: Seq<u8>, i: int) -> bool {
        &&& 0 <= i < self.entries.len()
        &&& self.entries[i].name == name
        &&& forall|j: int| 0 <= j < i ==> (#[trigger] self.entries[j]).name != name
    }

    /// The first entry with this name, in insertion order.
    pub open spec fn lookup(self, name: Seq<u8>) -> Option<Entry> {
        if self.has(name) {
            Some(self.entries[choose|i: int| self.first_at(name, i)])
        } else {
            None
        }
    }

    /// The list after an entry of this name and value was inserted: the
    /// entries that clash with it leave, the others keep their order, and the
    /// new entry stands last.
    pub open spec fn insert(self, name: Seq<u8>, value: Value) -> Listing {
        Listing {
            unique: self.unique,
            entries: survivors(self.entries, self.unique, name, value.tag()).push(
                Entry { name, value },
            ),
        }
    }
}

/// The entries that do not clash with an entry of this name and kind, in
/// their order.
pub open spec fn survivors(entries: Seq<Entry>, unique: Unique, name: Seq<u8>, tag: NvType) -> Seq<
    Entry,
>
    decreases entries.len(),
{
    if entries.len() == 0 {
        Seq::empty()
    } else {
        let before = survivors(entries.drop_last(), unique, name, tag);
        if entries.last().clashes(unique, name, tag) {
            before
        } else {
            before.push(entries.last())
        }
    }
}

} // verus!

//! Owned lists: making them and copying them.

use crate::data::{list_views, views, NvData, NvList, NvListRef, NvPair};
use crate::error::NvError;
use crate::insert::lemma_view;
use crate::model::{Listing, Unique};
use vstd::prelude::*;

verus! {

/// A copy of some bytes.
pub(crate) fn copy_bytes(s: &[u8]) -> (r: Vec<u8>)
    ensures
        r@ == s@,
{
    let mut out: Vec<u8> = Vec::new();
    let mut i: usize = 0;
    while i < s.len()
        invariant
            i <= s.len(),
            out@ == s@.take(i as int),
        decreases s.len() - i,
    {
        out.push(s[i]);
        i += 1;
        assert(out@ =~= s@.take(i as int));
    }
    assert(s@.take(i as int) =~= s@);
    out
}

/// A copy of some numbers.
pub(crate) fn copy_words(s: &[u64]) -> (r: Vec<u64>)
    ensures
        r@ == s@,
{
    let mut out: Vec<u64> = Vec::new();
    let mut i: usize = 0;
    while i < s.len()
        invariant
            i <= s.len(),
            out@ == s@.take(i as int),
        decreases s.len() - i,
    {
        out.push(s[i]);
        i += 1;
        assert(out@ =~= s@.take(i as int));
    }
    assert(s@.take(i as int) =~= s@);
    out
}

/// Deep copies of some lists.
pub(crate) fn copy_lists(ls: &Vec<NvList>) -> (r: Vec<NvList>)
    ensures
        list_views(r@) == list_views(ls@),
    decreases ls, 1int,
{
    let mut out: Vec<NvList> = Vec::new();
    let mut i: usize = 0;
    while i < ls.len()
        invariant
            i <= ls.len(),
            out@.len() == i,
            forall|j: int| 0 <= j < i ==> (#[trigger] out@[j])@ == ls@[j]@,
        decreases ls.len() - i,
    {
        out.push(NvList { list: copy_list(&ls[i].list) });
        i += 1;
    }
    assert(list_views(out@) =~= list_views(ls@));
    out
}

/// A deep copy of a value.
pub(crate) fn copy_data(d: &NvData) -> (r: NvData)
    ensures
        r@ == d@,
    decreases d, 2int,
{
    match d {
        NvData::Unknown => NvData::Unknown,
        NvData::Bool => NvData::Bool,
        NvData::BoolV(v) => NvData::BoolV(*v),
        NvData::Byte(v) => NvData::Byte(*v),
        NvData::Int8(v) => NvData::Int8(*v),
        NvData::Uint8(v) => NvData::Uint8(*v),
        NvData::Int16(v) => NvData::Int16(*v),
        NvData::Uint16(v) => NvData::Uint16(*v),
        NvData::Int32(v) => NvData::Int32(*v),
        NvData::Uint32(v) => NvData::Uint32(*v),
        NvData::Int64(v) => NvData::Int64(*v),
        NvData::Uint64(v) => NvData::Uint64(*v),
        NvData::Str(s) => NvData::Str(copy_bytes(s.as_slice())),
        NvData::NvListRef(l) => NvData::NvListRef(NvList { list: copy_list(&l.list) }),
        NvData::Uint64Array(a) => NvData::Uint64Array(copy_words(a.as_slice())),
        NvData::NvListArray(ls) => {
            let r = NvData::NvListArray(copy_lists(ls));
            assert(r@->ListArray_0 =~= list_views(ls@));
            assert(d@->ListArray_0 =~= list_views(ls@));
            r
        },
    }
}

/// A deep copy of a list.
pub(crate) fn copy_list(l: &NvListRef) -> (r: NvListRef)
    ensures
        r@ == l@,
    decreases l, 3int,
{
    let mut pairs: Vec<NvPair> = Vec::new();
    let mut i: usize = 0;
    while i < l.pairs.len()
        invariant
            i <= l.pairs.len(),
            pairs@.len() == i,
            forall|j: int| 0 <= j < i ==> (#[trigger] pairs@[j])@ == l.pairs@[j]@,
        decreases l.pairs.len() - i,
    {
        let p = &l.pairs[i];
        pairs.push(NvPair { name: copy_bytes(p.name.as_slice()), data: copy_data(&p.data) });
        i += 1;
    }
    proof {
        use_type_invariant(l);
        lemma_view(NvListRef { unique: l.unique, pairs });
        assert(views(pairs@) =~= l@.entries);
    }
    NvListRef { unique: l.unique, pairs }
}

impl NvList {
    /// An empty list that lets entries of one name stand side by side.
    pub fn new() -> (r: Result<NvList, NvError>)
        ensures
            r matches Ok(l) && l@ == Listing::empty(Unique::Off) && l.wf(),
    {
        Self::with_unique(Unique::Off)
    }

    /// An empty list that keeps at most one entry of each name.
    pub fn new_unqiue_names() -> (r: Result<NvList, NvError>)
        ensures
            r matches Ok(l) && l@ == Listing::empty(Unique::Name) && l.wf(),
    {
        Self::with_unique(Unique::Name)
    }

    /// An empty list with the given demand on names.
    pub fn with_unique(unique: Unique) -> (r: Result<NvList, NvError>)
        ensures
            r matches Ok(l) && l@ == Listing::empty(unique) && l.wf(),
    {
        let pairs: Vec<NvPair> = Vec::new();
        proof {
            lemma_view(NvListRef { unique, pairs });
            assert(views(pairs@) =~= Seq::empty());
        }
        Ok(NvList { list: NvListRef { unique, pairs } })
    }

    /// A deep copy of the list: equal to it, and sharing nothing with it.
    pub fn try_clone(&self) -> (r: Result<NvList, NvError>)
        ensures
            r matches Ok(l) && l@ == self@,
    {
        Ok(NvList { list: copy_list(&self.list) })
    }
}

impl Clone for NvList {
    fn clone(&self) -> (r: Self)
        ensures
            r@ == self@,
    {
        NvList { list: copy_list(&self.list) }
    }
}

impl core::ops::DerefMut for NvList {
    fn deref_mut(&mut self) -> (r: &mut NvListRef)
        ensures
            r@ == old(self)@,
            final(self)@ == final(r)@,
    {
        &mut self.list
    }
}

impl NvListRef {
    /// A deep copy of the list as an owned list.
    pub fn try_to_owned(&self) -> (r: Result<NvList, NvError>)
        ensures
            r matches Ok(l) && l@ == self@,
    {
        Ok(NvList { list: copy_list(self) })
    }
}

} // verus!

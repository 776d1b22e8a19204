//! Deep equality of lists: the same entries in the same order, nested lists
//! compared in the same way.

use crate::data::{list_views, NvData, NvList, NvListRef, NvPair};
use crate::list::same_bytes;
use vstd::prelude::*;
use vstd::std_specs::cmp::PartialEqSpecImpl;

verus! {

/// Compares two sequences of numbers.
fn same_words(a: &[u64], b: &[u64]) -> (r: bool)
    ensures
        r == (a@ == b@),
{
    if a.len() != b.len() {
        return false;
    }
    let mut i: usize = 0;
    while i < a.len()
        invariant
            a.len() == b.len(),
            i <= a.len(),
            forall|j: int| 0 <= j < i ==> a@[j] == b@[j],
        decreases a.len() - i,
    {
        if a[i] != b[i] {
            return false;
        }
        i += 1;
    }
    assert(a@ =~= b@);
    true
}

/// Compares two sequences of lists.
fn same_lists(a: &Vec<NvList>, b: &Vec<NvList>) -> (r: bool)
    ensures
        r == (list_views(a@) == list_views(b@)),
    decreases a, 1int,
{
    if a.len() != b.len() {
        assert(list_views(a@).len() != list_views(b@).len());
        return false;
    }
    let mut i: usize = 0;
    while i < a.len()
        invariant
            a.len() == b.len(),
            i <= a.len(),
            forall|j: int| 0 <= j < i ==> (#[trigger] a@[j])@ == b@[j]@,
        decreases a.len() - i,
    {
        if !same_list(&a[i].list, &b[i].list) {
            assert(list_views(a@)[i as int] != list_views(b@)[i as int]);
            return false;
        }
        i += 1;
    }
    assert(list_views(a@) =~= list_views(b@));
    true
}

/// Compares two values.
fn same_data(a: &NvData, b: &NvData) -> (r: bool)
    ensures
        r == (a@ == b@),
    decreases a, 2int,
{
    match (a, b) {
        (NvData::Unknown, NvData::Unknown) => true,
        (NvData::Bool, NvData::Bool) => true,
        (NvData::BoolV(x), NvData::BoolV(y)) => *x == *y,
        (NvData::Byte(x), NvData::Byte(y)) => *x == *y,
        (NvData::Int8(x), NvData::Int8(y)) => *x == *y,
        (NvData::Uint8(x), NvData::Uint8(y)) => *x == *y,
        (NvData::Int16(x), NvData::Int16(y)) => *x == *y,
        (NvData::Uint16(x), NvData::Uint16(y)) => *x == *y,
        (NvData::Int32(x), NvData::Int32(y)) => *x == *y,
        (NvData::Uint32(x), NvData::Uint32(y)) => *x == *y,
        (NvData::Int64(x), NvData::Int64(y)) => *x == *y,
        (NvData::Uint64(x), NvData::Uint64(y)) => *x == *y,
        (NvData::Str(x), NvData::Str(y)) => same_bytes(x.as_slice(), y.as_slice()),
        (NvData::NvListRef(x), NvData::NvListRef(y)) => same_list(&x.list, &y.list),
        (NvData::Uint64Array(x), NvData::Uint64Array(y)) => same_words(
            x.as_slice(),
            y.as_slice(),
        ),
        (NvData::NvListArray(x), NvData::NvListArray(y)) => {
            assert(a@->ListArray_0 =~= list_views(x@));
            assert(b@->ListArray_0 =~= list_views(y@));
            same_lists(x, y)
        },
        _ => false,
    }
}

/// Compares two lists.
pub(crate) fn same_list(a: &NvListRef, b: &NvListRef) -> (r: bool)
    ensures
        r == (a@ == b@),
    decreases a, 3int,
{
    if a.unique != b.unique || a.pairs.len() != b.pairs.len() {
        assert(a@.entries.len() != b@.entries.len() || a@.unique != b@.unique);
        return false;
    }
    let mut i: usize = 0;
    while i < a.pairs.len()
        invariant
            a.unique == b.unique,
            a.pairs.len() == b.pairs.len(),
            i <= a.pairs.len(),
            forall|j: int| 0 <= j < i ==> (#[trigger] a.pairs@[j])@ == b.pairs@[j]@,
        decreases a.pairs.len() - i,
    {
        let p: &NvPair = &a.pairs[i];
        let q: &NvPair = &b.pairs[i];
        if !same_bytes(p.name.as_slice(), q.name.as_slice()) || !same_data(&p.data, &q.data) {
            assert(a@.entries[i as int] != b@.entries[i as int]);
            return false;
        }
        i += 1;
    }
    assert(a@.entries =~= b@.entries);
    true
}

impl PartialEq for NvListRef {
    fn eq(&self, other: &NvListRef) -> (r: bool) {
        same_list(self, other)
    }
}

impl PartialEqSpecImpl for NvListRef {
    open spec fn obeys_eq_spec() -> bool {
        true
    }

    open spec fn eq_spec(&self, other: &NvListRef) -> bool {
        self@ == other@
    }
}

impl PartialEq for NvList {
    fn eq(&self, other: &NvList) -> (r: bool) {
        same_list(&self.list, &other.list)
    }
}

impl PartialEqSpecImpl for NvList {
    open spec fn obeys_eq_spec() -> bool {
        true
    }

    open spec fn eq_spec(&self, other: &NvList) -> bool {
        self@ == other@
    }
}

} // verus!

//! Making lists and putting entries into them.

use crate::data::{views, NvData, NvList, NvListRef, NvPair};
use crate::error::NvError;
use crate::list::{name_bytes, name_text, same_bytes};
use crate::model::{survivors, Entry, Listing, NvType, Unique, Value};
use crate::name::no_nul;
use vstd::prelude::*;

verus! {

/// What survives an insertion was there before, clashes with nothing new, and
/// still meets the list's demand on names.
pub proof fn lemma_survivors(entries: Seq<Entry>, unique: Unique, name: Seq<u8>, tag: NvType)
    ensures
        forall|i: int|
            0 <= i < survivors(entries, unique, name, tag).len() ==> {
                &&& entries.contains(#[trigger] survivors(entries, unique, name, tag)[i])
                &&& !survivors(entries, unique, name, tag)[i].clashes(unique, name, tag)
            },
        (Listing { unique, entries }).distinct() ==> (Listing {
            unique,
            entries: survivors(entries, unique, name, tag),
        }).distinct(),
        unique == Unique::Off ==> survivors(entries, unique, name, tag) == entries,
    decreases entries.len(),
{
    if entries.len() > 0 {
        let front = entries.drop_last();
        let last = entries.last();
        lemma_survivors(front, unique, name, tag);
        let before = survivors(front, unique, name, tag);
        let after = survivors(entries, unique, name, tag);
        assert forall|i: int| 0 <= i < after.len() implies entries.contains(#[trigger] after[i])
            && !after[i].clashes(unique, name, tag) by {
            if i < before.len() {
                assert(front.contains(before[i]));
                let k = choose|k: int| 0 <= k < front.len() && front[k] == before[i];
                assert(entries[k] == before[i]);
            } else {
                assert(after[i] == entries[entries.len() - 1]);
            }
        }
        if (Listing { unique, entries }).distinct() {
            assert((Listing { unique, entries: front }).distinct()) by {
                assert forall|i: int, j: int| 0 <= i < j < front.len() implies !(
                #[trigger] front[i]).clashes(
                    unique,
                    (#[trigger] front[j]).name,
                    front[j].value.tag(),
                ) by {
                    assert(front[i] == entries[i] && front[j] == entries[j]);
                }
            }
            assert forall|i: int, j: int| 0 <= i < j < after.len() implies !(
            #[trigger] after[i]).clashes(unique, (#[trigger] after[j]).name, after[j].value.tag()) by {
                if j < before.len() {
                    assert(after[i] == before[i] && after[j] == before[j]);
                } else {
                    assert(after[j] == last);
                    assert(after[i] == before[i]);
                    assert(front.contains(before[i]));
                    let k = choose|k: int| 0 <= k < front.len() && front[k] == before[i];
                    assert(entries[k] == before[i]);
                    assert(entries[entries.len() - 1] == last);
                }
            }
        }
        if unique == Unique::Off {
            assert(after =~= entries);
        }
    }
}

/// Inserting a well-formed entry into a well-formed list leaves it well formed.
pub proof fn lemma_insert_wf(l: Listing, name: Seq<u8>, value: Value)
    requires
        l.wf(),
        no_nul(name),
        value.wf(),
    ensures
        l.insert(name, value).wf(),
{
    lemma_survivors(l.entries, l.unique, name, value.tag());
    let kept = survivors(l.entries, l.unique, name, value.tag());
    let after = l.insert(name, value);
    assert forall|i: int| 0 <= i < after.entries.len() implies (#[trigger] after.entries[i]).wf() by {
        if i < kept.len() {
            assert(l.entries.contains(kept[i]));
        }
    }
    assert((Listing { unique: l.unique, entries: l.entries }).distinct());
    assert((Listing { unique: l.unique, entries: kept }).distinct());
    assert forall|i: int, j: int| 0 <= i < j < after.entries.len() implies !(
    #[trigger] after.entries[i]).clashes(
        after.unique,
        (#[trigger] after.entries[j]).name,
        after.entries[j].value.tag(),
    ) by {
        if j < kept.len() {
            assert(after.entries[i] == kept[i] && after.entries[j] == kept[j]);
        } else {
            assert(after.entries[i] == kept[i]);
        }
    }
}

impl NvData {
    /// The kind of the value.
    pub fn tag(&self) -> (r: NvType)
        ensures
            r == self@.tag(),
    {
        match self {
            NvData::Unknown => NvType::Unknown,
            NvData::Bool => NvType::Boolean,
            NvData::BoolV(_) => NvType::BooleanValue,
            NvData::Byte(_) => NvType::Byte,
            NvData::Int8(_) => NvType::Int8,
            NvData::Uint8(_) => NvType::Uint8,
            NvData::Int16(_) => NvType::Int16,
            NvData::Uint16(_) => NvType::Uint16,
            NvData::Int32(_) => NvType::Int32,
            NvData::Uint32(_) => NvType::Uint32,
            NvData::Int64(_) => NvType::Int64,
            NvData::Uint64(_) => NvType::Uint64,
            NvData::Str(_) => NvType::String,
            NvData::NvListRef(_) => NvType::NvList,
            NvData::Uint64Array(_) => NvType::Uint64Array,
            NvData::NvListArray(_) => NvType::NvListArray,
        }
    }
}

impl NvPair {
    /// True when an entry of this name and kind may not stand beside this one.
    pub(crate) fn clashes(&self, unique: Unique, name: &[u8], tag: NvType) -> (r: bool)
        ensures
            r == self@.clashes(unique, name@, tag),
    {
        match unique {
            Unique::Off => false,
            Unique::Name => same_bytes(self.name.as_slice(), name),
            Unique::NameType => same_bytes(self.name.as_slice(), name) && self.data.tag() == tag,
        }
    }
}

/// The view of a list, from its parts.
pub(crate) proof fn lemma_view(l: NvListRef)
    ensures
        l@ == (Listing { unique: l.unique, entries: views(l.pairs@) }),
{
    assert(l@.entries =~= views(l.pairs@));
}

/// The pairs in reverse order.
fn reversed(pairs: Vec<NvPair>) -> (r: Vec<NvPair>)
    ensures
        r@.len() == pairs@.len(),
        forall|j: int| 0 <= j < r@.len() ==> r@[j] == pairs@[pairs@.len() - 1 - j],
{
    let mut from = pairs;
    let mut out: Vec<NvPair> = Vec::new();
    while from.len() > 0
        invariant
            from@.len() + out@.len() == pairs@.len(),
            from@ == pairs@.take(from@.len() as int),
            forall|j: int| 0 <= j < out@.len() ==> out@[j] == pairs@[pairs@.len() - 1 - j],
        decreases from.len(),
    {
        match from.pop() {
            Some(p) => out.push(p),
            None => {},
        }
        assert(from@ =~= pairs@.take(from@.len() as int));
    }
    out
}

/// The pairs that do not clash with an entry of this name and kind, in their
/// order.
fn without_clashes(pairs: Vec<NvPair>, unique: Unique, name: &[u8], tag: NvType) -> (r: Vec<
    NvPair,
>)
    ensures
        views(r@) == survivors(views(pairs@), unique, name@, tag),
{
    let ghost orig = pairs@;
    let mut rev = reversed(pairs);
    let mut kept: Vec<NvPair> = Vec::new();
    assert(views(orig.take(0)) =~= Seq::<Entry>::empty());
    assert(views(kept@) =~= Seq::<Entry>::empty());
    while rev.len() > 0
        invariant
            rev@.len() <= orig.len(),
            forall|j: int| 0 <= j < rev@.len() ==> rev@[j] == orig[orig.len() - 1 - j],
            views(kept@) == survivors(views(orig.take(orig.len() - rev@.len())), unique, name@, tag),
        decreases rev.len(),
    {
        let ghost k = orig.len() - rev@.len();
        proof {
            assert(views(orig.take(k + 1)).drop_last() =~= views(orig.take(k)));
            assert(views(orig.take(k + 1)).last() == orig[k]@);
        }
        match rev.pop() {
            Some(p) => {
                assert(p == orig[k]);
                if !p.clashes(unique, name, tag) {
                    let ghost before = kept@;
                    kept.push(p);
                    assert(views(kept@) =~= views(before).push(p@));
                }
            },
            None => {},
        }
    }
    assert(orig.take(orig.len() as int) =~= orig);
    kept
}

/// True when no byte is a terminator.
fn free_of_nul(s: &[u8]) -> (r: bool)
    ensures
        r == no_nul(s@),
{
    let mut i: usize = 0;
    while i < s.len()
        invariant
            i <= s.len(),
            forall|j: int| 0 <= j < i ==> s@[j] != 0u8,
        decreases s.len() - i,
    {
        if s[i] == 0 {
            return false;
        }
        i += 1;
    }
    true
}

/// True when the value can stand in a list: a string holds no terminator.
/// Nested lists are well formed as all lists are.
pub(crate) fn valid_data(d: &NvData) -> (r: bool)
    ensures
        r == d@.wf(),
{
    match d {
        NvData::Str(s) => free_of_nul(s.as_slice()),
        NvData::NvListRef(l) => {
            proof {
                use_type_invariant(&l.list);
            }
            true
        },
        NvData::NvListArray(ls) => {
            let mut i: usize = 0;
            while i < ls.len()
                invariant
                    i <= ls.len(),
                    forall|j: int| 0 <= j < i ==> (#[trigger] ls@[j])@.wf(),
                decreases ls.len() - i,
            {
                let inner: &NvListRef = &ls[i].list;
                proof {
                    use_type_invariant(inner);
                }
                i += 1;
            }
            assert forall|j: int| 0 <= j < d@->ListArray_0.len() implies (
            #[trigger] d@->ListArray_0[j]).wf() by {
                assert(ls@[j]@.wf());
            }
            true
        },
        _ => true,
    }
}

impl NvListRef {
    /// Puts an entry of this name and value into the list. The entries that
    /// clash with it under the list's demand on names leave first: with no
    /// demand none, with one entry for each name those of this name, with one
    /// for each name and kind those of this name and kind. The new entry
    /// stands last. A name that is no text, or a string value that holds a
    /// terminator, is refused, and the list stays as it was.
    pub fn add(&mut self, name: &str, data: NvData) -> (r: Result<(), NvError>)
        ensures
            name_text(name) is Some && data@.wf() ==> r is Ok && final(self)@ == old(self)@.insert(
                name_text(name).unwrap(),
                data@,
            ),
            !(name_text(name) is Some && data@.wf()) ==> r == Err::<(), NvError>(
                NvError::InvalidName,
            ) && final(self)@ == old(self)@,
            final(self).wf(),
    {
        proof {
            use_type_invariant(&*self);
        }
        if !valid_data(&data) {
            return Err(NvError::InvalidName);
        }
        match name_bytes(name) {
            Some(text) => {
                let ghost before = self@;
                let tag = data.tag();
                let mut pairs: Vec<NvPair> = Vec::new();
                assert(views(pairs@) =~= Seq::<Entry>::empty());
                core::mem::swap(&mut self.pairs, &mut pairs);
                assert(before.entries =~= views(pairs@));
                let mut kept = without_clashes(pairs, self.unique, text.as_slice(), tag);
                let ghost added = Entry { name: text@, value: data@ };
                let ghost short = views(kept@);
                kept.push(NvPair { name: text, data });
                proof {
                    assert(views(kept@) =~= short.push(added));
                    lemma_insert_wf(before, added.name, added.value);
                    assert(before.insert(added.name, added.value).entries == views(kept@));
                    lemma_view(NvListRef { unique: self.unique, pairs: kept });
                }
                core::mem::swap(&mut self.pairs, &mut kept);
                assert(self@.entries =~= before.insert(added.name, added.value).entries);
                Ok(())
            },
            None => Err(NvError::InvalidName),
        }
    }
}

} // verus!

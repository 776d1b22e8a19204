//! Reading a list: emptiness, lookup by name, and iteration.

use crate::data::{NvData, NvListRef, NvPair};
use crate::error::NvError;
use crate::model::{Entry, Listing, NvType};
use crate::name::{checked_text, text_of};
use vstd::prelude::*;
use vstd::string::StringSliceAdditionalSpecFns;

verus! {

/// The text that a name stands for, if it is one.
pub open spec fn name_text(name: &str) -> Option<Seq<u8>> {
    text_of(name.spec_bytes())
}

/// The first entry of `l` under `name`; none where the name is no text.
pub open spec fn found(l: Listing, name: &str) -> Option<Entry> {
    match name_text(name) {
        Some(text) => l.lookup(text),
        None => None,
    }
}

/// Where a list has an entry of some name, the first one is at one place only.
pub proof fn lemma_first_at(l: Listing, name: Seq<u8>, i: int)
    requires
        l.first_at(name, i),
    ensures
        l.has(name),
        l.lookup(name) == Some(l.entries[i]),
{
    let k = choose|k: int| l.first_at(name, k);
    assert(l.entries[i].name == name);
    if k < i {
        assert(l.entries[k].name != name);
    } else if i < k {
        assert(l.entries[i].name != name);
    }
}

/// Compares two byte strings.
pub(crate) fn same_bytes(a: &[u8], b: &[u8]) -> (r: bool)
    ensures
        r == (a@ == b@),
{
    if a.len() != b.len() {
        return false;
    }
    let mut i: usize = 0;
    while i < a.len()
        invariant
            a.len() == b.len(),
            i <= a.len(),
            forall|j: int| 0 <= j < i ==> a@[j] == b@[j],
        decreases a.len() - i,
    {
        if a[i] != b[i] {
            return false;
        }
        i += 1;
    }
    assert(a@ =~= b@);
    true
}

/// The bytes of a name, without terminator.
pub(crate) fn name_bytes(name: &str) -> (r: Option<Vec<u8>>)
    ensures
        r is Some == name_text(name) is Some,
        r is Some ==> r->0@ == name_text(name)->0 && crate::name::no_nul(r->0@),
{
    checked_text(name.as_bytes())
}

impl NvPair {
    /// The name of the entry, without terminator.
    pub fn name(&self) -> (r: &[u8])
        ensures
            r@ == self@.name,
    {
        self.name.as_slice()
    }

    /// The kind of the entry's value.
    pub fn tag(&self) -> (r: NvType)
        ensures
            r == self@.value.tag(),
    {
        self.data.tag()
    }

    /// The value of the entry.
    pub fn data(&self) -> (r: &NvData)
        ensures
            r@ == self@.value,
    {
        &self.data
    }
}

/// A cursor over the entries of a list, in insertion order.
pub struct NvListIter<'a> {
    parent: &'a NvListRef,
    pos: usize,
}

impl<'a> NvListIter<'a> {
    /// The entries that are still to come.
    pub closed spec fn view(&self) -> Seq<Entry> {
        if self.pos <= self.parent@.entries.len() {
            self.parent@.entries.skip(self.pos as int)
        } else {
            Seq::empty()
        }
    }

    /// Hands out the next entry and moves past it; nothing at the end.
    pub fn next(&mut self) -> (r: Option<&'a NvPair>)
        ensures
            old(self)@.len() == 0 ==> r is None && final(self)@ == old(self)@,
            old(self)@.len() > 0 ==> r is Some && r->0@ == old(self)@[0] && final(self)@ == old(
                self,
            )@.drop_first(),
    {
        if self.pos < self.parent.pairs.len() {
            let p = &self.parent.pairs[self.pos];
            self.pos = self.pos + 1;
            assert(final(self)@ =~= old(self)@.drop_first());
            Some(p)
        } else {
            None
        }
    }
}

impl NvListRef {
    /// The place of the first entry of this name.
    pub(crate) fn find(&self, name: &[u8]) -> (r: Option<usize>)
        ensures
            match r {
                Some(i) => self@.first_at(name@, i as int) && i < self.pairs.len(),
                None => !self@.has(name@),
            },
    {
        let mut i: usize = 0;
        while i < self.pairs.len()
            invariant
                i <= self.pairs.len(),
                forall|j: int| 0 <= j < i ==> (#[trigger] self@.entries[j]).name != name@,
            decreases self.pairs.len() - i,
        {
            if same_bytes(self.pairs[i].name.as_slice(), name) {
                return Some(i);
            }
            i += 1;
        }
        None
    }

    /// True when the list has no entry.
    pub fn is_empty(&self) -> (r: bool)
        ensures
            r == (self@.entries.len() == 0),
    {
        self.pairs.len() == 0
    }

    /// The first entry in insertion order.
    pub fn first(&self) -> (r: Option<&NvPair>)
        ensures
            self@.entries.len() == 0 ==> r is None,
            self@.entries.len() > 0 ==> r is Some && r->0@ == self@.entries[0],
    {
        if self.pairs.len() == 0 {
            None
        } else {
            Some(&self.pairs[0])
        }
    }

    /// A cursor at the first entry.
    pub fn iter(&self) -> (r: NvListIter<'_>)
        ensures
            r@ == self@.entries,
    {
        let r = NvListIter { parent: self, pos: 0 };
        assert(r@ =~= self@.entries);
        r
    }

    /// True when some entry has this name, whatever its kind.
    pub fn contains(&self, name: &str) -> (r: bool)
        ensures
            r == found(self@, name) is Some,
    {
        match name_bytes(name) {
            Some(text) => self.find(text.as_slice()).is_some(),
            None => false,
        }
    }

    /// The first entry of this name.
    pub fn lookup(&self, name: &str) -> (r: Result<&NvPair, NvError>)
        ensures
            match found(self@, name) {
                Some(e) => r matches Ok(p) && p@ == e,
                None => r matches Err(NvError::NotFound),
            },
    {
        match name_bytes(name) {
            Some(text) => match self.find(text.as_slice()) {
                Some(i) => {
                    proof {
                        lemma_first_at(self@, text@, i as int);
                    }
                    Ok(&self.pairs[i])
                },
                None => Err(NvError::NotFound),
            },
            None => Err(NvError::NotFound),
        }
    }
}

} // verus!

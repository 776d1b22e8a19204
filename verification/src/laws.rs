//! What holds of lists in general, stated over their model.

use crate::error::NvError;
use crate::insert::lemma_survivors;
use crate::list::{found, lemma_first_at, name_text};
use crate::model::{survivors, Entry, Listing, NvType, Unique, Value};
use crate::typed::typed;
use vstd::prelude::*;

verus! {

/// A name of ASCII characters without a terminator is a text: its bytes are
/// its characters.
pub proof fn law_ascii_name(name: &str)
    requires
        vstd::string::is_ascii(name),
        forall|i: int| 0 <= i < name@.len() ==> name@[i] != '\0',
    ensures
        name_text(name) == Some(Seq::new(name@.len(), |i: int| name@[i] as u8)),
{
    vstd::string::is_ascii_spec_bytes(name);
    let bytes = Seq::new(name@.len(), |i: int| name@[i] as u8);
    assert forall|i: int| 0 <= i < bytes.len() implies bytes[i] != 0u8 by {
        assert(name@[i] != '\0');
        assert(name@[i] as u8 != 0u8) by {
            let c = name@[i];
            assert(c as u32 != 0);
            assert(c as u32 <= 127);
        }
    }
}

/// A list that was just made has no entry: nothing is found in it under any
/// name, and a walk over it ends at once.
pub proof fn law_fresh_is_empty(unique: Unique, name: &str)
    ensures
        Listing::empty(unique).entries.len() == 0,
        Listing::empty(unique).wf(),
        found(Listing::empty(unique), name) is None,
{
}

/// In a well-formed list that keeps one entry of each name, no two entries
/// have the same name; in one that keeps one of each name and kind, no two
/// have the same name and kind.
pub proof fn law_names_are_unique(l: Listing, i: int, j: int)
    requires
        l.wf(),
        0 <= i < l.entries.len(),
        0 <= j < l.entries.len(),
        l.entries[i].name == l.entries[j].name,
        l.unique == Unique::Name || (l.unique == Unique::NameType && l.entries[i].value.tag()
            == l.entries[j].value.tag()),
    ensures
        i == j,
{
    if i < j {
        assert(l.entries[i].clashes(l.unique, l.entries[j].name, l.entries[j].value.tag()));
    } else if j < i {
        assert(l.entries[j].clashes(l.unique, l.entries[i].name, l.entries[i].value.tag()));
    }
}

/// In a list with no demand on names, insertion appends: every entry stays,
/// and the new one stands last.
pub proof fn law_insert_appends(l: Listing, text: Seq<u8>, v: Value)
    requires
        l.unique == Unique::Off,
    ensures
        l.insert(text, v).entries == l.entries.push(Entry { name: text, value: v }),
{
    lemma_survivors(l.entries, l.unique, text, v.tag());
}

/// After a value was inserted under a name, the entry of that name is the
/// last one of the list, and it is the first of that name where the list
/// keeps one entry of each name or had none of that name before.
pub proof fn law_inserted_is_found(l: Listing, name: &str, v: Value)
    requires
        name_text(name) is Some,
        l.unique == Unique::Name || found(l, name) is None,
    ensures
        l.insert(name_text(name).unwrap(), v).entries.last() == (Entry {
            name: name_text(name).unwrap(),
            value: v,
        }),
        found(l.insert(name_text(name).unwrap(), v), name) == Some(
            Entry { name: name_text(name).unwrap(), value: v },
        ),
{
    let text = name_text(name).unwrap();
    let after = l.insert(text, v);
    let kept = survivors(l.entries, l.unique, text, v.tag());
    let k = kept.len() as int;
    lemma_survivors(l.entries, l.unique, text, v.tag());
    assert forall|j: int| 0 <= j < k implies (#[trigger] after.entries[j]).name != text by {
        assert(after.entries[j] == kept[j]);
        assert(l.entries.contains(kept[j]));
        if l.unique != Unique::Name {
            let i = choose|i: int| 0 <= i < l.entries.len() && l.entries[i] == kept[j];
            assert(!l.has(text));
            assert(l.entries[i].name != text);
        }
    }
    assert(after.entries[k] == Entry { name: text, value: v });
    assert(after.first_at(text, k));
    lemma_first_at(after, text, k);
}

/// Lookup consistency: after a value was inserted under a name, a lookup of
/// that name by the value's kind gives the value, and a lookup by any other
/// kind fails as a mismatch of kinds. This holds where the list keeps one
/// entry of each name or had none of that name before.
pub proof fn law_lookup_after_insert(l: Listing, name: &str, v: Value, other: NvType)
    requires
        name_text(name) is Some,
        l.unique == Unique::Name || found(l, name) is None,
    ensures
        typed(l.insert(name_text(name).unwrap(), v), name, v.tag()) == Ok::<Value, NvError>(v),
        other != v.tag() ==> typed(l.insert(name_text(name).unwrap(), v), name, other) == Err::<
            Value,
            NvError,
        >(NvError::TypeMismatch),
{
    law_inserted_is_found(l, name, v);
}

/// Duplication independence: a list is a value, and inserting into it gives
/// another value. So a copy, which is equal to the list it was made from,
/// still has the entries of that list after something was inserted into the
/// list, and the list still has its entries after something was inserted into
/// the copy.
pub proof fn law_copy_is_independent(l: Listing, copy: Listing, text: Seq<u8>, v: Value)
    requires
        copy == l,
    ensures
        ({
            let changed = l.insert(text, v);
            copy.entries == l.entries && changed.entries.last().value == v
        }),
        ({
            let changed = copy.insert(text, v);
            l.entries == copy.entries && changed.entries.last().value == v
        }),
{
}

/// Nested embedding: a list that was inserted as a value is found under its
/// name as it was when it was inserted, whatever is inserted into the source
/// afterwards.
pub proof fn law_embedded_is_a_copy(
    parent: Listing,
    name: &str,
    nested: Listing,
    text: Seq<u8>,
    v: Value,
)
    requires
        name_text(name) is Some,
        parent.unique == Unique::Name || found(parent, name) is None,
    ensures
        ({
            let holder = parent.insert(name_text(name).unwrap(), Value::List(nested));
            let changed = nested.insert(text, v);
            &&& typed(holder, name, NvType::NvList) == Ok::<Value, NvError>(Value::List(nested))
            &&& changed.entries.last().value == v
        }),
{
    law_lookup_after_insert(parent, name, Value::List(nested), NvType::Unknown);
}

} // verus!

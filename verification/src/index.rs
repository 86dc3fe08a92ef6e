//! Looking up an item of an array by its place, or a value of a map by its
//! key.
use vstd::prelude::*;
use crate::content::ArrayContent;
use crate::data_item::{models, DataItem};
use crate::model::{place_of, Item};
use crate::sealed::Sealed;

verus! {

/// Looking up an item inside an item, by its place or by its key: no other
/// type can be given for `Idx`.
pub trait Get<Idx: Sealed> {
    /// The item found under `idx`, if there is one.
    fn get(&self, idx: Idx) -> Option<&Self>;

    /// The item found under `idx`, if there is one, to be changed in place.
    fn get_mut(&mut self, idx: Idx) -> Option<&mut Self>;
}

/// The item of the array `v` at place `idx`, if `v` is an array that long.
pub open spec fn item_at(v: Item, idx: int) -> Option<Item> {
    match v {
        Item::Array { indefinite, items } => if 0 <= idx < items.len() {
            Some(items[idx])
        } else {
            None
        },
        _ => None,
    }
}

/// The value of the first entry of the map `v` whose key is like `key`, if
/// `v` is a map with such an entry.
pub open spec fn value_of(v: Item, key: Item) -> Option<Item> {
    match v {
        Item::Mapping { indefinite, entries } => if place_of(entries, key) < entries.len() {
            Some(entries[place_of(entries, key)].1)
        } else {
            None
        },
        _ => None,
    }
}

/// The array `v` with `item` in place of its item at place `idx`.
pub open spec fn with_item(v: Item, idx: int, item: Item) -> Item {
    match v {
        Item::Array { indefinite, items } => Item::Array {
            indefinite,
            items: items.update(idx, item),
        },
        _ => v,
    }
}

/// The map `v` with `value` in place of the value of its first entry whose
/// key is like `key`.
pub open spec fn with_value(v: Item, key: Item, value: Item) -> Item {
    match v {
        Item::Mapping { indefinite, entries } => Item::Mapping {
            indefinite,
            entries: entries.update(
                place_of(entries, key),
                (entries[place_of(entries, key)].0, value),
            ),
        },
        _ => v,
    }
}

/// The item of `a` at place `idx`, to be changed in place.
fn item_mut(a: &mut ArrayContent, idx: usize) -> (r: &mut DataItem)
    requires
        idx < old(a).array@.len(),
    ensures
        *r == old(a).array@[idx as int],
        final(a).is_indefinite == old(a).is_indefinite,
        models(final(a).array@) == models(old(a).array@).update(idx as int, final(r)@),
{
    proof {
        let before = a.array@;
        assert forall|x: DataItem| #[trigger]
            models(before.update(idx as int, x)) == models(before).update(idx as int, x@) by {
            assert(models(before.update(idx as int, x)) =~= models(before).update(idx as int, x@));
        }
    }
    &mut a.array[idx]
}

impl Get<usize> for DataItem {
    /// The item of the array at place `idx`, to be changed in place: nothing
    /// else in the array changes.
    fn get_mut(&mut self, idx: usize) -> (r: Option<&mut Self>)
        ensures
            match item_at(old(self)@, idx as int) {
                Some(v) => r is Some && r->Some_0@ == v && final(self)@ == with_item(
                    old(self)@,
                    idx as int,
                    final(r->Some_0)@,
                ),
                None => r is None && final(self)@ == old(self)@,
            },
    {
        match self {
            DataItem::Array(a) => {
                assert(old(self)@ == Item::Array {
                    indefinite: a.is_indefinite,
                    items: models(a.array@),
                });
                if idx < a.array.len() {
                    Some(item_mut(a, idx))
                } else {
                    None
                }
            },
            _ => None,
        }
    }

    /// The item of the array at place `idx`.
    fn get(&self, idx: usize) -> (r: Option<&Self>)
        ensures
            match item_at(self@, idx as int) {
                Some(v) => r is Some && r->Some_0@ == v,
                None => r is None,
            },
    {
        match self {
            DataItem::Array(a) => {
                assert(self@ == Item::Array {
                    indefinite: a.is_indefinite,
                    items: models(a.array@),
                });
                if idx < a.array.len() {
                    Some(&a.array[idx])
                } else {
                    None
                }
            },
            _ => None,
        }
    }
}

impl Get<DataItem> for DataItem {
    /// The value that the map holds for the key `idx`, to be changed in
    /// place: nothing else in the map changes.
    fn get_mut(&mut self, idx: DataItem) -> (r: Option<&mut Self>)
        ensures
            match value_of(old(self)@, idx@) {
                Some(v) => r is Some && r->Some_0@ == v && final(self)@ == with_value(
                    old(self)@,
                    idx@,
                    final(r->Some_0)@,
                ),
                None => r is None && final(self)@ == old(self)@,
            },
    {
        match self {
            DataItem::Mapping(m) => m.map.get_mut(&idx),
            _ => None,
        }
    }

    /// The value that the map holds for the key `idx`.
    fn get(&self, idx: DataItem) -> (r: Option<&Self>)
        ensures
            match value_of(self@, idx@) {
                Some(v) => r is Some && r->Some_0@ == v,
                None => r is None,
            },
    {
        match self {
            DataItem::Mapping(m) => m.map.get(&idx),
            _ => None,
        }
    }
}

impl vstd::std_specs::core::IndexSpecImpl<usize> for DataItem {
    open spec fn index_req(&self, index: &usize) -> bool {
        item_at(self@, *index as int) is Some
    }
}

impl std::ops::Index<usize> for DataItem {
    type Output = DataItem;

    /// The item of the array at place `index`, which must be there.
    fn index(&self, index: usize) -> (r: &DataItem)
        ensures
            Some(r@) == item_at(self@, index as int),
    {
        match self.get(index) {
            Some(found) => found,
            None => vstd::pervasive::unreached(),
        }
    }
}

impl vstd::std_specs::core::IndexSpecImpl<DataItem> for DataItem {
    open spec fn index_req(&self, index: &DataItem) -> bool {
        value_of(self@, index@) is Some
    }
}

impl std::ops::Index<DataItem> for DataItem {
    type Output = DataItem;

    /// The value that the map holds for the key `index`, which must be
    /// there.
    fn index(&self, index: DataItem) -> (r: &DataItem)
        ensures
            Some(r@) == value_of(self@, index@),
    {
        match self.get(index) {
            Some(found) => found,
            None => vstd::pervasive::unreached(),
        }
    }
}

} // verus!

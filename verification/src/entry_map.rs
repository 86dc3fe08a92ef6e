//! The insertion-ordered, unique-keyed table that holds the entries of a map.
use vstd::prelude::*;
use indexmap::IndexMap;
use crate::data_item::DataItem;
use crate::model::{place_of, Item};

verus! {

/// The `IndexMap` of the crate `indexmap`, of which nothing but its name is
/// known here.
#[verifier::external_type_specification]
#[verifier::external_body]
#[verifier::reject_recursive_types(K)]
#[verifier::reject_recursive_types(V)]
#[verifier::reject_recursive_types(S)]
pub struct ExIndexMap<K, V, S>(IndexMap<K, V, S>);

/// The entries of a map, held in an `IndexMap` from data item to data item.
///
/// The map tells keys apart by `==` on data items, which takes no account of
/// the order of the entries of a map inside a key: `alike` states that
/// equality over the model. Everything said of a table here is said of what
/// `IndexMap` does and is taken on trust.
#[verifier::external_body]
#[derive(Debug)]
pub struct EntryMap {
    inner: IndexMap<DataItem, DataItem>,
}

/// The entries that a table holds, as pairs of key and value in insertion
/// order.
pub uninterp spec fn entries_of(m: EntryMap) -> Seq<(Item, Item)>;

/// The entries that an `IndexMap` holds, as pairs of key and value in
/// insertion order.
pub uninterp spec fn held_by(m: IndexMap<DataItem, DataItem>) -> Seq<(Item, Item)>;

/// What a table holds after `key` was inserted with `value`: where a key
/// like it is present, that key with the new value in its place; otherwise
/// the old entries and the new one behind them.
pub open spec fn inserted(entries: Seq<(Item, Item)>, key: Item, value: Item) -> Seq<(Item, Item)> {
    let at = place_of(entries, key);
    if at < entries.len() {
        entries.update(at, (entries[at].0, value))
    } else {
        entries.push((key, value))
    }
}

impl EntryMap {
    /// `IndexMap::new`: a table without entries.
    #[verifier::external_body]
    pub(crate) fn new() -> (r: Self)
        ensures
            entries_of(r) == Seq::<(Item, Item)>::empty(),
    {
        EntryMap { inner: IndexMap::new() }
    }

    /// `IndexMap::len`: the number of entries.
    #[verifier::external_body]
    pub(crate) fn len(&self) -> (n: usize)
        ensures
            n == entries_of(*self).len(),
    {
        self.inner.len()
    }

    /// `IndexMap::get_index`: the entry at place `i` of the insertion order.
    #[verifier::external_body]
    pub(crate) fn entry_at(&self, i: usize) -> (r: (&DataItem, &DataItem))
        requires
            i < entries_of(*self).len(),
        ensures
            r.0@ == entries_of(*self)[i as int].0,
            r.1@ == entries_of(*self)[i as int].1,
    {
        self.inner.get_index(i).unwrap()
    }

    /// `IndexMap::insert`: where a key like `key` is present it stays in its
    /// place, its value is replaced and the old value returned; otherwise the
    /// pair becomes the last entry and nothing is returned.
    #[verifier::external_body]
    pub(crate) fn insert(&mut self, key: DataItem, value: DataItem) -> (r: Option<DataItem>)
        ensures
            entries_of(*final(self)) == inserted(entries_of(*old(self)), key@, value@),
            match r {
                Some(before) => {
                    let at = place_of(entries_of(*old(self)), key@);
                    at < entries_of(*old(self)).len() && before@ == entries_of(*old(self))[at].1
                },
                None => place_of(entries_of(*old(self)), key@) == entries_of(*old(self)).len(),
            },
    {
        self.inner.insert(key, value)
    }

    /// `IndexMap::get`: the value stored for a key like `key`, if one is
    /// present.
    #[verifier::external_body]
    pub(crate) fn get(&self, key: &DataItem) -> (r: Option<&DataItem>)
        ensures
            match r {
                Some(found) => {
                    let at = place_of(entries_of(*self), key@);
                    at < entries_of(*self).len() && found@ == entries_of(*self)[at].1
                },
                None => place_of(entries_of(*self), key@) == entries_of(*self).len(),
            },
    {
        self.inner.get(key)
    }

    /// The table that holds what `map` holds.
    #[verifier::external_body]
    pub(crate) fn from_index_map(map: IndexMap<DataItem, DataItem>) -> (r: Self)
        ensures
            entries_of(r) == held_by(map),
    {
        EntryMap { inner: map }
    }

    /// `IndexMap::clone`: a table that holds what `map` holds.
    #[verifier::external_body]
    pub(crate) fn cloned_from(map: &IndexMap<DataItem, DataItem>) -> (r: Self)
        ensures
            entries_of(r) == held_by(*map),
    {
        EntryMap { inner: map.clone() }
    }

    /// The `IndexMap` inside the table.
    #[verifier::external_body]
    pub(crate) fn as_index_map(&self) -> (r: &IndexMap<DataItem, DataItem>)
        ensures
            held_by(*r) == entries_of(*self),
    {
        &self.inner
    }

    /// The `IndexMap` inside the table, to be changed in place.
    #[verifier::external_body]
    pub(crate) fn as_index_map_mut(&mut self) -> (r: &mut IndexMap<DataItem, DataItem>)
        ensures
            held_by(*r) == entries_of(*old(self)),
            entries_of(*final(self)) == held_by(*final(r)),
    {
        &mut self.inner
    }

    /// `IndexMap::get_mut`: the value stored for a key like `key`, if one is
    /// present, to be changed in place; nothing else in the table changes.
    #[verifier::external_body]
    pub(crate) fn get_mut(&mut self, key: &DataItem) -> (r: Option<&mut DataItem>)
        ensures
            match r {
                Some(found) => {
                    let at = place_of(entries_of(*old(self)), key@);
                    at < entries_of(*old(self)).len() && found@ == entries_of(*old(self))[at].1
                        && entries_of(*final(self)) == entries_of(*old(self)).update(
                        at,
                        (entries_of(*old(self))[at].0, final(found)@),
                    )
                },
                None => place_of(entries_of(*old(self)), key@) == entries_of(*old(self)).len()
                    && entries_of(*final(self)) == entries_of(*old(self)),
            },
    {
        self.inner.get_mut(key)
    }
}

impl Clone for EntryMap {
    /// `IndexMap::clone`: a table with equal entries in the same order.
    #[verifier::external_body]
    fn clone(&self) -> (r: Self)
        ensures
            entries_of(r) == entries_of(*self),
    {
        EntryMap { inner: self.inner.clone() }
    }
}

impl PartialEq for EntryMap {
    /// `IndexMap::eq`: whether both tables hold equal values for equal keys,
    /// in whatever order.
    #[verifier::external_body]
    fn eq(&self, other: &Self) -> (r: bool) {
        self.inner == other.inner
    }
}

impl Eq for EntryMap {

}

impl std::hash::Hash for EntryMap {
    /// Hashes the number of entries, which tables that are equal in whatever
    /// order share.
    #[verifier::external_body]
    fn hash<H: std::hash::Hasher>(&self, state: &mut H) {
        self.inner.len().hash(state)
    }
}

} // verus!

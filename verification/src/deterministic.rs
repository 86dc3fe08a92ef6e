//! The two deterministic forms of a data item: the test for them and the
//! transform into them.
use vstd::prelude::*;
use crate::content::{joined, ArrayContent, ByteContent, MapContent, TagContent, TextContent};
use crate::data_item::{model, models, DataItem};
use crate::encode::encoding;
use crate::entry_map::{entries_of, inserted, EntryMap};
use crate::model::{array_item_is_smaller, map_entry_is_smaller, tag_content_is_smaller, Item};

verus! {

/// The order in which a deterministic form puts the keys of a map.
#[derive(Clone, Copy, PartialEq, Eq, Debug)]
#[non_exhaustive]
pub enum DeterministicMode {
    /// Keys in the bytewise order of their encodings.
    Core,
    /// Keys with shorter encodings first, equal lengths in bytewise order.
    LengthFirst,
}

/// Whether `a` does not come after `b` in the bytewise, lexicographic
/// order.
pub open spec fn lex_le(a: Seq<u8>, b: Seq<u8>) -> bool
    decreases a.len(),
{
    if a.len() == 0 {
        true
    } else if b.len() == 0 {
        false
    } else if a.first() != b.first() {
        a.first() < b.first()
    } else {
        lex_le(a.drop_first(), b.drop_first())
    }
}

/// Whether the encoding `a` of a key does not come after the encoding `b`
/// of another in the order of `mode`.
pub open spec fn code_le(a: Seq<u8>, b: Seq<u8>, mode: DeterministicMode) -> bool {
    match mode {
        DeterministicMode::Core => lex_le(a, b),
        DeterministicMode::LengthFirst => a.len() < b.len() || (a.len() == b.len() && lex_le(a, b)),
    }
}

/// Whether the key `a` does not come after the key `b` in the order of
/// `mode`.
pub open spec fn key_le(a: Item, b: Item, mode: DeterministicMode) -> bool {
    code_le(encoding(a), encoding(b), mode)
}

/// Whether no key comes after the key that follows it.
pub open spec fn keys_in_order(entries: Seq<(Item, Item)>, mode: DeterministicMode) -> bool {
    forall|i: int|
        0 <= i < entries.len() - 1 ==> key_le(
            #[trigger] entries[i].0,
            entries[i + 1].0,
            mode,
        )
}

/// Whether an item is in the deterministic form of `mode`: no string, array
/// or map in it is indefinite, and the keys of every map in it are in order,
/// all the way down through arrays, tags, keys and values.
pub open spec fn is_canonical(v: Item, mode: DeterministicMode) -> bool
    decreases v,
{
    match v {
        Item::Mapping { indefinite, entries } => !indefinite && keys_in_order(entries, mode)
            && forall|i: int|
            0 <= i < entries.len() ==> is_canonical((#[trigger] entries[i]).0, mode)
                && is_canonical(entries[i].1, mode),
        Item::Array { indefinite, items } => !indefinite && forall|i: int|
            0 <= i < items.len() ==> is_canonical(#[trigger] items[i], mode),
        Item::Tag { number, content } => is_canonical(*content, mode),
        Item::Byte { indefinite, chunks } => !indefinite,
        Item::Text { indefinite, chunks } => !indefinite,
        _ => true,
    }
}

/// Where a stable sort puts `x` among the sorted entries `t`: behind the
/// last entry whose key does not come after the key of `x`.
pub open spec fn slot(t: Seq<(Item, Item)>, x: (Item, Item), mode: DeterministicMode) -> nat
    decreases t.len(),
{
    if t.len() == 0 {
        0
    } else if key_le(t.last().0, x.0, mode) {
        t.len()
    } else {
        slot(t.drop_last(), x, mode)
    }
}

/// The entries in the order of their keys, entries with keys of equal rank
/// in the order in which they stood.
pub open spec fn sorted(s: Seq<(Item, Item)>, mode: DeterministicMode) -> Seq<(Item, Item)>
    decreases s.len(),
{
    if s.len() == 0 {
        s
    } else {
        let t = sorted(s.drop_last(), mode);
        t.insert(slot(t, s.last(), mode) as int, s.last())
    }
}

/// The table that holds the entries after they were inserted one by one: of
/// entries with equal keys the first keeps its place and takes the value of
/// the last.
pub open spec fn rebuilt(s: Seq<(Item, Item)>) -> Seq<(Item, Item)>
    decreases s.len(),
{
    if s.len() == 0 {
        s
    } else {
        inserted(rebuilt(s.drop_last()), s.last().0, s.last().1)
    }
}

/// The deterministic form of an item in `mode`: every string definite and
/// in one chunk, every array definite, every map definite with its keys in
/// order, all the way down.
pub open spec fn canonical(v: Item, mode: DeterministicMode) -> Item
    decreases v, 0nat,
{
    match v {
        Item::Mapping { indefinite, entries } => Item::Mapping {
            indefinite: false,
            entries: rebuilt(sorted(canonical_entries(entries, entries.len(), mode), mode)),
        },
        Item::Array { indefinite, items } => Item::Array {
            indefinite: false,
            items: canonical_items(items, items.len(), mode),
        },
        Item::Tag { number, content } => Item::Tag {
            number,
            content: Box::new(canonical(*content, mode)),
        },
        Item::Byte { indefinite, chunks } => if indefinite {
            Item::Byte { indefinite: false, chunks: seq![joined(chunks)] }
        } else {
            v
        },
        Item::Text { indefinite, chunks } => if indefinite {
            Item::Text { indefinite: false, chunks: seq![joined(chunks)] }
        } else {
            v
        },
        _ => v,
    }
}

/// The deterministic forms of the first `n` items of a sequence.
pub open spec fn canonical_items(items: Seq<Item>, n: nat, mode: DeterministicMode) -> Seq<Item>
    decreases items, n,
{
    if n == 0 || n > items.len() {
        Seq::empty()
    } else {
        canonical_items(items, (n - 1) as nat, mode).push(canonical(items[n - 1], mode))
    }
}

/// The first `n` entries of a sequence with each key and each value in its
/// deterministic form.
pub open spec fn canonical_entries(entries: Seq<(Item, Item)>, n: nat, mode: DeterministicMode) -> Seq<
    (Item, Item),
>
    decreases entries, n,
{
    if n == 0 || n > entries.len() {
        Seq::empty()
    } else {
        canonical_entries(entries, (n - 1) as nat, mode).push(
            (canonical(entries[n - 1].0, mode), canonical(entries[n - 1].1, mode)),
        )
    }
}

/// The mathematical values of a sequence of pairs of data items.
pub open spec fn pairs(v: Seq<(DataItem, DataItem)>) -> Seq<(Item, Item)> {
    Seq::new(v.len(), |i: int| (model(v[i].0), model(v[i].1)))
}

/// Whether `a` does not come after `b` in the bytewise, lexicographic
/// order.
pub fn bytes_le(a: &[u8], b: &[u8]) -> (r: bool)
    ensures
        r == lex_le(a@, b@),
{
    let mut i: usize = 0;
    assert(a@.subrange(0, a@.len() as int) =~= a@);
    assert(b@.subrange(0, b@.len() as int) =~= b@);
    while i < a.len() && i < b.len()
        invariant
            i <= a.len(),
            i <= b.len(),
            lex_le(a@, b@) == lex_le(
                a@.subrange(i as int, a@.len() as int),
                b@.subrange(i as int, b@.len() as int),
            ),
        decreases a.len() - i,
    {
        let ghost x = a@.subrange(i as int, a@.len() as int);
        let ghost y = b@.subrange(i as int, b@.len() as int);
        assert(x.first() == a@[i as int]);
        assert(y.first() == b@[i as int]);
        if a[i] != b[i] {
            return a[i] < b[i];
        }
        assert(x.drop_first() =~= a@.subrange(i + 1, a@.len() as int));
        assert(y.drop_first() =~= b@.subrange(i + 1, b@.len() as int));
        i += 1;
    }
    a.len() <= b.len()
}

/// Whether the encoding `a` of a key does not come after the encoding `b`
/// of another in the order of `mode`.
pub fn code_in_order(a: &[u8], b: &[u8], mode: &DeterministicMode) -> (r: bool)
    ensures
        r == code_le(a@, b@, *mode),
{
    match mode {
        DeterministicMode::Core => bytes_le(a, b),
        DeterministicMode::LengthFirst => a.len() < b.len() || (a.len() == b.len() && bytes_le(
            a,
            b,
        )),
    }
}

/// The entries of `map` with each key and each value in its deterministic
/// form, in the order of their keys.
fn sorted_entries(map: &EntryMap, mode: &DeterministicMode, Ghost(parent): Ghost<Item>) -> (r:
    Vec<(DataItem, DataItem)>)
    requires
        parent is Mapping,
        parent->entries == entries_of(*map),
    ensures
        pairs(r@) == sorted(
            canonical_entries(entries_of(*map), entries_of(*map).len(), *mode),
            *mode,
        ),
    decreases parent, 0nat,
{
    let ghost entries = entries_of(*map);
    let count = map.len();
    let mut data: Vec<(DataItem, DataItem)> = Vec::new();
    let mut codes: Vec<Vec<u8>> = Vec::new();
    let mut i: usize = 0;
    assert(pairs(data@) =~= sorted(canonical_entries(entries, 0, *mode), *mode));
    while i < count
        invariant
            i <= count,
            parent is Mapping,
            parent->entries == entries,
            entries == entries_of(*map),
            count == entries.len(),
            codes@.len() == data@.len(),
            forall|j: int| 0 <= j < data@.len() ==> codes@[j]@ == encoding(model(data@[j].0)),
            pairs(data@) == sorted(canonical_entries(entries, i as nat, *mode), *mode),
        decreases count - i,
    {
        proof {
            map_entry_is_smaller(parent, i as int);
        }
        let (k, v) = map.entry_at(i);
        let key = k.clone().deterministic(mode);
        let value = v.clone().deterministic(mode);
        let code = key.encode();
        let ghost t = pairs(data@);
        let ghost x = (key@, value@);
        let mut j: usize = data.len();
        assert(t.subrange(0, j as int) =~= t);
        while j > 0 && !code_in_order(codes[j - 1].as_slice(), code.as_slice(), mode)
            invariant
                j <= data@.len(),
                t == pairs(data@),
                x.0 == key@,
                code@ == encoding(key@),
                codes@.len() == data@.len(),
                forall|j: int| 0 <= j < data@.len() ==> codes@[j]@ == encoding(model(data@[j].0)),
                slot(t, x, *mode) == slot(t.subrange(0, j as int), x, *mode),
            decreases j,
        {
            proof {
                let part = t.subrange(0, j as int);
                assert(part.last() == t[j - 1]);
                assert(part.drop_last() =~= t.subrange(0, j - 1));
            }
            j -= 1;
        }
        proof {
            let part = t.subrange(0, j as int);
            if j > 0 {
                assert(part.last() == t[j - 1]);
            }
            assert(slot(t, x, *mode) == j);
            let before = canonical_entries(entries, i as nat, *mode);
            let after = canonical_entries(entries, (i + 1) as nat, *mode);
            assert(after.drop_last() =~= before);
            assert(after.last() == x);
        }
        let ghost old_data = data@;
        let ghost old_codes = codes@;
        data.insert(j, (key, value));
        codes.insert(j, code);
        assert(pairs(data@) =~= t.insert(j as int, x));
        assert forall|m: int| 0 <= m < data@.len() implies codes@[m]@ == encoding(
            model(data@[m].0),
        ) by {
            if m < j {
                assert(codes@[m] == old_codes[m]);
                assert(data@[m] == old_data[m]);
            } else if m > j {
                assert(codes@[m] == old_codes[m - 1]);
                assert(data@[m] == old_data[m - 1]);
            }
        }
        i += 1;
    }
    data
}

/// A table of the entries `data`, inserted one by one.
pub(crate) fn table_of(data: &Vec<(DataItem, DataItem)>) -> (r: EntryMap)
    ensures
        entries_of(r) == rebuilt(pairs(data@)),
{
    let mut map = EntryMap::new();
    let mut i: usize = 0;
    assert(pairs(data@).subrange(0, 0) =~= Seq::<(Item, Item)>::empty());
    while i < data.len()
        invariant
            i <= data.len(),
            entries_of(map) == rebuilt(pairs(data@).subrange(0, i as int)),
        decreases data.len() - i,
    {
        proof {
            let then = pairs(data@).subrange(0, i + 1);
            assert(then.drop_last() =~= pairs(data@).subrange(0, i as int));
            assert(then.last() == pairs(data@)[i as int]);
        }
        let key = data[i].0.clone();
        let value = data[i].1.clone();
        map.insert(key, value);
        i += 1;
    }
    assert(pairs(data@).subrange(0, data@.len() as int) =~= pairs(data@));
    map
}

impl DataItem {
    /// The deterministic form of the item in `mode`.
    pub fn deterministic(self, mode: &DeterministicMode) -> (r: Self)
        ensures
            r@ == canonical(self@, *mode),
        decreases self@, 1nat,
    {
        match self {
            DataItem::Mapping(map) => {
                let data = sorted_entries(&map.map, mode, Ghost(self@));
                DataItem::Mapping(MapContent { is_indefinite: false, map: table_of(&data) })
            },
            DataItem::Array(array) => {
                assert(self@ == Item::Array {
                    indefinite: array.is_indefinite,
                    items: models(array.array@),
                });
                let ghost items = self@->items;
                let mut out: Vec<DataItem> = Vec::new();
                let mut i: usize = 0;
                assert(models(out@) =~= canonical_items(items, 0, *mode));
                while i < array.array.len()
                    invariant
                        i <= array.array.len(),
                        self@ is Array,
                        items == self@->items,
                        items == models(array.array@),
                        models(out@) == canonical_items(items, i as nat, *mode),
                    decreases array.array.len() - i,
                {
                    proof {
                        array_item_is_smaller(self@, i as int);
                    }
                    let item = array.array[i].clone().deterministic(mode);
                    let ghost before = out@;
                    out.push(item);
                    assert(models(out@) =~= models(before).push(item@));
                    i += 1;
                }
                DataItem::Array(ArrayContent { is_indefinite: false, array: out })
            },
            DataItem::Tag(tag) => {
                proof {
                    tag_content_is_smaller(self@);
                }
                let inner = (*tag.content).deterministic(mode);
                DataItem::Tag(TagContent { number: tag.number, content: Box::new(inner) })
            },
            DataItem::Byte(byte) => {
                if byte.is_indefinite() {
                    DataItem::Byte(ByteContent::from_vec(byte.full()))
                } else {
                    DataItem::Byte(byte)
                }
            },
            DataItem::Text(text) => {
                if text.is_indefinite() {
                    DataItem::Text(TextContent::from_string(text.full()))
                } else {
                    DataItem::Text(text)
                }
            },
            other => other,
        }
    }

    /// Whether the item is in the deterministic form of `mode`.
    pub fn is_deterministic(&self, mode: &DeterministicMode) -> (r: bool)
        ensures
            r == is_canonical(self@, *mode),
        decreases self@,
    {
        match self {
            DataItem::Mapping(map) => {
                if map.is_indefinite {
                    return false;
                }
                let count = map.map.len();
                let ghost entries = entries_of(map.map);
                let mut before: Vec<u8> = Vec::new();
                let mut i: usize = 0;
                while i < count
                    invariant
                        i <= count,
                        self@ == (Item::Mapping { indefinite: false, entries }),
                        entries == entries_of(map.map),
                        count == entries.len(),
                        i > 0 ==> before@ == encoding(entries[i - 1].0),
                        forall|j: int|
                            0 <= j < i - 1 ==> key_le(
                                #[trigger] entries[j].0,
                                entries[j + 1].0,
                                *mode,
                            ),
                        forall|j: int|
                            0 <= j < i ==> is_canonical((#[trigger] entries[j]).0, *mode)
                                && is_canonical(entries[j].1, *mode),
                    decreases count - i,
                {
                    proof {
                        map_entry_is_smaller(self@, i as int);
                    }
                    let (key, value) = map.map.entry_at(i);
                    if !key.is_deterministic(mode) || !value.is_deterministic(mode) {
                        assert(!(is_canonical(entries[i as int].0, *mode) && is_canonical(
                            entries[i as int].1,
                            *mode,
                        )));
                        return false;
                    }
                    let now = key.encode();
                    if i > 0 && !code_in_order(before.as_slice(), now.as_slice(), mode) {
                        assert(!key_le(entries[i - 1].0, entries[i as int].0, *mode));
                        return false;
                    }
                    before = now;
                    i += 1;
                }
                true
            },
            DataItem::Array(array) => {
                assert(self@ == Item::Array {
                    indefinite: array.is_indefinite,
                    items: models(array.array@),
                });
                if array.is_indefinite {
                    return false;
                }
                let ghost items = self@->items;
                let mut i: usize = 0;
                while i < array.array.len()
                    invariant
                        i <= array.array.len(),
                        self@ is Array,
                        items == self@->items,
                        items == models(array.array@),
                        forall|j: int| 0 <= j < i ==> is_canonical(#[trigger] items[j], *mode),
                    decreases array.array.len() - i,
                {
                    proof {
                        array_item_is_smaller(self@, i as int);
                    }
                    if !array.array[i].is_deterministic(mode) {
                        assert(!is_canonical(items[i as int], *mode));
                        return false;
                    }
                    i += 1;
                }
                true
            },
            DataItem::Tag(tag) => {
                proof {
                    tag_content_is_smaller(self@);
                }
                tag.content.is_deterministic(mode)
            },
            DataItem::Byte(byte) => !byte.is_indefinite(),
            DataItem::Text(text) => !text.is_indefinite(),
            _ => true,
        }
    }
}

} // verus!

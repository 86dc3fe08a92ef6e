//! The mathematical model of a CBOR data item, over which every contract of
//! the crate is stated.
use vstd::prelude::*;

verus! {

/// What a byte string holds: the chunks in wire order, and whether the string
/// is written in the indefinite-length form.
pub struct ByteView {
    pub indefinite: bool,
    pub chunks: Seq<Seq<u8>>,
}

/// What a text string holds: the chunks in wire order, and whether the string
/// is written in the indefinite-length form.
pub struct TextView {
    pub indefinite: bool,
    pub chunks: Seq<Seq<char>>,
}

/// A CBOR data item as a mathematical value.
#[allow(inconsistent_fields)]
pub enum Item {
    /// Major type 0.
    Unsigned(u64),
    /// Major type 1; the integer meant is `-1 - n`.
    Signed(u64),
    /// Major type 2.
    Byte { indefinite: bool, chunks: Seq<Seq<u8>> },
    /// Major type 3.
    Text { indefinite: bool, chunks: Seq<Seq<char>> },
    /// Major type 4.
    Array { indefinite: bool, items: Seq<Item> },
    /// Major type 5, entries in insertion order.
    Mapping { indefinite: bool, entries: Seq<(Item, Item)> },
    /// Major type 6.
    Tag { number: u64, content: Box<Item> },
    /// Simple values 20 and 21.
    Boolean(bool),
    /// Simple value 22.
    Null,
    /// Simple value 23.
    Undefined,
    /// A binary64 number, held as its IEEE 754 bit pattern.
    Floating(u64),
    /// Any other simple value.
    GenericSimple(u8),
}

/// The simple values that are neither reserved for booleans, null and
/// undefined (20 to 23) nor for the extension mechanics (24 to 31).
pub open spec fn legal_simple(n: u8) -> bool {
    n <= 19 || n >= 32
}

/// The major type of an item, a function of the variant alone.
pub open spec fn major_of(v: Item) -> u8 {
    match v {
        Item::Unsigned(_) => 0,
        Item::Signed(_) => 1,
        Item::Byte { .. } => 2,
        Item::Text { .. } => 3,
        Item::Array { .. } => 4,
        Item::Mapping { .. } => 5,
        Item::Tag { .. } => 6,
        _ => 7,
    }
}

/// Whether two items are equal when the order of the entries of a map is
/// left out of account: the equality by which a map tells its keys apart.
pub open spec fn alike(a: Item, b: Item) -> bool
    decreases a, 0nat,
{
    match a {
        Item::Array { indefinite, items } => match b {
            Item::Array { indefinite: other_indefinite, items: other_items } => indefinite
                == other_indefinite && items.len() == other_items.len() && forall|k: int|
                0 <= k < items.len() ==> alike(#[trigger] items[k], other_items[k]),
            _ => false,
        },
        Item::Mapping { indefinite, entries } => match b {
            Item::Mapping { indefinite: other_indefinite, entries: other_entries } => indefinite
                == other_indefinite && entries.len() == other_entries.len() && forall|k: int|
                0 <= k < entries.len() ==> {
                    let at = place_of(other_entries, (#[trigger] entries[k]).0);
                    at < other_entries.len() && alike(entries[k].1, other_entries[at].1)
                },
            _ => false,
        },
        Item::Tag { number, content } => match b {
            Item::Tag { number: other_number, content: other_content } => number == other_number
                && alike(*content, *other_content),
            _ => false,
        },
        _ => a == b,
    }
}

/// The place of the first entry of `entries` whose key is like `key`, or
/// the length of `entries` where there is none.
pub open spec fn place_of(entries: Seq<(Item, Item)>, key: Item) -> int
    decreases key, entries.len() + 1,
{
    if entries.len() == 0 {
        0
    } else if alike(key, entries.first().0) {
        0
    } else {
        1 + place_of(entries.drop_first(), key)
    }
}

/// A place is within the entries or just behind them.
pub proof fn place_is_bounded(entries: Seq<(Item, Item)>, key: Item)
    ensures
        0 <= place_of(entries, key) <= entries.len(),
        place_of(entries, key) < entries.len() ==> alike(key, entries[place_of(entries, key)].0),
    decreases entries.len(),
{
    if entries.len() > 0 && !alike(key, entries.first().0) {
        place_is_bounded(entries.drop_first(), key);
    }
}

/// Whether no key is like a key before it.
pub open spec fn fresh(s: Seq<(Item, Item)>) -> bool {
    forall|i: int| 0 <= i < s.len() ==> place_of(s.subrange(0, i), (#[trigger] s[i]).0) == i
}

/// Whether an item is one that decoding can yield: a definite string has
/// exactly one chunk, no map has a key like a key before it, every simple
/// value is legal, and every length fits the 64 bits of an argument.
pub open spec fn well_formed(v: Item) -> bool
    decreases v,
{
    match v {
        Item::Byte { indefinite, chunks } => (indefinite || chunks.len() == 1) && forall|i: int|
            0 <= i < chunks.len() ==> (#[trigger] chunks[i]).len() <= u64::MAX,
        Item::Text { indefinite, chunks } => (indefinite || chunks.len() == 1) && forall|i: int|
            0 <= i < chunks.len() ==> vstd::utf8::encode_utf8(#[trigger] chunks[i]).len()
                <= u64::MAX,
        Item::Array { indefinite, items } => (indefinite || items.len() <= u64::MAX)
            && forall|i: int| 0 <= i < items.len() ==> well_formed(#[trigger] items[i]),
        Item::Mapping { indefinite, entries } => (indefinite || entries.len() <= u64::MAX)
            && fresh(entries) && forall|i: int|
            0 <= i < entries.len() ==> well_formed((#[trigger] entries[i]).0) && well_formed(
                entries[i].1,
            ),
        Item::Tag { number, content } => well_formed(*content),
        Item::GenericSimple(n) => legal_simple(n),
        _ => true,
    }
}

/// An item of an array is smaller than the array.
pub proof fn array_item_is_smaller(v: Item, i: int)
    requires
        v is Array,
        0 <= i < v->items.len(),
    ensures
        decreases_to!(v => v->items[i]),
{
    assert(decreases_to!(v => v->items));
    assert(decreases_to!(v->items => v->items[i]));
}

/// A key and a value of a map are smaller than the map.
pub proof fn map_entry_is_smaller(v: Item, i: int)
    requires
        v is Mapping,
        0 <= i < v->entries.len(),
    ensures
        decreases_to!(v => v->entries[i].0),
        decreases_to!(v => v->entries[i].1),
{
    assert(decreases_to!(v => v->entries));
    assert(decreases_to!(v->entries => v->entries[i]));
    assert(decreases_to!(v->entries[i] => v->entries[i].0));
    assert(decreases_to!(v->entries[i] => v->entries[i].1));
}

/// The content of a tag is smaller than the tag.
pub proof fn tag_content_is_smaller(v: Item)
    requires
        v is Tag,
    ensures
        decreases_to!(v => *v->content),
{
    assert(decreases_to!(v => v->content));
}

} // verus!

//! The data item: one variant for each kind of value that the format knows.
use vstd::prelude::*;
use crate::content::{ArrayContent, ByteContent, MapContent, SimpleValue, TagContent, TextContent};
use crate::entry_map::entries_of;
use crate::model::Item;

verus! {

/// A CBOR data item.
#[derive(PartialEq, Eq, Hash, Debug)]
#[non_exhaustive]
pub enum DataItem {
    /// An unsigned integer, major type 0.
    Unsigned(u64),
    /// A negative integer, major type 1: `n` stands for `-1 - n`.
    Signed(u64),
    /// A byte string, major type 2.
    Byte(ByteContent),
    /// A text string, major type 3.
    Text(TextContent),
    /// An array of data items, major type 4.
    Array(ArrayContent),
    /// A map from data items to data items, major type 5.
    Mapping(MapContent),
    /// A tagged data item, major type 6.
    Tag(TagContent),
    /// A boolean, major type 7.
    Boolean(bool),
    /// Null, major type 7.
    Null,
    /// Undefined, major type 7.
    Undefined,
    /// A floating-point number of major type 7, held as the bit pattern of
    /// its IEEE 754 binary64 form.
    Floating(u64),
    /// Any other simple value of major type 7.
    GenericSimple(SimpleValue),
}

/// The mathematical value that a data item stands for.
pub open spec fn model(d: DataItem) -> Item
    decreases d,
{
    match d {
        DataItem::Unsigned(n) => Item::Unsigned(n),
        DataItem::Signed(n) => Item::Signed(n),
        DataItem::Byte(b) => Item::Byte { indefinite: b@.indefinite, chunks: b@.chunks },
        DataItem::Text(t) => Item::Text { indefinite: t@.indefinite, chunks: t@.chunks },
        DataItem::Array(a) => Item::Array { indefinite: a.is_indefinite, items: models(a.array@) },
        DataItem::Mapping(m) => Item::Mapping {
            indefinite: m.is_indefinite,
            entries: entries_of(m.map),
        },
        DataItem::Tag(t) => Item::Tag { number: t.number, content: Box::new(model(*t.content)) },
        DataItem::Boolean(b) => Item::Boolean(b),
        DataItem::Null => Item::Null,
        DataItem::Undefined => Item::Undefined,
        DataItem::Floating(bits) => Item::Floating(bits),
        DataItem::GenericSimple(s) => Item::GenericSimple(s@),
    }
}

/// The mathematical values of a sequence of data items, in order.
pub open spec fn models(a: Seq<DataItem>) -> Seq<Item>
    decreases a,
{
    Seq::new(
        a.len(),
        |i: int|
            if 0 <= i < a.len() {
                model(a[i])
            } else {
                Item::Null
            },
    )
}

impl View for DataItem {
    type V = Item;

    open spec fn view(&self) -> Item {
        model(*self)
    }
}

/// A fresh vector holding clones of the items of `source`.
pub fn copy_items(source: &Vec<DataItem>) -> (r: Vec<DataItem>)
    ensures
        models(r@) == models(source@),
    decreases source,
{
    let mut out: Vec<DataItem> = Vec::new();
    let mut i: usize = 0;
    while i < source.len()
        invariant
            i <= source.len(),
            out@.len() == i,
            forall|j: int| 0 <= j < i ==> model(out@[j]) == model(source@[j]),
        decreases source.len() - i,
    {
        let item = source[i].clone();
        out.push(item);
        i += 1;
    }
    assert(models(out@) =~= models(source@));
    out
}

impl Clone for DataItem {
    fn clone(&self) -> (r: Self)
        ensures
            r@ == self@,
        decreases self,
    {
        match self {
            DataItem::Unsigned(n) => DataItem::Unsigned(*n),
            DataItem::Signed(n) => DataItem::Signed(*n),
            DataItem::Byte(b) => DataItem::Byte(b.clone()),
            DataItem::Text(t) => DataItem::Text(t.clone()),
            DataItem::Array(a) => DataItem::Array(
                ArrayContent { is_indefinite: a.is_indefinite, array: copy_items(&a.array) },
            ),
            DataItem::Mapping(m) => DataItem::Mapping(
                MapContent { is_indefinite: m.is_indefinite, map: m.map.clone() },
            ),
            DataItem::Tag(t) => DataItem::Tag(
                TagContent { number: t.number, content: Box::new((*t.content).clone()) },
            ),
            DataItem::Boolean(b) => DataItem::Boolean(*b),
            DataItem::Null => DataItem::Null,
            DataItem::Undefined => DataItem::Undefined,
            DataItem::Floating(bits) => DataItem::Floating(*bits),
            DataItem::GenericSimple(s) => DataItem::GenericSimple(*s),
        }
    }
}

} // verus!

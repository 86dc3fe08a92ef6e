//! Data items and their contents from plain values.
use vstd::prelude::*;
use indexmap::IndexMap;
use std::num::TryFromIntError;
use std::string::FromUtf8Error;
use crate::content::{ArrayContent, ByteContent, MapContent, SimpleValue, TagContent, TextContent};
use crate::data_item::{models, DataItem};
use crate::deterministic::{pairs, rebuilt, table_of};
use crate::entry_map::{held_by, EntryMap};
use crate::model::{ByteView, Item, TextView};

verus! {

impl vstd::std_specs::convert::FromSpecImpl<u64> for DataItem {
    open spec fn obeys_from_spec() -> bool {
        true
    }

    open spec fn from_spec(v: u64) -> Self {
        DataItem::Unsigned(v)
    }
}

impl From<u64> for DataItem {
    /// The unsigned integer `value`.
    fn from(value: u64) -> (r: Self)
        ensures
            r@ == Item::Unsigned(value as u64),
    {
        DataItem::Unsigned(value)
    }
}

impl vstd::std_specs::convert::FromSpecImpl<u32> for DataItem {
    open spec fn obeys_from_spec() -> bool {
        true
    }

    open spec fn from_spec(v: u32) -> Self {
        DataItem::Unsigned(v as u64)
    }
}

impl From<u32> for DataItem {
    /// The unsigned integer `value`.
    fn from(value: u32) -> (r: Self)
        ensures
            r@ == Item::Unsigned(value as u64),
    {
        DataItem::Unsigned(value as u64)
    }
}

impl vstd::std_specs::convert::FromSpecImpl<u16> for DataItem {
    open spec fn obeys_from_spec() -> bool {
        true
    }

    open spec fn from_spec(v: u16) -> Self {
        DataItem::Unsigned(v as u64)
    }
}

impl From<u16> for DataItem {
    /// The unsigned integer `value`.
    fn from(value: u16) -> (r: Self)
        ensures
            r@ == Item::Unsigned(value as u64),
    {
        DataItem::Unsigned(value as u64)
    }
}

impl vstd::std_specs::convert::FromSpecImpl<u8> for DataItem {
    open spec fn obeys_from_spec() -> bool {
        true
    }

    open spec fn from_spec(v: u8) -> Self {
        DataItem::Unsigned(v as u64)
    }
}

impl From<u8> for DataItem {
    /// The unsigned integer `value`.
    fn from(value: u8) -> (r: Self)
        ensures
            r@ == Item::Unsigned(value as u64),
    {
        DataItem::Unsigned(value as u64)
    }
}

impl vstd::std_specs::convert::FromSpecImpl<i64> for DataItem {
    open spec fn obeys_from_spec() -> bool {
        true
    }

    open spec fn from_spec(v: i64) -> Self {
        if v < 0 {
            DataItem::Signed((-1 - v) as u64)
        } else {
            DataItem::Unsigned(v as u64)
        }
    }
}

impl From<i64> for DataItem {
    /// The integer `value`: unsigned where it is not negative, else the
    /// negative integer that holds `-1 - value`.
    fn from(value: i64) -> (r: Self)
        ensures
            r@ == (if value < 0 {
                Item::Signed((-1 - value) as u64)
            } else {
                Item::Unsigned(value as u64)
            }),
    {
        if value < 0 {
            DataItem::Signed((-(value as i128 + 1)) as u64)
        } else {
            DataItem::Unsigned(value as u64)
        }
    }
}

impl vstd::std_specs::convert::FromSpecImpl<i32> for DataItem {
    open spec fn obeys_from_spec() -> bool {
        true
    }

    open spec fn from_spec(v: i32) -> Self {
        if v < 0 {
            DataItem::Signed((-1 - v) as u64)
        } else {
            DataItem::Unsigned(v as u64)
        }
    }
}

impl From<i32> for DataItem {
    /// The integer `value`: unsigned where it is not negative, else the
    /// negative integer that holds `-1 - value`.
    fn from(value: i32) -> (r: Self)
        ensures
            r@ == (if value < 0 {
                Item::Signed((-1 - value) as u64)
            } else {
                Item::Unsigned(value as u64)
            }),
    {
        if value < 0 {
            DataItem::Signed((-(value as i128 + 1)) as u64)
        } else {
            DataItem::Unsigned(value as u64)
        }
    }
}

impl vstd::std_specs::convert::FromSpecImpl<i16> for DataItem {
    open spec fn obeys_from_spec() -> bool {
        true
    }

    open spec fn from_spec(v: i16) -> Self {
        if v < 0 {
            DataItem::Signed((-1 - v) as u64)
        } else {
            DataItem::Unsigned(v as u64)
        }
    }
}

impl From<i16> for DataItem {
    /// The integer `value`: unsigned where it is not negative, else the
    /// negative integer that holds `-1 - value`.
    fn from(value: i16) -> (r: Self)
        ensures
            r@ == (if value < 0 {
                Item::Signed((-1 - value) as u64)
            } else {
                Item::Unsigned(value as u64)
            }),
    {
        if value < 0 {
            DataItem::Signed((-(value as i128 + 1)) as u64)
        } else {
            DataItem::Unsigned(value as u64)
        }
    }
}

impl vstd::std_specs::convert::FromSpecImpl<i8> for DataItem {
    open spec fn obeys_from_spec() -> bool {
        true
    }

    open spec fn from_spec(v: i8) -> Self {
        if v < 0 {
            DataItem::Signed((-1 - v) as u64)
        } else {
            DataItem::Unsigned(v as u64)
        }
    }
}

impl From<i8> for DataItem {
    /// The integer `value`: unsigned where it is not negative, else the
    /// negative integer that holds `-1 - value`.
    fn from(value: i8) -> (r: Self)
        ensures
            r@ == (if value < 0 {
                Item::Signed((-1 - value) as u64)
            } else {
                Item::Unsigned(value as u64)
            }),
    {
        if value < 0 {
            DataItem::Signed((-(value as i128 + 1)) as u64)
        } else {
            DataItem::Unsigned(value as u64)
        }
    }
}

impl vstd::std_specs::convert::FromSpecImpl<&[u8]> for DataItem {
    open spec fn obeys_from_spec() -> bool {
        false
    }

    open spec fn from_spec(v: &[u8]) -> Self {
        arbitrary()
    }
}

impl From<&[u8]> for DataItem {
    /// The definite byte string of the bytes `value`.
    fn from(value: &[u8]) -> (r: Self)
        ensures
            r@ == (Item::Byte { indefinite: false, chunks: seq![value@] }),
    {
        DataItem::Byte(ByteContent::from_vec(crate::content::copy_bytes(value)))
    }
}

impl vstd::std_specs::convert::FromSpecImpl<String> for DataItem {
    open spec fn obeys_from_spec() -> bool {
        false
    }

    open spec fn from_spec(v: String) -> Self {
        arbitrary()
    }
}

impl From<String> for DataItem {
    /// The definite text string `value`.
    fn from(value: String) -> (r: Self)
        ensures
            r@ == (Item::Text { indefinite: false, chunks: seq![value@] }),
    {
        DataItem::Text(TextContent::from_string(value))
    }
}

impl vstd::std_specs::convert::FromSpecImpl<&str> for DataItem {
    open spec fn obeys_from_spec() -> bool {
        false
    }

    open spec fn from_spec(v: &str) -> Self {
        arbitrary()
    }
}

impl From<&str> for DataItem {
    /// The definite text string `value`.
    fn from(value: &str) -> (r: Self)
        ensures
            r@ == (Item::Text { indefinite: false, chunks: seq![value@] }),
    {
        DataItem::Text(TextContent::from_string(value.to_owned()))
    }
}

impl vstd::std_specs::convert::FromSpecImpl<bool> for DataItem {
    open spec fn obeys_from_spec() -> bool {
        true
    }

    open spec fn from_spec(v: bool) -> Self {
        DataItem::Boolean(v)
    }
}

impl From<bool> for DataItem {
    /// The boolean `value`.
    fn from(value: bool) -> (r: Self)
        ensures
            r@ == Item::Boolean(value),
    {
        DataItem::Boolean(value)
    }
}

impl vstd::std_specs::convert::FromSpecImpl<ArrayContent> for DataItem {
    open spec fn obeys_from_spec() -> bool {
        true
    }

    open spec fn from_spec(v: ArrayContent) -> Self {
        DataItem::Array(v)
    }
}

impl From<ArrayContent> for DataItem {
    /// The array of the content `value`.
    fn from(value: ArrayContent) -> (r: Self)
        ensures
            r@ == (Item::Array { indefinite: value.is_indefinite, items: models(value.array@) }),
    {
        DataItem::Array(value)
    }
}

impl vstd::std_specs::convert::FromSpecImpl<MapContent> for DataItem {
    open spec fn obeys_from_spec() -> bool {
        true
    }

    open spec fn from_spec(v: MapContent) -> Self {
        DataItem::Mapping(v)
    }
}

impl From<MapContent> for DataItem {
    /// The map of the content `value`.
    fn from(value: MapContent) -> (r: Self)
        ensures
            r@ == (Item::Mapping {
                indefinite: value.is_indefinite,
                entries: crate::entry_map::entries_of(value.map),
            }),
    {
        DataItem::Mapping(value)
    }
}

impl vstd::std_specs::convert::FromSpecImpl<TagContent> for DataItem {
    open spec fn obeys_from_spec() -> bool {
        true
    }

    open spec fn from_spec(v: TagContent) -> Self {
        DataItem::Tag(v)
    }
}

impl From<TagContent> for DataItem {
    /// The tag of the content `value`.
    fn from(value: TagContent) -> (r: Self)
        ensures
            r@ == (Item::Tag { number: value.number, content: Box::new(value.content@) }),
    {
        DataItem::Tag(value)
    }
}

impl vstd::std_specs::convert::FromSpecImpl<SimpleValue> for DataItem {
    open spec fn obeys_from_spec() -> bool {
        true
    }

    open spec fn from_spec(v: SimpleValue) -> Self {
        DataItem::GenericSimple(v)
    }
}

impl From<SimpleValue> for DataItem {
    /// The simple value `value`.
    fn from(value: SimpleValue) -> (r: Self)
        ensures
            r@ == Item::GenericSimple(value@),
    {
        DataItem::GenericSimple(value)
    }
}

impl vstd::std_specs::convert::FromSpecImpl<Vec<DataItem>> for DataItem {
    open spec fn obeys_from_spec() -> bool {
        true
    }

    open spec fn from_spec(v: Vec<DataItem>) -> Self {
        DataItem::Array(ArrayContent { is_indefinite: false, array: v })
    }
}

impl From<Vec<DataItem>> for DataItem {
    /// The definite array of the items `value`.
    fn from(value: Vec<DataItem>) -> (r: Self)
        ensures
            r@ == (Item::Array { indefinite: false, items: models(value@) }),
    {
        DataItem::Array(ArrayContent { is_indefinite: false, array: value })
    }
}

impl vstd::std_specs::convert::FromSpecImpl<IndexMap<DataItem, DataItem>> for DataItem {
    open spec fn obeys_from_spec() -> bool {
        false
    }

    open spec fn from_spec(v: IndexMap<DataItem, DataItem>) -> Self {
        arbitrary()
    }
}

impl From<IndexMap<DataItem, DataItem>> for DataItem {
    /// The definite map of the entries that `value` holds.
    fn from(value: IndexMap<DataItem, DataItem>) -> (r: Self)
        ensures
            r@ == (Item::Mapping { indefinite: false, entries: held_by(value) }),
    {
        DataItem::Mapping(MapContent { is_indefinite: false, map: EntryMap::from_index_map(value) })
    }
}

impl vstd::std_specs::convert::FromSpecImpl<Vec<(DataItem, DataItem)>> for DataItem {
    open spec fn obeys_from_spec() -> bool {
        false
    }

    open spec fn from_spec(v: Vec<(DataItem, DataItem)>) -> Self {
        arbitrary()
    }
}

impl From<Vec<(DataItem, DataItem)>> for DataItem {
    /// The definite map of the entries `value`, inserted one by one: of
    /// entries with equal keys the first keeps its place and takes the value
    /// of the last.
    fn from(value: Vec<(DataItem, DataItem)>) -> (r: Self)
        ensures
            r@ == (Item::Mapping { indefinite: false, entries: rebuilt(pairs(value@)) }),
    {
        DataItem::Mapping(MapContent { is_indefinite: false, map: table_of(&value) })
    }
}

impl vstd::std_specs::convert::FromSpecImpl<Vec<u8>> for ByteContent {
    open spec fn obeys_from_spec() -> bool {
        false
    }

    open spec fn from_spec(v: Vec<u8>) -> Self {
        arbitrary()
    }
}

impl From<Vec<u8>> for ByteContent {
    /// Definite content of the one chunk `value`.
    fn from(value: Vec<u8>) -> (r: Self)
        ensures
            r@ == (ByteView { indefinite: false, chunks: seq![value@] }),
    {
        ByteContent::from_vec(value)
    }
}

impl vstd::std_specs::convert::FromSpecImpl<TextContent> for ByteContent {
    open spec fn obeys_from_spec() -> bool {
        false
    }

    open spec fn from_spec(v: TextContent) -> Self {
        arbitrary()
    }
}

impl From<TextContent> for ByteContent {
    /// The chunks of `value` as bytes, each text chunk in UTF-8.
    fn from(value: TextContent) -> (r: Self)
        ensures
            r@.indefinite == value@.indefinite,
            r@.chunks == crate::content::utf8_chunks(value@.chunks),
    {
        ByteContent::from_text(&value)
    }
}

impl vstd::std_specs::convert::FromSpecImpl<String> for TextContent {
    open spec fn obeys_from_spec() -> bool {
        false
    }

    open spec fn from_spec(v: String) -> Self {
        arbitrary()
    }
}

impl From<String> for TextContent {
    /// Definite content of the one chunk `value`.
    fn from(value: String) -> (r: Self)
        ensures
            r@ == (TextView { indefinite: false, chunks: seq![value@] }),
    {
        TextContent::from_string(value)
    }
}

impl vstd::std_specs::convert::FromSpecImpl<&str> for TextContent {
    open spec fn obeys_from_spec() -> bool {
        false
    }

    open spec fn from_spec(v: &str) -> Self {
        arbitrary()
    }
}

impl From<&str> for TextContent {
    /// Definite content of the one chunk `value`.
    fn from(value: &str) -> (r: Self)
        ensures
            r@ == (TextView { indefinite: false, chunks: seq![value@] }),
    {
        TextContent::from_string(value.to_owned())
    }
}

impl vstd::std_specs::convert::FromSpecImpl<Vec<DataItem>> for ArrayContent {
    open spec fn obeys_from_spec() -> bool {
        true
    }

    open spec fn from_spec(v: Vec<DataItem>) -> Self {
        ArrayContent { is_indefinite: false, array: v }
    }
}

impl From<Vec<DataItem>> for ArrayContent {
    /// The definite array content of the items `value`.
    fn from(value: Vec<DataItem>) -> (r: Self)
        ensures
            !r.is_indefinite,
            r.array == value,
    {
        ArrayContent { is_indefinite: false, array: value }
    }
}

impl vstd::std_specs::convert::FromSpecImpl<IndexMap<DataItem, DataItem>> for MapContent {
    open spec fn obeys_from_spec() -> bool {
        false
    }

    open spec fn from_spec(v: IndexMap<DataItem, DataItem>) -> Self {
        arbitrary()
    }
}

impl From<IndexMap<DataItem, DataItem>> for MapContent {
    /// The definite map content of the entries that `value` holds.
    fn from(value: IndexMap<DataItem, DataItem>) -> (r: Self)
        ensures
            !r.is_indefinite,
            crate::entry_map::entries_of(r.map) == held_by(value),
    {
        MapContent { is_indefinite: false, map: EntryMap::from_index_map(value) }
    }
}

impl vstd::std_specs::convert::FromSpecImpl<(u64, DataItem)> for TagContent {
    open spec fn obeys_from_spec() -> bool {
        true
    }

    open spec fn from_spec(v: (u64, DataItem)) -> Self {
        TagContent { number: v.0, content: Box::new(v.1) }
    }
}

impl From<(u64, DataItem)> for TagContent {
    /// The tag content of the number and the item of `value`.
    fn from(value: (u64, DataItem)) -> (r: Self)
        ensures
            r.number == value.0,
            *r.content == value.1,
    {
        TagContent { number: value.0, content: Box::new(value.1) }
    }
}

impl vstd::std_specs::convert::TryFromSpecImpl<ByteContent> for TextContent {
    open spec fn obeys_try_from_spec() -> bool {
        false
    }

    open spec fn try_from_spec(v: ByteContent) -> Result<Self, FromUtf8Error> {
        arbitrary()
    }
}

impl TryFrom<ByteContent> for TextContent {
    type Error = FromUtf8Error;

    /// The chunks of `value` as text, where each of them is UTF-8.
    fn try_from(value: ByteContent) -> (r: Result<Self, FromUtf8Error>)
        ensures
            match r {
                Ok(t) => crate::grammar::all_utf8(value@.chunks) && t@ == (TextView {
                    indefinite: value@.indefinite,
                    chunks: crate::grammar::texts_of(value@.chunks),
                }),
                Err(_) => !crate::grammar::all_utf8(value@.chunks),
            },
    {
        TextContent::try_from_bytes(&value)
    }
}

impl vstd::std_specs::convert::TryFromSpecImpl<u128> for DataItem {
    open spec fn obeys_try_from_spec() -> bool {
        false
    }

    open spec fn try_from_spec(v: u128) -> Result<Self, TryFromIntError> {
        arbitrary()
    }
}

impl TryFrom<u128> for DataItem {
    type Error = TryFromIntError;

    /// The unsigned integer `value`, where 64 bits hold it.
    fn try_from(value: u128) -> (r: Result<Self, TryFromIntError>)
        ensures
            value <= u64::MAX ==> r is Ok && r->Ok_0@ == Item::Unsigned(value as u64),
            value > u64::MAX ==> r is Err,
    {
        match u64::try_from(value) {
            Ok(n) => Ok(DataItem::Unsigned(n)),
            Err(e) => Err(e),
        }
    }
}

impl vstd::std_specs::convert::TryFromSpecImpl<i128> for DataItem {
    open spec fn obeys_try_from_spec() -> bool {
        false
    }

    open spec fn try_from_spec(v: i128) -> Result<Self, TryFromIntError> {
        arbitrary()
    }
}

impl TryFrom<i128> for DataItem {
    type Error = TryFromIntError;

    /// The integer `value`: unsigned where it is not negative, else the
    /// negative integer that holds `-1 - value`; where 64 bits hold it.
    fn try_from(value: i128) -> (r: Result<Self, TryFromIntError>)
        ensures
            0 <= value <= u64::MAX ==> r is Ok && r->Ok_0@ == Item::Unsigned(value as u64),
            -1 - u64::MAX <= value < 0 ==> r is Ok && r->Ok_0@ == Item::Signed((-1 - value) as u64),
            (value > u64::MAX || value < -1 - u64::MAX) ==> r is Err,
    {
        if value < 0 {
            match u64::try_from(-(value + 1)) {
                Ok(n) => Ok(DataItem::Signed(n)),
                Err(e) => Err(e),
            }
        } else {
            match u64::try_from(value) {
                Ok(n) => Ok(DataItem::Unsigned(n)),
                Err(e) => Err(e),
            }
        }
    }
}

} // verus!

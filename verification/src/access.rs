//! What kind of item a data item is, and what it holds.
use vstd::prelude::*;
use indexmap::IndexMap;
use crate::content::joined;
use crate::data_item::{models, DataItem};
use crate::entry_map::held_by;
use crate::model::{major_of, Item};

verus! {

/// The item under all the tags of an item.
pub open spec fn innermost(d: DataItem) -> DataItem
    decreases d,
{
    match d {
        DataItem::Tag(t) => innermost(*t.content),
        _ => d,
    }
}

/// The numbers of the tags round an item, the outermost first.
pub open spec fn tag_numbers(d: DataItem) -> Seq<u64>
    decreases d,
{
    match d {
        DataItem::Tag(t) => seq![t.number] + tag_numbers(*t.content),
        _ => Seq::empty(),
    }
}

/// The simple value that an item of major type 7 stands for, if it is one.
pub open spec fn simple_of(v: Item) -> Option<u8> {
    match v {
        Item::GenericSimple(n) => Some(n),
        Item::Boolean(false) => Some(20u8),
        Item::Boolean(true) => Some(21u8),
        Item::Null => Some(22u8),
        Item::Undefined => Some(23u8),
        _ => None,
    }
}

/// What `extractor` takes from the item under all the tags of `item`, the
/// numbers of those tags being put behind `tags`, the outermost first.
fn extract_and_extend_tags<T, F: Fn(&DataItem) -> Option<T>>(
    item: &DataItem,
    extractor: F,
    tags: &mut Vec<u64>,
) -> (r: Option<T>)
    requires
        call_requires(extractor, (&innermost(*item),)),
    ensures
        final(tags)@ == old(tags)@ + tag_numbers(*item),
        call_ensures(extractor, (&innermost(*item),), r),
    decreases item,
{
    match item {
        DataItem::Tag(tag) => {
            tags.push(tag.number);
            let r = extract_and_extend_tags(&*tag.content, extractor, tags);
            assert(tags@ =~= old(tags)@ + tag_numbers(*item));
            r
        },
        _ => {
            assert(tags@ =~= old(tags)@ + tag_numbers(*item));
            extractor(item)
        },
    }
}

impl DataItem {
    /// Whether the item is an unsigned integer.
    pub fn is_unsigned_integer(&self) -> (r: bool)
        ensures
            r == (self@ is Unsigned),
    {
        matches!(self, DataItem::Unsigned(_))
    }

    /// Whether the item is a negative integer.
    pub fn is_signed_integer(&self) -> (r: bool)
        ensures
            r == (self@ is Signed),
    {
        matches!(self, DataItem::Signed(_))
    }

    /// Whether the item is an integer of either sign.
    pub fn is_integer(&self) -> (r: bool)
        ensures
            r == (self@ is Unsigned || self@ is Signed),
    {
        matches!(self, DataItem::Unsigned(_) | DataItem::Signed(_))
    }

    /// Whether the item is a byte string.
    pub fn is_byte(&self) -> (r: bool)
        ensures
            r == (self@ is Byte),
    {
        matches!(self, DataItem::Byte(_))
    }

    /// Whether the item is a text string.
    pub fn is_text(&self) -> (r: bool)
        ensures
            r == (self@ is Text),
    {
        matches!(self, DataItem::Text(_))
    }

    /// Whether the item is an array.
    pub fn is_array(&self) -> (r: bool)
        ensures
            r == (self@ is Array),
    {
        matches!(self, DataItem::Array(_))
    }

    /// Whether the item is a map.
    pub fn is_map(&self) -> (r: bool)
        ensures
            r == (self@ is Mapping),
    {
        matches!(self, DataItem::Mapping(_))
    }

    /// Whether the item is a tag.
    pub fn is_tag(&self) -> (r: bool)
        ensures
            r == (self@ is Tag),
    {
        matches!(self, DataItem::Tag(_))
    }

    /// Whether the item is a boolean.
    pub fn is_boolean(&self) -> (r: bool)
        ensures
            r == (self@ is Boolean),
    {
        matches!(self, DataItem::Boolean(_))
    }

    /// Whether the item is null.
    pub fn is_null(&self) -> (r: bool)
        ensures
            r == (self@ is Null),
    {
        matches!(self, DataItem::Null)
    }

    /// Whether the item is undefined.
    pub fn is_undefined(&self) -> (r: bool)
        ensures
            r == (self@ is Undefined),
    {
        matches!(self, DataItem::Undefined)
    }

    /// Whether the item is a floating-point number.
    pub fn is_floating(&self) -> (r: bool)
        ensures
            r == (self@ is Floating),
    {
        matches!(self, DataItem::Floating(_))
    }

    /// Whether the item is a simple value: a boolean, null, undefined or
    /// any other.
    pub fn is_simple(&self) -> (r: bool)
        ensures
            r == simple_of(self@).is_some(),
    {
        matches!(
            self,
            DataItem::GenericSimple(_) | DataItem::Boolean(_) | DataItem::Null
                | DataItem::Undefined
        )
    }

    /// Whether the item is a simple value other than a boolean, null and
    /// undefined.
    pub fn is_generic_simple(&self) -> (r: bool)
        ensures
            r == (self@ is GenericSimple),
    {
        matches!(self, DataItem::GenericSimple(_))
    }

    /// What `predicate` says of the item under all the tags.
    pub fn check_inner<F: Fn(&DataItem) -> bool>(&self, predicate: F) -> (r: bool)
        requires
            call_requires(predicate, (&innermost(*self),)),
        ensures
            call_ensures(predicate, (&innermost(*self),), r),
        decreases self,
    {
        match self {
            DataItem::Tag(tag) => tag.content.check_inner(predicate),
            _ => predicate(self),
        }
    }

    /// The unsigned integer that the item is.
    pub fn as_unsigned(&self) -> (r: Option<u64>)
        ensures
            r == (match self@ {
                Item::Unsigned(n) => Some(n),
                _ => None,
            }),
    {
        match self {
            DataItem::Unsigned(num) => Some(*num),
            _ => None,
        }
    }

    /// The negative integer that the item is: `-1 - n`, which 128 bits
    /// always hold.
    pub fn as_signed(&self) -> (r: Option<i128>)
        ensures
            match self@ {
                Item::Signed(n) => r is Some && r->Some_0 == -1 - n,
                _ => r is None,
            },
    {
        match self {
            DataItem::Signed(num) => Some(-1 - (*num as i128)),
            _ => None,
        }
    }

    /// The integer that the item is, of either sign.
    pub fn as_number(&self) -> (r: Option<i128>)
        ensures
            match self@ {
                Item::Unsigned(n) => r is Some && r->Some_0 == n,
                Item::Signed(n) => r is Some && r->Some_0 == -1 - n,
                _ => r is None,
            },
    {
        match self {
            DataItem::Unsigned(num) => Some(*num as i128),
            DataItem::Signed(num) => Some(-1 - (*num as i128)),
            _ => None,
        }
    }

    /// All the bytes of the byte string that the item is.
    pub fn as_byte(&self) -> (r: Option<Vec<u8>>)
        ensures
            match self@ {
                Item::Byte { indefinite, chunks } => r is Some && r->Some_0@ == joined(chunks),
                _ => r is None,
            },
    {
        match self {
            DataItem::Byte(byte) => Some(byte.full()),
            _ => None,
        }
    }

    /// All the text of the text string that the item is.
    pub fn as_text(&self) -> (r: Option<String>)
        ensures
            match self@ {
                Item::Text { indefinite, chunks } => r is Some && r->Some_0@ == joined(chunks),
                _ => r is None,
            },
    {
        match self {
            DataItem::Text(text_content) => Some(text_content.full()),
            _ => None,
        }
    }

    /// The items of the array that the item is.
    pub fn as_array(&self) -> (r: Option<&[DataItem]>)
        ensures
            match self@ {
                Item::Array { indefinite, items } => r is Some && models(r->Some_0@) == items,
                _ => r is None,
            },
    {
        match self {
            DataItem::Array(arr) => Some(arr.array.as_slice()),
            _ => None,
        }
    }

    /// The entries of the map that the item is.
    pub fn as_map(&self) -> (r: Option<&IndexMap<DataItem, DataItem>>)
        ensures
            match self@ {
                Item::Mapping { indefinite, entries } => r is Some && held_by(*r->Some_0)
                    == entries,
                _ => r is None,
            },
    {
        match self {
            DataItem::Mapping(map) => Some(map.map.as_index_map()),
            _ => None,
        }
    }

    /// The number and the content of the tag that the item is.
    pub fn as_tag(&self) -> (r: Option<(u64, &DataItem)>)
        ensures
            match self@ {
                Item::Tag { number, content } => r is Some && r->Some_0.0 == number
                    && r->Some_0.1@ == *content,
                _ => r is None,
            },
    {
        match self {
            DataItem::Tag(tag_content) => Some((tag_content.number, &*tag_content.content)),
            _ => None,
        }
    }

    /// The boolean that the item is.
    pub fn as_boolean(&self) -> (r: Option<bool>)
        ensures
            r == (match self@ {
                Item::Boolean(b) => Some(b),
                _ => None,
            }),
    {
        match self {
            DataItem::Boolean(bool_val) => Some(*bool_val),
            _ => None,
        }
    }

    /// The floating-point number that the item is, as its binary64 bit
    /// pattern.
    pub fn as_floating(&self) -> (r: Option<u64>)
        ensures
            r == (match self@ {
                Item::Floating(bits) => Some(bits),
                _ => None,
            }),
    {
        match self {
            DataItem::Floating(num) => Some(*num),
            _ => None,
        }
    }

    /// The number of the simple value that the item is.
    pub fn as_simple(&self) -> (r: Option<u8>)
        ensures
            r == simple_of(self@),
    {
        match self {
            DataItem::GenericSimple(num) => Some(num.val()),
            DataItem::Boolean(false) => Some(20),
            DataItem::Boolean(true) => Some(21),
            DataItem::Null => Some(22),
            DataItem::Undefined => Some(23),
            _ => None,
        }
    }

    /// What `extractor` takes from the item under all the tags, with the
    /// numbers of those tags, the outermost first.
    pub fn as_inner<T, F: Fn(&DataItem) -> Option<T>>(&self, extractor: F) -> (r: Option<
        (Vec<u64>, T),
    >)
        requires
            call_requires(extractor, (&innermost(*self),)),
        ensures
            match r {
                Some((tags, value)) => tags@ == tag_numbers(*self) && call_ensures(
                    extractor,
                    (&innermost(*self),),
                    Some(value),
                ),
                None => call_ensures(extractor, (&innermost(*self),), None::<T>),
            },
    {
        let mut tags: Vec<u64> = Vec::new();
        match extract_and_extend_tags(self, extractor, &mut tags) {
            Some(value) => Some((tags, value)),
            None => None,
        }
    }

    /// The major type of the item, from 0 to 7.
    pub fn major_type(&self) -> (r: u8)
        ensures
            r == major_of(self@),
            r <= 7,
    {
        match self {
            DataItem::Unsigned(_) => 0,
            DataItem::Signed(_) => 1,
            DataItem::Byte(_) => 2,
            DataItem::Text(_) => 3,
            DataItem::Array(_) => 4,
            DataItem::Mapping(_) => 5,
            DataItem::Tag(..) => 6,
            DataItem::Boolean(_)
            | DataItem::Null
            | DataItem::Undefined
            | DataItem::Floating(_)
            | DataItem::GenericSimple(_) => 7,
        }
    }
}

} // verus!

//! Containers for the payload of byte strings, text strings, arrays, maps
//! and tags, and the validated simple value.
use vstd::prelude::*;
use vstd::string::StringExecFns;
use indexmap::IndexMap;
use crate::data_item::{copy_items, model, models, DataItem};
use crate::entry_map::{entries_of, held_by, EntryMap};
use crate::error::Error;
use std::string::FromUtf8Error;
use crate::model::{legal_simple, ByteView, Item, TextView};

verus! {

/// The views of the vectors of a sequence, in order.
pub open spec fn blobs(v: Seq<Vec<u8>>) -> Seq<Seq<u8>> {
    Seq::new(v.len(), |i: int| v[i]@)
}

/// The views of the strings of a sequence, in order.
pub open spec fn texts(v: Seq<String>) -> Seq<Seq<char>> {
    Seq::new(v.len(), |i: int| v[i]@)
}

/// A fresh vector holding the bytes of `source`.
pub fn copy_bytes(source: &[u8]) -> (r: Vec<u8>)
    ensures
        r@ == source@,
{
    let mut out: Vec<u8> = Vec::new();
    let mut i: usize = 0;
    while i < source.len()
        invariant
            i <= source.len(),
            out@ == source@.subrange(0, i as int),
        decreases source.len() - i,
    {
        out.push(source[i]);
        assert(source@.subrange(0, i + 1) =~= source@.subrange(0, i as int).push(
            source@[i as int],
        ));
        i += 1;
    }
    assert(source@.subrange(0, source@.len() as int) =~= source@);
    out
}

/// A fresh vector of fresh vectors holding the chunks of `source`.
pub fn copy_chunks(source: &[Vec<u8>]) -> (r: Vec<Vec<u8>>)
    ensures
        blobs(r@) == blobs(source@),
{
    let mut out: Vec<Vec<u8>> = Vec::new();
    let mut i: usize = 0;
    while i < source.len()
        invariant
            i <= source.len(),
            out@.len() == i,
            forall|j: int| 0 <= j < i ==> out@[j]@ == source@[j]@,
        decreases source.len() - i,
    {
        out.push(copy_bytes(source[i].as_slice()));
        i += 1;
    }
    assert(blobs(out@) =~= blobs(source@));
    out
}

/// A fresh vector of fresh strings holding the chunks of `source`.
pub fn copy_texts(source: &[String]) -> (r: Vec<String>)
    ensures
        texts(r@) == texts(source@),
{
    let mut out: Vec<String> = Vec::new();
    let mut i: usize = 0;
    while i < source.len()
        invariant
            i <= source.len(),
            out@.len() == i,
            forall|j: int| 0 <= j < i ==> out@[j]@ == source@[j]@,
        decreases source.len() - i,
    {
        out.push(source[i].clone());
        i += 1;
    }
    assert(texts(out@) =~= texts(source@));
    out
}

/// The payload of a byte string: its chunks as they stand on the wire.
#[derive(PartialEq, Eq, PartialOrd, Hash, Debug)]
pub struct ByteContent {
    pub(crate) is_indefinite: bool,
    pub(crate) bytes: Vec<Vec<u8>>,
}

impl View for ByteContent {
    type V = ByteView;

    closed spec fn view(&self) -> ByteView {
        ByteView { indefinite: self.is_indefinite, chunks: blobs(self.bytes@) }
    }
}

impl Default for ByteContent {
    /// Definite content without any chunk.
    fn default() -> (r: Self)
        ensures
            r@ == (ByteView { indefinite: false, chunks: Seq::<Seq<u8>>::empty() }),
    {
        let r = ByteContent { is_indefinite: false, bytes: Vec::new() };
        assert(blobs(r.bytes@) =~= Seq::<Seq<u8>>::empty());
        r
    }
}

impl Clone for ByteContent {
    fn clone(&self) -> (r: Self)
        ensures
            r@ == self@,
    {
        ByteContent { is_indefinite: self.is_indefinite, bytes: copy_chunks(self.bytes.as_slice()) }
    }
}

impl ByteContent {
    /// Definite content of the one chunk `value`.
    pub fn from_vec(value: Vec<u8>) -> (r: Self)
        ensures
            r@ == (ByteView { indefinite: false, chunks: seq![value@] }),
    {
        let mut chunks: Vec<Vec<u8>> = Vec::new();
        chunks.push(value);
        assert(blobs(chunks@) =~= seq![value@]);
        ByteContent { is_indefinite: false, bytes: chunks }
    }

    /// Content of the chunks `chunks`, in order.
    pub fn from_chunks(indefinite: bool, chunks: Vec<Vec<u8>>) -> (r: Self)
        ensures
            r@ == (ByteView { indefinite, chunks: blobs(chunks@) }),
    {
        ByteContent { is_indefinite: indefinite, bytes: chunks }
    }

    /// The chunks of `value` as bytes, each text chunk in UTF-8.
    pub fn from_text(value: &TextContent) -> (r: Self)
        ensures
            r@.indefinite == value@.indefinite,
            r@.chunks == utf8_chunks(value@.chunks),
    {
        let mut chunks: Vec<Vec<u8>> = Vec::new();
        let mut i: usize = 0;
        while i < value.strings.len()
            invariant
                i <= value.strings.len(),
                chunks@.len() == i,
                forall|j: int|
                    0 <= j < i ==> chunks@[j]@ == vstd::utf8::encode_utf8(
                        #[trigger] value.strings@[j]@,
                    ),
            decreases value.strings.len() - i,
        {
            chunks.push(copy_bytes(value.strings[i].as_str().as_bytes()));
            i += 1;
        }
        assert(blobs(chunks@) =~= utf8_chunks(texts(value.strings@)));
        ByteContent { is_indefinite: value.is_indefinite, bytes: chunks }
    }

    /// Marks the content as indefinite-length or definite-length.
    pub fn set_indefinite(&mut self, indefinite: bool) -> (r: &mut Self)
        ensures
            r@ == (ByteView { indefinite, chunks: old(self)@.chunks }),
            *final(self) == *final(r),
    {
        self.is_indefinite = indefinite;
        self
    }

    /// Replaces every chunk by the one chunk `byte`.
    pub fn set_bytes(&mut self, byte: &[u8]) -> (r: &mut Self)
        ensures
            r@ == (ByteView { indefinite: old(self)@.indefinite, chunks: seq![byte@] }),
            *final(self) == *final(r),
    {
        let mut chunks: Vec<Vec<u8>> = Vec::new();
        chunks.push(copy_bytes(byte));
        self.bytes = chunks;
        assert(blobs(self.bytes@) =~= seq![byte@]);
        self
    }

    /// Appends `byte` as a new last chunk.
    pub fn add_bytes(&mut self, byte: &[u8]) -> (r: &mut Self)
        ensures
            r@ == (ByteView {
                indefinite: old(self)@.indefinite,
                chunks: old(self)@.chunks.push(byte@),
            }),
            *final(self) == *final(r),
    {
        let ghost before = self.bytes@;
        self.bytes.push(copy_bytes(byte));
        assert(blobs(self.bytes@) =~= blobs(before).push(byte@));
        self
    }

    /// Appends `byte` as a new last chunk.
    pub fn push_bytes(&mut self, byte: &[u8]) -> (r: &mut Self)
        ensures
            r@ == (ByteView {
                indefinite: old(self)@.indefinite,
                chunks: old(self)@.chunks.push(byte@),
            }),
            *final(self) == *final(r),
    {
        self.add_bytes(byte)
    }

    /// Appends every chunk of `byte`, in order.
    pub fn extend_bytes(&mut self, byte: &[Vec<u8>]) -> (r: &mut Self)
        ensures
            r@ == (ByteView {
                indefinite: old(self)@.indefinite,
                chunks: old(self)@.chunks + blobs(byte@),
            }),
            *final(self) == *final(r),
    {
        let ghost before = self.bytes@;
        let mut i: usize = 0;
        while i < byte.len()
            invariant
                i <= byte.len(),
                self.is_indefinite == old(self).is_indefinite,
                blobs(self.bytes@) == blobs(before) + blobs(byte@).subrange(0, i as int),
            decreases byte.len() - i,
        {
            let ghost now = self.bytes@;
            self.bytes.push(copy_bytes(byte[i].as_slice()));
            assert(blobs(self.bytes@) =~= blobs(now).push(byte@[i as int]@));
            assert(blobs(byte@).subrange(0, i + 1) =~= blobs(byte@).subrange(0, i as int).push(
                byte@[i as int]@,
            ));
            assert(blobs(self.bytes@) =~= blobs(before) + blobs(byte@).subrange(0, i + 1));
            i += 1;
        }
        assert(blobs(byte@).subrange(0, byte@.len() as int) =~= blobs(byte@));
        self
    }

    /// Whether the content is written in the indefinite-length form.
    pub fn is_indefinite(&self) -> (r: bool)
        ensures
            r == self@.indefinite,
    {
        self.is_indefinite
    }

    /// All chunks joined into one byte string.
    pub fn full(&self) -> (r: Vec<u8>)
        ensures
            r@ == joined(self@.chunks),
    {
        let mut out: Vec<u8> = Vec::new();
        let mut i: usize = 0;
        while i < self.bytes.len()
            invariant
                i <= self.bytes.len(),
                out@ == joined(blobs(self.bytes@).subrange(0, i as int)),
            decreases self.bytes.len() - i,
        {
            let chunk = &self.bytes[i];
            let ghost start = out@;
            let mut j: usize = 0;
            while j < chunk.len()
                invariant
                    j <= chunk.len(),
                    out@ == start + chunk@.subrange(0, j as int),
                decreases chunk.len() - j,
            {
                out.push(chunk[j]);
                assert(chunk@.subrange(0, j + 1) =~= chunk@.subrange(0, j as int).push(
                    chunk@[j as int],
                ));
                assert(out@ =~= start + chunk@.subrange(0, j + 1));
                j += 1;
            }
            proof {
                assert(chunk@.subrange(0, chunk@.len() as int) =~= chunk@);
                let all = blobs(self.bytes@);
                assert(all.subrange(0, i + 1).drop_last() =~= all.subrange(0, i as int));
                assert(all.subrange(0, i + 1).last() == chunk@);
            }
            i += 1;
        }
        assert(blobs(self.bytes@).subrange(0, self.bytes@.len() as int) =~= blobs(self.bytes@));
        out
    }

    /// The chunks, in order.
    pub fn chunk(&self) -> (r: &[Vec<u8>])
        ensures
            blobs(r@) == self@.chunks,
    {
        self.bytes.as_slice()
    }
}

/// The chunks of a sequence joined in order.
pub open spec fn joined<T>(chunks: Seq<Seq<T>>) -> Seq<T>
    decreases chunks.len(),
{
    if chunks.len() == 0 {
        Seq::empty()
    } else {
        joined(chunks.drop_last()) + chunks.last()
    }
}

/// The UTF-8 bytes of each text chunk, in order.
pub open spec fn utf8_chunks(chunks: Seq<Seq<char>>) -> Seq<Seq<u8>> {
    Seq::new(chunks.len(), |i: int| vstd::utf8::encode_utf8(chunks[i]))
}

/// The payload of a text string: its chunks as they stand on the wire.
#[derive(PartialEq, Eq, PartialOrd, Hash, Debug)]
pub struct TextContent {
    pub(crate) is_indefinite: bool,
    pub(crate) strings: Vec<String>,
}

impl View for TextContent {
    type V = TextView;

    closed spec fn view(&self) -> TextView {
        TextView { indefinite: self.is_indefinite, chunks: texts(self.strings@) }
    }
}

impl Default for TextContent {
    /// Definite content without any chunk.
    fn default() -> (r: Self)
        ensures
            r@ == (TextView { indefinite: false, chunks: Seq::<Seq<char>>::empty() }),
    {
        let r = TextContent { is_indefinite: false, strings: Vec::new() };
        assert(texts(r.strings@) =~= Seq::<Seq<char>>::empty());
        r
    }
}

impl Clone for TextContent {
    fn clone(&self) -> (r: Self)
        ensures
            r@ == self@,
    {
        TextContent {
            is_indefinite: self.is_indefinite,
            strings: copy_texts(self.strings.as_slice()),
        }
    }
}

/// `String::from_utf8`: the text that the bytes spell in UTF-8, or an error
/// where they are not UTF-8.
#[verifier::external_body]
fn string_from_utf8(bytes: Vec<u8>) -> (r: Result<String, FromUtf8Error>)
    ensures
        match r {
            Ok(s) => vstd::utf8::valid_utf8(bytes@) && s@ == vstd::utf8::decode_utf8(bytes@),
            Err(_) => !vstd::utf8::valid_utf8(bytes@),
        },
{
    String::from_utf8(bytes)
}

impl TextContent {
    /// The chunks of `value` as text, where each of them is UTF-8; the
    /// error of the first chunk that is not.
    pub fn try_from_bytes(value: &ByteContent) -> (r: Result<Self, FromUtf8Error>)
        ensures
            match r {
                Ok(t) => crate::grammar::all_utf8(value@.chunks) && t@ == (TextView {
                    indefinite: value@.indefinite,
                    chunks: crate::grammar::texts_of(value@.chunks),
                }),
                Err(_) => !crate::grammar::all_utf8(value@.chunks),
            },
    {
        let mut strings: Vec<String> = Vec::new();
        let mut i: usize = 0;
        while i < value.bytes.len()
            invariant
                i <= value.bytes.len(),
                strings@.len() == i,
                forall|j: int|
                    0 <= j < i ==> vstd::utf8::valid_utf8(#[trigger] value.bytes@[j]@)
                        && strings@[j]@ == vstd::utf8::decode_utf8(value.bytes@[j]@),
            decreases value.bytes.len() - i,
        {
            match string_from_utf8(copy_bytes(value.bytes[i].as_slice())) {
                Ok(s) => {
                    strings.push(s);
                },
                Err(e) => {
                    assert(!vstd::utf8::valid_utf8(blobs(value.bytes@)[i as int]));
                    return Err(e);
                },
            }
            i += 1;
        }
        assert forall|j: int| 0 <= j < blobs(value.bytes@).len() implies vstd::utf8::valid_utf8(
            #[trigger] blobs(value.bytes@)[j],
        ) by {
            assert(vstd::utf8::valid_utf8(value.bytes@[j]@));
        }
        assert(texts(strings@) =~= crate::grammar::texts_of(blobs(value.bytes@)));
        Ok(TextContent { is_indefinite: value.is_indefinite, strings })
    }

    /// Definite content of the one chunk `value`.
    pub fn from_string(value: String) -> (r: Self)
        ensures
            r@ == (TextView { indefinite: false, chunks: seq![value@] }),
    {
        let mut chunks: Vec<String> = Vec::new();
        chunks.push(value);
        assert(texts(chunks@) =~= seq![value@]);
        TextContent { is_indefinite: false, strings: chunks }
    }

    /// Marks the content as indefinite-length or definite-length.
    pub fn set_indefinite(&mut self, indefinite: bool) -> (r: &mut Self)
        ensures
            r@ == (TextView { indefinite, chunks: old(self)@.chunks }),
            *final(self) == *final(r),
    {
        self.is_indefinite = indefinite;
        self
    }

    /// Replaces every chunk by the one chunk `string`.
    pub fn set_string(&mut self, string: &str) -> (r: &mut Self)
        ensures
            r@ == (TextView { indefinite: old(self)@.indefinite, chunks: seq![string@] }),
            *final(self) == *final(r),
    {
        let mut chunks: Vec<String> = Vec::new();
        chunks.push(string.to_owned());
        self.strings = chunks;
        assert(texts(self.strings@) =~= seq![string@]);
        self
    }

    /// Appends `string` as a new last chunk.
    pub fn add_string(&mut self, string: &str) -> (r: &mut Self)
        ensures
            r@ == (TextView {
                indefinite: old(self)@.indefinite,
                chunks: old(self)@.chunks.push(string@),
            }),
            *final(self) == *final(r),
    {
        let ghost before = self.strings@;
        self.strings.push(string.to_owned());
        assert(texts(self.strings@) =~= texts(before).push(string@));
        self
    }

    /// Appends `string` as a new last chunk.
    pub fn push_string(&mut self, string: &str) -> (r: &mut Self)
        ensures
            r@ == (TextView {
                indefinite: old(self)@.indefinite,
                chunks: old(self)@.chunks.push(string@),
            }),
            *final(self) == *final(r),
    {
        self.add_string(string)
    }

    /// Whether the content is written in the indefinite-length form.
    pub fn is_indefinite(&self) -> (r: bool)
        ensures
            r == self@.indefinite,
    {
        self.is_indefinite
    }

    /// All chunks joined into one string.
    pub fn full(&self) -> (r: String)
        ensures
            r@ == joined(self@.chunks),
    {
        let mut out = String::new();
        let mut i: usize = 0;
        assert(texts(self.strings@).subrange(0, 0) =~= Seq::<Seq<char>>::empty());
        while i < self.strings.len()
            invariant
                i <= self.strings.len(),
                out@ == joined(texts(self.strings@).subrange(0, i as int)),
            decreases self.strings.len() - i,
        {
            out.append(self.strings[i].as_str());
            proof {
                let all = texts(self.strings@);
                assert(all.subrange(0, i + 1).drop_last() =~= all.subrange(0, i as int));
                assert(all.subrange(0, i + 1).last() == self.strings@[i as int]@);
            }
            i += 1;
        }
        assert(texts(self.strings@).subrange(0, self.strings@.len() as int) =~= texts(
            self.strings@,
        ));
        out
    }

    /// The chunks, in order.
    pub fn chunk(&self) -> (r: &[String])
        ensures
            texts(r@) == self@.chunks,
    {
        self.strings.as_slice()
    }
}

/// The payload of an array: its items in order.
#[derive(PartialEq, Eq, Hash, Debug)]
pub struct ArrayContent {
    pub is_indefinite: bool,
    pub array: Vec<DataItem>,
}

impl Default for ArrayContent {
    /// A definite array without items.
    fn default() -> (r: Self)
        ensures
            !r.is_indefinite,
            r.array@.len() == 0,
    {
        ArrayContent { is_indefinite: false, array: Vec::new() }
    }
}

impl ArrayContent {
    /// Marks the content as indefinite-length or definite-length.
    pub fn set_indefinite(&mut self, indefinite: bool) -> (r: &mut Self)
        ensures
            r.is_indefinite == indefinite,
            r.array == old(self).array,
            *final(self) == *final(r),
    {
        self.is_indefinite = indefinite;
        self
    }

    /// Replaces the items by clones of the items of `array`.
    pub fn set_content(&mut self, array: &[DataItem]) -> (r: &mut Self)
        ensures
            r.is_indefinite == old(self).is_indefinite,
            models(r.array@) == models(array@),
            *final(self) == *final(r),
    {
        let mut items: Vec<DataItem> = Vec::new();
        let mut i: usize = 0;
        while i < array.len()
            invariant
                i <= array.len(),
                items@.len() == i,
                forall|j: int| 0 <= j < i ==> model(items@[j]) == model(array@[j]),
            decreases array.len() - i,
        {
            items.push(array[i].clone());
            i += 1;
        }
        assert(models(items@) =~= models(array@));
        self.array = items;
        self
    }

    /// Appends `item` as a new last item.
    pub fn push_content(&mut self, item: DataItem) -> (r: &mut Self)
        ensures
            r.is_indefinite == old(self).is_indefinite,
            r.array@ == old(self).array@.push(item),
            *final(self) == *final(r),
    {
        self.array.push(item);
        self
    }

    /// Whether the content is written in the indefinite-length form.
    pub fn is_indefinite(&self) -> (r: bool)
        ensures
            r == self.is_indefinite,
    {
        self.is_indefinite
    }

    /// The items, in order.
    pub fn array(&self) -> (r: &[DataItem])
        ensures
            r@ == self.array@,
    {
        self.array.as_slice()
    }

    /// The items, in order, to be changed in place.
    pub fn array_mut(&mut self) -> (r: &mut [DataItem])
        ensures
            r@ == old(self).array@,
            final(self).array@ == final(r)@,
            final(self).is_indefinite == old(self).is_indefinite,
    {
        self.array.as_mut_slice()
    }
}

impl Clone for ArrayContent {
    fn clone(&self) -> (r: Self)
        ensures
            r.is_indefinite == self.is_indefinite,
            models(r.array@) == models(self.array@),
    {
        ArrayContent { is_indefinite: self.is_indefinite, array: copy_items(&self.array) }
    }
}

/// The payload of a map: its entries in insertion order.
#[derive(PartialEq, Eq, Hash, Debug)]
pub struct MapContent {
    pub is_indefinite: bool,
    pub map: EntryMap,
}

impl Default for MapContent {
    /// A definite map without entries.
    fn default() -> (r: Self)
        ensures
            !r.is_indefinite,
            entries_of(r.map) == Seq::<(Item, Item)>::empty(),
    {
        MapContent { is_indefinite: false, map: EntryMap::new() }
    }
}

impl Clone for MapContent {
    fn clone(&self) -> (r: Self)
        ensures
            r.is_indefinite == self.is_indefinite,
            entries_of(r.map) == entries_of(self.map),
    {
        MapContent { is_indefinite: self.is_indefinite, map: self.map.clone() }
    }
}

impl MapContent {
    /// Marks the content as indefinite-length or definite-length.
    pub fn set_indefinite(&mut self, indefinite: bool) -> (r: &mut Self)
        ensures
            r.is_indefinite == indefinite,
            r.map == old(self).map,
            *final(self) == *final(r),
    {
        self.is_indefinite = indefinite;
        self
    }

    /// Inserts `value` for `key`: where a key like `key` is present it stays
    /// in its place and takes the new value; otherwise the pair becomes the
    /// last entry.
    pub fn insert_content(&mut self, key: DataItem, value: DataItem) -> (r: &mut Self)
        ensures
            r.is_indefinite == old(self).is_indefinite,
            entries_of(r.map) == crate::entry_map::inserted(
                entries_of(old(self).map),
                key@,
                value@,
            ),
            *final(self) == *final(r),
    {
        self.map.insert(key, value);
        self
    }

    /// Replaces the entries by clones of the entries that `map` holds.
    pub fn set_content(&mut self, map: &IndexMap<DataItem, DataItem>) -> (r: &mut Self)
        ensures
            r.is_indefinite == old(self).is_indefinite,
            entries_of(r.map) == held_by(*map),
            *final(self) == *final(r),
    {
        self.map = EntryMap::cloned_from(map);
        self
    }

    /// Whether the content is written in the indefinite-length form.
    pub fn is_indefinite(&self) -> (r: bool)
        ensures
            r == self.is_indefinite,
    {
        self.is_indefinite
    }

    /// The entries, in insertion order.
    pub fn map(&self) -> (r: &IndexMap<DataItem, DataItem>)
        ensures
            held_by(*r) == entries_of(self.map),
    {
        self.map.as_index_map()
    }

    /// The entries, in insertion order, to be changed in place.
    pub fn map_mut(&mut self) -> (r: &mut IndexMap<DataItem, DataItem>)
        ensures
            held_by(*r) == entries_of(old(self).map),
            entries_of(final(self).map) == held_by(*final(r)),
            final(self).is_indefinite == old(self).is_indefinite,
    {
        self.map.as_index_map_mut()
    }
}

/// The payload of a tag: the tag number and the one item tagged.
#[derive(PartialEq, Eq, Hash, Debug)]
pub struct TagContent {
    pub number: u64,
    pub content: Box<DataItem>,
}

impl Clone for TagContent {
    fn clone(&self) -> (r: Self)
        ensures
            r.number == self.number,
            r.content@ == self.content@,
    {
        TagContent { number: self.number, content: Box::new((*self.content).clone()) }
    }
}

impl TagContent {
    /// The tag number.
    pub fn number(&self) -> (r: u64)
        ensures
            r == self.number,
    {
        self.number
    }

    /// The item tagged.
    pub fn content(&self) -> (r: &DataItem)
        ensures
            *r == *self.content,
    {
        &*self.content
    }
}

/// A simple value that is neither a boolean, null or undefined, nor one of
/// the numbers kept for the extension mechanics: 0 to 19, or 32 to 255.
#[derive(PartialEq, Eq, Hash, Debug, Clone, Copy)]
pub struct SimpleValue(u8);

impl View for SimpleValue {
    type V = u8;

    closed spec fn view(&self) -> u8 {
        self.0
    }
}

impl SimpleValue {
    #[verifier::type_invariant]
    spec fn legal(self) -> bool {
        legal_simple(self.0)
    }

    /// The number held.
    pub fn val(&self) -> (r: u8)
        ensures
            r == self@,
            legal_simple(r),
    {
        proof {
            use_type_invariant(self);
        }
        self.0
    }
}

impl std::ops::Deref for SimpleValue {
    type Target = u8;

    /// The number held.
    fn deref(&self) -> (r: &u8)
        ensures
            *r == self@,
            legal_simple(*r),
    {
        proof {
            use_type_invariant(self);
        }
        &self.0
    }
}

impl vstd::std_specs::convert::TryFromSpecImpl<u8> for SimpleValue {
    open spec fn obeys_try_from_spec() -> bool {
        true
    }

    closed spec fn try_from_spec(v: u8) -> Result<Self, Error> {
        if legal_simple(v) {
            Ok(SimpleValue(v))
        } else {
            Err(Error::InvalidSimple)
        }
    }
}

impl TryFrom<u8> for SimpleValue {
    type Error = Error;

    /// The simple value `value`, or `InvalidSimple` where it is reserved.
    fn try_from(value: u8) -> (r: Result<Self, Error>)
        ensures
            legal_simple(value) ==> r is Ok && r->Ok_0@ == value,
            !legal_simple(value) ==> r == Err::<Self, Error>(Error::InvalidSimple),
    {
        if value <= 19 || value >= 32 {
            Ok(SimpleValue(value))
        } else {
            Err(Error::InvalidSimple)
        }
    }
}

} // verus!

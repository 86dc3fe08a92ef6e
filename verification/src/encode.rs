//! The encoder: from a data item to its bytes.
use vstd::prelude::*;
use crate::content::{joined, utf8_chunks, ByteContent};
use crate::data_item::DataItem;
use crate::float::{narrow_half, narrow_single, narrow_to_half, narrow_to_single};
use crate::entry_map::entries_of;
use crate::model::{array_item_is_smaller, map_entry_is_smaller, tag_content_is_smaller, Item};

verus! {

/// The byte that ends an indefinite-length item.
pub const BREAK: u8 = 0xff;

/// The first byte of an item: the major type in the top three bits, the
/// additional information in the low five.
pub open spec fn initial_byte(major: u8, info: u8) -> u8 {
    (major << 5) | info
}

/// The `width` low bytes of `n`, most significant first.
pub open spec fn big_endian(n: nat, width: nat) -> Seq<u8>
    decreases width,
{
    if width == 0 {
        Seq::empty()
    } else {
        big_endian(n / 256, (width - 1) as nat).push((n % 256) as u8)
    }
}

/// The head of an item: its initial byte and the argument `n` in the
/// shortest of the five forms.
pub open spec fn head(major: u8, n: u64) -> Seq<u8> {
    if n <= 23 {
        seq![initial_byte(major, n as u8)]
    } else if n <= 0xff {
        seq![initial_byte(major, 24)] + big_endian(n as nat, 1)
    } else if n <= 0xffff {
        seq![initial_byte(major, 25)] + big_endian(n as nat, 2)
    } else if n <= 0xffff_ffff {
        seq![initial_byte(major, 26)] + big_endian(n as nat, 4)
    } else {
        seq![initial_byte(major, 27)] + big_endian(n as nat, 8)
    }
}

/// One definite-length string: its length, then its bytes.
pub open spec fn definite_string(major: u8, bytes: Seq<u8>) -> Seq<u8> {
    head(major, bytes.len() as u64) + bytes
}

/// Each chunk as a definite-length string of its own, in order.
pub open spec fn chunks_encoding(major: u8, chunks: Seq<Seq<u8>>) -> Seq<u8>
    decreases chunks.len(),
{
    if chunks.len() == 0 {
        Seq::empty()
    } else {
        chunks_encoding(major, chunks.drop_last()) + definite_string(major, chunks.last())
    }
}

/// A byte or text string: definite as one string of all its bytes,
/// indefinite as its chunks between the marker and the break.
pub open spec fn string_encoding(major: u8, indefinite: bool, chunks: Seq<Seq<u8>>) -> Seq<u8> {
    if indefinite {
        seq![initial_byte(major, 31)] + chunks_encoding(major, chunks) + seq![BREAK]
    } else {
        definite_string(major, joined(chunks))
    }
}

/// A floating-point number in the shortest of binary16, binary32 and
/// binary64 that holds its pattern exactly, a NaN like any other.
pub open spec fn float_encoding(major: u8, bits: u64) -> Seq<u8> {
    match narrow_to_half(bits) {
        Some(h) => seq![initial_byte(major, 25)] + big_endian(h as nat, 2),
        None => match narrow_to_single(bits) {
            Some(s) => seq![initial_byte(major, 26)] + big_endian(s as nat, 4),
            None => seq![initial_byte(major, 27)] + big_endian(bits as nat, 8),
        },
    }
}

/// What binary16 holds is written in binary16, a NaN in its quiet pattern.
pub proof fn half_numbers_take_three_bytes(major: u8, h: u16)
    ensures
        float_encoding(major, crate::float::half_to_double(h)) == seq![initial_byte(major, 25)]
            + big_endian(crate::float::quiet_half(h) as nat, 2),
{
    crate::float::half_is_narrowed_back(h);
}

/// What binary32 holds is written in binary32 or shorter, a NaN in its
/// quiet pattern.
pub proof fn single_numbers_take_five_bytes_at_most(major: u8, s: u32)
    ensures
        narrow_to_half(crate::float::single_to_double(s)) is None ==> float_encoding(
            major,
            crate::float::single_to_double(s),
        ) == seq![initial_byte(major, 26)] + big_endian(
            crate::float::quiet_single(s) as nat,
            4,
        ),
        narrow_to_half(crate::float::single_to_double(s)) is Some ==> float_encoding(
            major,
            crate::float::single_to_double(s),
        ) == seq![initial_byte(major, 25)] + big_endian(
            narrow_to_half(crate::float::single_to_double(s))->Some_0 as nat,
            2,
        ),
{
    crate::float::single_is_narrowed_back(s);
}

/// What opens an array or a map of `count` items or entries.
pub open spec fn opening(major: u8, indefinite: bool, count: nat) -> Seq<u8> {
    if indefinite {
        seq![initial_byte(major, 31)]
    } else {
        head(major, count as u64)
    }
}

/// What closes an array or a map.
pub open spec fn closing(indefinite: bool) -> Seq<u8> {
    if indefinite {
        seq![BREAK]
    } else {
        Seq::empty()
    }
}

/// The bytes of a data item.
pub open spec fn encoding(v: Item) -> Seq<u8>
    decreases v, 0nat,
{
    match v {
        Item::Unsigned(n) => head(0, n),
        Item::Signed(n) => head(1, n),
        Item::Byte { indefinite, chunks } => string_encoding(2, indefinite, chunks),
        Item::Text { indefinite, chunks } => string_encoding(3, indefinite, utf8_chunks(chunks)),
        Item::Array { indefinite, items } => opening(4, indefinite, items.len()) + items_encoding(
            items,
            items.len(),
        ) + closing(indefinite),
        Item::Mapping { indefinite, entries } => opening(5, indefinite, entries.len())
            + entries_encoding(entries, entries.len()) + closing(indefinite),
        Item::Tag { number, content } => head(6, number) + encoding(*content),
        Item::Boolean(b) => seq![initial_byte(7, if b { 21u8 } else { 20u8 })],
        Item::Null => seq![initial_byte(7, 22)],
        Item::Undefined => seq![initial_byte(7, 23)],
        Item::Floating(bits) => float_encoding(7, bits),
        Item::GenericSimple(n) => if n <= 23 {
            seq![initial_byte(7, n)]
        } else {
            seq![initial_byte(7, 24), n]
        },
    }
}

/// The bytes of the first `n` items of a sequence, one after another.
pub open spec fn items_encoding(items: Seq<Item>, n: nat) -> Seq<u8>
    decreases items, n,
{
    if n == 0 || n > items.len() {
        Seq::empty()
    } else {
        items_encoding(items, (n - 1) as nat) + encoding(items[n - 1])
    }
}

/// The bytes of the first `n` entries of a sequence: each key, then its
/// value.
pub open spec fn entries_encoding(entries: Seq<(Item, Item)>, n: nat) -> Seq<u8>
    decreases entries, n,
{
    if n == 0 || n > entries.len() {
        Seq::empty()
    } else {
        entries_encoding(entries, (n - 1) as nat) + encoding(entries[n - 1].0) + encoding(
            entries[n - 1].1,
        )
    }
}

/// Appends the `width` low bytes of `n`, most significant first.
pub fn push_big_endian(out: &mut Vec<u8>, n: u64, width: u8)
    ensures
        final(out)@ == old(out)@ + big_endian(n as nat, width as nat),
    decreases width,
{
    if width > 0 {
        push_big_endian(out, n / 256, width - 1);
        out.push((n % 256) as u8);
        assert(out@ =~= old(out)@ + big_endian(n as nat, width as nat));
    } else {
        assert(out@ =~= old(out)@ + big_endian(n as nat, width as nat));
    }
}

/// Appends the bytes of `source`.
pub fn push_bytes(out: &mut Vec<u8>, source: &[u8])
    ensures
        final(out)@ == old(out)@ + source@,
{
    let mut i: usize = 0;
    while i < source.len()
        invariant
            i <= source.len(),
            out@ == old(out)@ + source@.subrange(0, i as int),
        decreases source.len() - i,
    {
        out.push(source[i]);
        assert(out@ =~= old(out)@ + source@.subrange(0, i + 1));
        i += 1;
    }
    assert(source@.subrange(0, source@.len() as int) =~= source@);
}

/// The head of an item of major type `major_type` with the argument
/// `number`, in the shortest form.
pub fn encode_u64_number(major_type: u8, number: u64) -> (r: Vec<u8>)
    ensures
        r@ == head(major_type, number),
{
    let shifted_major_type: u8 = major_type << 5;
    let mut out: Vec<u8> = Vec::new();
    if number <= 23 {
        out.push(shifted_major_type | (number as u8));
    } else if number <= 0xff {
        out.push(shifted_major_type | 24);
        push_big_endian(&mut out, number, 1);
    } else if number <= 0xffff {
        out.push(shifted_major_type | 25);
        push_big_endian(&mut out, number, 2);
    } else if number <= 0xffff_ffff {
        out.push(shifted_major_type | 26);
        push_big_endian(&mut out, number, 4);
    } else {
        out.push(shifted_major_type | 27);
        push_big_endian(&mut out, number, 8);
    }
    assert(out@ =~= head(major_type, number));
    out
}

/// One definite-length string of major type `major_type`.
pub fn encode_chunk(major_type: u8, bytes: &[u8]) -> (r: Vec<u8>)
    ensures
        r@ == definite_string(major_type, bytes@),
{
    let mut out = encode_u64_number(major_type, bytes.len() as u64);
    push_bytes(&mut out, bytes);
    out
}

/// The bytes of a byte string, or of a text string whose chunks `byte`
/// holds in UTF-8.
pub fn encode_vec_u8(major_type: u8, byte: &ByteContent) -> (r: Vec<u8>)
    ensures
        r@ == string_encoding(major_type, byte@.indefinite, byte@.chunks),
{
    if byte.is_indefinite() {
        let mut out: Vec<u8> = Vec::new();
        out.push(major_type << 5 | 31);
        let chunks = byte.chunk();
        let ghost all = byte@.chunks;
        let mut i: usize = 0;
        assert(all.subrange(0, 0) =~= Seq::<Seq<u8>>::empty());
        while i < chunks.len()
            invariant
                i <= chunks.len(),
                crate::content::blobs(chunks@) == all,
                out@ == seq![initial_byte(major_type, 31)] + chunks_encoding(
                    major_type,
                    all.subrange(0, i as int),
                ),
            decreases chunks.len() - i,
        {
            let mut piece = encode_chunk(major_type, chunks[i].as_slice());
            out.append(&mut piece);
            proof {
                assert(all.subrange(0, i + 1).drop_last() =~= all.subrange(0, i as int));
                assert(all.subrange(0, i + 1).last() == chunks@[i as int]@);
                assert(out@ =~= seq![initial_byte(major_type, 31)] + chunks_encoding(
                    major_type,
                    all.subrange(0, i + 1),
                ));
            }
            i += 1;
        }
        assert(all.subrange(0, all.len() as int) =~= all);
        out.push(BREAK);
        out
    } else {
        let full = byte.full();
        encode_chunk(major_type, full.as_slice())
    }
}

/// The bytes of a floating-point number, given as a binary64 pattern, in
/// the shortest form that holds it exactly.
pub fn encode_f64_number(major_type: u8, bits: u64) -> (r: Vec<u8>)
    ensures
        r@ == float_encoding(major_type, bits),
{
    let shifted_major_type: u8 = major_type << 5;
    let mut out: Vec<u8> = Vec::new();
    match narrow_half(bits) {
        Some(h) => {
            out.push(shifted_major_type | 25);
            push_big_endian(&mut out, h as u64, 2);
        },
        None => match narrow_single(bits) {
            Some(s) => {
                out.push(shifted_major_type | 26);
                push_big_endian(&mut out, s as u64, 4);
            },
            None => {
                out.push(shifted_major_type | 27);
                push_big_endian(&mut out, bits, 8);
            },
        },
    }
    assert(out@ =~= float_encoding(major_type, bits));
    out
}

/// What opens an array or a map of `count` items or entries.
fn encode_opening(major_type: u8, indefinite: bool, count: usize) -> (r: Vec<u8>)
    ensures
        r@ == opening(major_type, indefinite, count as nat),
{
    if indefinite {
        let mut out: Vec<u8> = Vec::new();
        out.push(major_type << 5 | 31);
        out
    } else {
        encode_u64_number(major_type, count as u64)
    }
}

impl DataItem {
    /// The bytes of the item. Every item has them.
    pub fn encode(&self) -> (r: Vec<u8>)
        ensures
            r@ == encoding(self@),
        decreases self@,
    {
        match self {
            DataItem::Unsigned(number) => encode_u64_number(0, *number),
            DataItem::Signed(number) => encode_u64_number(1, *number),
            DataItem::Byte(byte) => encode_vec_u8(2, byte),
            DataItem::Text(text) => encode_vec_u8(3, &ByteContent::from_text(text)),
            DataItem::Array(array) => {
                let mut out = encode_opening(4, array.is_indefinite, array.array.len());
                let ghost items = self@->items;
                let mut i: usize = 0;
                assert(self@ == Item::Array {
                    indefinite: array.is_indefinite,
                    items: crate::data_item::models(array.array@),
                });
                assert(out@ =~= out@ + items_encoding(items, 0));
                while i < array.array.len()
                    invariant
                        i <= array.array.len(),
                        self@ is Array,
                        items == self@->items,
                        items == crate::data_item::models(array.array@),
                        out@ == opening(4, array.is_indefinite, items.len()) + items_encoding(
                            items,
                            i as nat,
                        ),
                    decreases array.array.len() - i,
                {
                    proof {
                        array_item_is_smaller(self@, i as int);
                    }
                    let mut piece = array.array[i].encode();
                    out.append(&mut piece);
                    i += 1;
                }
                if array.is_indefinite {
                    out.push(BREAK);
                }
                assert(out@ =~= encoding(self@));
                out
            },
            DataItem::Mapping(map) => {
                let count = map.map.len();
                let mut out = encode_opening(5, map.is_indefinite, count);
                let ghost entries = self@->entries;
                let mut i: usize = 0;
                assert(out@ =~= out@ + entries_encoding(entries, 0));
                while i < count
                    invariant
                        i <= count,
                        self@ is Mapping,
                        entries == self@->entries,
                        entries == entries_of(map.map),
                        count == entries.len(),
                        out@ == opening(5, map.is_indefinite, entries.len()) + entries_encoding(
                            entries,
                            i as nat,
                        ),
                    decreases count - i,
                {
                    proof {
                        map_entry_is_smaller(self@, i as int);
                    }
                    let (key, value) = map.map.entry_at(i);
                    let mut key_bytes = key.encode();
                    let mut value_bytes = value.encode();
                    out.append(&mut key_bytes);
                    out.append(&mut value_bytes);
                    i += 1;
                }
                if map.is_indefinite {
                    out.push(BREAK);
                }
                assert(out@ =~= encoding(self@));
                out
            },
            DataItem::Tag(tag) => {
                proof {
                    tag_content_is_smaller(self@);
                }
                let mut out = encode_u64_number(6, tag.number);
                let mut inner = tag.content.encode();
                out.append(&mut inner);
                out
            },
            DataItem::Boolean(value) => {
                let mut out: Vec<u8> = Vec::new();
                if *value {
                    out.push(7 << 5 | 21);
                } else {
                    out.push(7 << 5 | 20);
                }
                assert(out@ =~= encoding(self@));
                out
            },
            DataItem::Null => {
                let mut out: Vec<u8> = Vec::new();
                out.push(7 << 5 | 22);
                out
            },
            DataItem::Undefined => {
                let mut out: Vec<u8> = Vec::new();
                out.push(7 << 5 | 23);
                out
            },
            DataItem::Floating(bits) => encode_f64_number(7, *bits),
            DataItem::GenericSimple(simple) => {
                let n = simple.val();
                let mut out: Vec<u8> = Vec::new();
                if n <= 23 {
                    out.push(7 << 5 | n);
                } else {
                    out.push(7 << 5 | 24);
                    out.push(n);
                }
                assert(out@ =~= encoding(self@));
                out
            },
        }
    }
}

} // verus!

//! Decoding undoes encoding: the bytes of a well-formed item hold that item
//! and no other.
use vstd::prelude::*;
use crate::content::{joined, utf8_chunks};
use crate::decode::limit;
use crate::encode::{big_endian, chunks_encoding, closing, definite_string, encoding, entries_encoding, float_encoding, head, initial_byte, items_encoding, opening, string_encoding, BREAK};
use crate::float::{narrow_to_half, narrow_to_single};
use crate::grammar::{argument, has_key, info_in, major_in, number, number_of, parse_chunks, parse_entries, parse_entry, parse_item, parse_items, parse_open_entries, parse_open_items, parse_string, take, texts_of, width_of, Failure};
use crate::model::{fresh, place_of, well_formed, Item};

verus! {

/// An initial byte gives back the major type and the additional
/// information that it was made of, and is the break byte only for major
/// type 7 with additional information 31.
pub proof fn initial_byte_parts(major: u8, info: u8)
    requires
        major <= 7,
        info <= 31,
    ensures
        major_in(initial_byte(major, info)) == major,
        info_in(initial_byte(major, info)) == info,
        initial_byte(major, info) == BREAK <==> major == 7 && info == 31,
{
    assert((((major << 5) | info) >> 5) == major) by (bit_vector)
        requires
            major <= 7,
            info <= 31,
    ;
    assert((((major << 5) | info) & 0x1f) == info) by (bit_vector)
        requires
            major <= 7,
            info <= 31,
    ;
    assert((((major << 5) | info) == 0xff) <==> (major == 7 && info == 31)) by (bit_vector)
        requires
            major <= 7,
            info <= 31,
    ;
}

/// The big-endian bytes of a number are as many as asked for and spell the
/// number, where they are enough to hold it.
pub proof fn big_endian_spells(n: nat, width: nat)
    requires
        n < limit(width),
    ensures
        big_endian(n, width).len() == width,
        number_of(big_endian(n, width)) == n,
    decreases width,
{
    if width > 0 {
        let rest = big_endian(n / 256, (width - 1) as nat);
        big_endian_spells(n / 256, (width - 1) as nat);
        assert(big_endian(n, width).drop_last() =~= rest);
    }
}

proof fn limits()
    ensures
        limit(1) == 0x100,
        limit(2) == 0x1_0000,
        limit(4) == 0x1_0000_0000,
        limit(8) == 0x1_0000_0000_0000_0000,
{
    reveal_with_fuel(limit, 10);
}

/// How many bytes the head of an item with the argument `n` takes.
pub open spec fn head_len(n: u64) -> int {
    if n <= 23 {
        1
    } else if n <= 0xff {
        2
    } else if n <= 0xffff {
        3
    } else if n <= 0xffff_ffff {
        5
    } else {
        9
    }
}

/// Where a head stands in the bytes, its initial byte names its major
/// type, is no break byte unless the major type is 7, and its argument is
/// read back as it was written.
pub proof fn head_is_read_back(s: Seq<u8>, pos: int, major: u8, n: u64)
    requires
        major <= 7,
        0 <= pos,
        pos + head(major, n).len() <= s.len(),
        s.subrange(pos, pos + head(major, n).len()) == head(major, n),
    ensures
        head(major, n).len() == head_len(n),
        major_in(s[pos]) == major,
        major < 7 ==> s[pos] != BREAK,
        argument(s, pos + 1, info_in(s[pos])) == Ok::<(Option<u64>, int), Failure>(
            (Some(n), pos + head_len(n)),
        ),
        number(s, pos + 1, info_in(s[pos])) == Ok::<(u64, int), Failure>((n, pos + head_len(n))),
{
    limits();
    let h = head(major, n);
    let info: u8 = if n <= 23 {
        n as u8
    } else if n <= 0xff {
        24
    } else if n <= 0xffff {
        25
    } else if n <= 0xffff_ffff {
        26
    } else {
        27
    };
    initial_byte_parts(major, info);
    let width: nat = if n <= 23 {
        0
    } else {
        width_of(info)
    };
    big_endian_spells(n as nat, if width == 0 { 8 } else { width });
    if n > 23 {
        big_endian_spells(n as nat, width);
    }
    assert(h =~= seq![initial_byte(major, info)] + big_endian(n as nat, width));
    assert(h.len() == 1 + width);
    assert(s[pos] == s.subrange(pos, pos + h.len())[0]);
    assert(s[pos] == initial_byte(major, info));
    if n > 23 {
        assert(s.subrange(pos + 1, pos + 1 + width) =~= s.subrange(pos, pos + h.len()).subrange(
            1,
            1 + width as int,
        ));
        assert(h.subrange(1, 1 + width as int) =~= big_endian(n as nat, width));
    }
}

/// Whether the bytes `e` stand in `s` from `pos` on.
pub open spec fn holds(s: Seq<u8>, pos: int, e: Seq<u8>) -> bool {
    0 <= pos && pos + e.len() <= s.len() && s.subrange(pos, pos + e.len()) == e
}

/// Whether `a` is what `b` begins with.
pub open spec fn is_prefix(a: Seq<u8>, b: Seq<u8>) -> bool {
    a.len() <= b.len() && b.subrange(0, a.len() as int) == a
}

proof fn holds_splits(s: Seq<u8>, pos: int, a: Seq<u8>, b: Seq<u8>)
    requires
        holds(s, pos, a + b),
    ensures
        holds(s, pos, a),
        holds(s, pos + a.len(), b),
{
    let whole = a + b;
    assert(s.subrange(pos, pos + a.len()) =~= whole.subrange(0, a.len() as int));
    assert(whole.subrange(0, a.len() as int) =~= a);
    assert(s.subrange(pos + a.len(), pos + a.len() + b.len()) =~= whole.subrange(
        a.len() as int,
        whole.len() as int,
    ));
    assert(whole.subrange(a.len() as int, whole.len() as int) =~= b);
}

proof fn holds_prefix(s: Seq<u8>, pos: int, whole: Seq<u8>, part: Seq<u8>)
    requires
        holds(s, pos, whole),
        is_prefix(part, whole),
    ensures
        holds(s, pos, part),
{
    assert(s.subrange(pos, pos + part.len()) =~= whole.subrange(0, part.len() as int));
}

proof fn prefix_of_sum(a: Seq<u8>, b: Seq<u8>)
    ensures
        is_prefix(a, a + b),
{
    assert((a + b).subrange(0, a.len() as int) =~= a);
}

proof fn prefix_is_transitive(a: Seq<u8>, b: Seq<u8>, c: Seq<u8>)
    requires
        is_prefix(a, b),
        is_prefix(b, c),
    ensures
        is_prefix(a, c),
{
    assert(c.subrange(0, a.len() as int) =~= b.subrange(0, a.len() as int));
}

/// The encoding of the first items is what the encoding of more items
/// begins with.
proof fn items_encoding_grows(items: Seq<Item>, k: nat, n: nat)
    requires
        k <= n <= items.len(),
    ensures
        is_prefix(items_encoding(items, k), items_encoding(items, n)),
    decreases n - k,
{
    if k < n {
        items_encoding_grows(items, k, (n - 1) as nat);
        prefix_of_sum(items_encoding(items, (n - 1) as nat), encoding(items[n - 1]));
        prefix_is_transitive(
            items_encoding(items, k),
            items_encoding(items, (n - 1) as nat),
            items_encoding(items, n),
        );
    } else {
        assert(items_encoding(items, n).subrange(0, items_encoding(items, k).len() as int)
            =~= items_encoding(items, k));
    }
}

/// The encoding of the first entries is what the encoding of more entries
/// begins with.
proof fn entries_encoding_grows(entries: Seq<(Item, Item)>, k: nat, n: nat)
    requires
        k <= n <= entries.len(),
    ensures
        is_prefix(entries_encoding(entries, k), entries_encoding(entries, n)),
    decreases n - k,
{
    if k < n {
        entries_encoding_grows(entries, k, (n - 1) as nat);
        let before = entries_encoding(entries, (n - 1) as nat);
        let one = encoding(entries[n - 1].0) + encoding(entries[n - 1].1);
        assert(entries_encoding(entries, n) =~= before + one);
        prefix_of_sum(before, one);
        prefix_is_transitive(
            entries_encoding(entries, k),
            before,
            entries_encoding(entries, n),
        );
    } else {
        assert(entries_encoding(entries, n).subrange(
            0,
            entries_encoding(entries, k).len() as int,
        ) =~= entries_encoding(entries, k));
    }
}

/// The encoding of the first chunks is what the encoding of all chunks
/// begins with.
proof fn chunks_encoding_grows(major: u8, chunks: Seq<Seq<u8>>, k: int)
    requires
        0 <= k <= chunks.len(),
    ensures
        is_prefix(
            chunks_encoding(major, chunks.subrange(0, k)),
            chunks_encoding(major, chunks),
        ),
    decreases chunks.len() - k,
{
    if k < chunks.len() {
        chunks_encoding_grows(major, chunks, k + 1);
        let more = chunks.subrange(0, k + 1);
        assert(more.drop_last() =~= chunks.subrange(0, k));
        prefix_of_sum(
            chunks_encoding(major, chunks.subrange(0, k)),
            definite_string(major, more.last()),
        );
        prefix_is_transitive(
            chunks_encoding(major, chunks.subrange(0, k)),
            chunks_encoding(major, more),
            chunks_encoding(major, chunks),
        );
    } else {
        assert(chunks.subrange(0, k) =~= chunks);
        assert(chunks_encoding(major, chunks).subrange(
            0,
            chunks_encoding(major, chunks).len() as int,
        ) =~= chunks_encoding(major, chunks));
    }
}

/// Where a definite-length string stands in the bytes, its bytes are read
/// back as they were written.
proof fn definite_string_is_read_back(s: Seq<u8>, pos: int, major: u8, bytes: Seq<u8>)
    requires
        major == 2 || major == 3,
        bytes.len() <= u64::MAX,
        holds(s, pos, definite_string(major, bytes)),
    ensures
        major_in(s[pos]) == major,
        s[pos] != BREAK,
        number(s, pos + 1, info_in(s[pos])) == Ok::<(u64, int), Failure>(
            (bytes.len() as u64, pos + head_len(bytes.len() as u64)),
        ),
        definite_string(major, bytes).len() == head_len(bytes.len() as u64) + bytes.len(),
        take(s, pos + head_len(bytes.len() as u64), bytes.len()) == Ok::<(Seq<u8>, int), Failure>(
            (bytes, pos + definite_string(major, bytes).len()),
        ),
{
    let n = bytes.len() as u64;
    holds_splits(s, pos, head(major, n), bytes);
    head_is_read_back(s, pos, major, n);
}

/// Where the chunks of an indefinite-length string stand in the bytes with
/// the break behind them, they are read back as they were written.
proof fn chunks_are_read_back(s: Seq<u8>, start: int, major: u8, chunks: Seq<Seq<u8>>, k: int)
    requires
        major == 2 || major == 3,
        0 <= k <= chunks.len(),
        forall|i: int| 0 <= i < chunks.len() ==> (#[trigger] chunks[i]).len() <= u64::MAX,
        holds(s, start, chunks_encoding(major, chunks) + seq![BREAK]),
    ensures
        parse_chunks(
            s,
            start + chunks_encoding(major, chunks.subrange(0, k)).len(),
            major,
            chunks.subrange(0, k),
        ) == Ok::<(Seq<Seq<u8>>, int), Failure>(
            (chunks, start + chunks_encoding(major, chunks).len()),
        ),
    decreases chunks.len() - k,
{
    let all = chunks_encoding(major, chunks);
    let done = chunks_encoding(major, chunks.subrange(0, k));
    let here = start + done.len();
    holds_splits(s, start, all, seq![BREAK]);
    chunks_encoding_grows(major, chunks, k);
    if k == chunks.len() {
        assert(chunks.subrange(0, k) =~= chunks);
        assert(s[here] == s.subrange(here, here + 1)[0]);
    } else {
        let more = chunks.subrange(0, k + 1);
        assert(more.drop_last() =~= chunks.subrange(0, k));
        assert(more.last() == chunks[k]);
        chunks_encoding_grows(major, chunks, k + 1);
        holds_prefix(s, start, all, chunks_encoding(major, more));
        holds_splits(s, start, done, definite_string(major, chunks[k]));
        definite_string_is_read_back(s, here, major, chunks[k]);
        chunks_are_read_back(s, start, major, chunks, k + 1);
        assert(chunks.subrange(0, k).push(chunks[k]) =~= more);
    }
}

/// The chunks of a sequence of one chunk, joined, are that chunk.
proof fn joined_of_one<T>(chunks: Seq<Seq<T>>)
    requires
        chunks.len() == 1,
    ensures
        joined(chunks) == chunks[0],
{
    assert(chunks.drop_last() =~= Seq::<Seq<T>>::empty());
    assert(joined(chunks.drop_last()) =~= Seq::<T>::empty());
    assert(joined(chunks) =~= chunks[0]);
}

/// Where a byte or text string stands in the bytes, its payload is read
/// back as it was written.
proof fn string_is_read_back(s: Seq<u8>, pos: int, major: u8, indefinite: bool, chunks: Seq<Seq<u8>>)
    requires
        major == 2 || major == 3,
        indefinite || chunks.len() == 1,
        forall|i: int| 0 <= i < chunks.len() ==> (#[trigger] chunks[i]).len() <= u64::MAX,
        holds(s, pos, string_encoding(major, indefinite, chunks)),
    ensures
        0 <= pos < s.len(),
        major_in(s[pos]) == major,
        s[pos] != BREAK,
        parse_string(s, pos + 1, major, info_in(s[pos])) == Ok::<
            ((bool, Seq<Seq<u8>>), int),
            Failure,
        >(((indefinite, chunks), pos + string_encoding(major, indefinite, chunks).len())),
{
    if indefinite {
        let first = seq![initial_byte(major, 31)];
        let inner = chunks_encoding(major, chunks) + seq![BREAK];
        assert(string_encoding(major, indefinite, chunks) =~= first + inner);
        holds_splits(s, pos, first, inner);
        initial_byte_parts(major, 31);
        assert(s[pos] == s.subrange(pos, pos + 1)[0]);
        chunks_are_read_back(s, pos + 1, major, chunks, 0);
        assert(chunks.subrange(0, 0) =~= Seq::<Seq<u8>>::empty());
    } else {
        joined_of_one(chunks);
        definite_string_is_read_back(s, pos, major, chunks[0]);
        assert(chunks =~= seq![chunks[0]]);
    }
}

/// Where the encoding of a floating-point number stands in the bytes, the
/// number is read back as it was written.
proof fn float_is_read_back(s: Seq<u8>, pos: int, bits: u64)
    requires
        holds(s, pos, float_encoding(7, bits)),
    ensures
        0 <= pos < s.len(),
        s[pos] != BREAK,
        parse_item(s, pos) == Ok::<(Item, int), Failure>(
            (Item::Floating(bits), pos + float_encoding(7, bits).len()),
        ),
{
    limits();
    let e = float_encoding(7, bits);
    match narrow_to_half(bits) {
        Some(h) => {
            initial_byte_parts(7, 25);
            big_endian_spells(h as nat, 2);
            holds_splits(s, pos, seq![initial_byte(7, 25)], big_endian(h as nat, 2));
            assert(s[pos] == s.subrange(pos, pos + 1)[0]);
        },
        None => match narrow_to_single(bits) {
            Some(x) => {
                initial_byte_parts(7, 26);
                big_endian_spells(x as nat, 4);
                holds_splits(s, pos, seq![initial_byte(7, 26)], big_endian(x as nat, 4));
                assert(s[pos] == s.subrange(pos, pos + 1)[0]);
            },
            None => {
                initial_byte_parts(7, 27);
                big_endian_spells(bits as nat, 8);
                holds_splits(s, pos, seq![initial_byte(7, 27)], big_endian(bits as nat, 8));
                assert(s[pos] == s.subrange(pos, pos + 1)[0]);
            },
        },
    }
}

/// Decoding undoes encoding: where the encoding of a well-formed item
/// stands in the bytes, decoding from there yields that item and the place
/// behind the encoding. The encoding is not empty and does not begin with
/// the break byte.
pub proof fn item_is_read_back(s: Seq<u8>, pos: int, v: Item)
    requires
        well_formed(v),
        holds(s, pos, encoding(v)),
    ensures
        0 <= pos < s.len(),
        s[pos] != BREAK,
        parse_item(s, pos) == Ok::<(Item, int), Failure>((v, pos + encoding(v).len())),
    decreases v, 0nat,
{
    match v {
        Item::Unsigned(n) => {
            head_is_read_back(s, pos, 0, n);
        },
        Item::Signed(n) => {
            head_is_read_back(s, pos, 1, n);
        },
        Item::Byte { indefinite, chunks } => {
            string_is_read_back(s, pos, 2, indefinite, chunks);
        },
        Item::Text { indefinite, chunks } => {
            let bytes = utf8_chunks(chunks);
            string_is_read_back(s, pos, 3, indefinite, bytes);
            assert forall|i: int| 0 <= i < bytes.len() implies vstd::utf8::valid_utf8(
                #[trigger] bytes[i],
            ) by {
                vstd::utf8::encode_utf8_valid_utf8(chunks[i]);
            }
            assert forall|i: int| 0 <= i < chunks.len() implies #[trigger] texts_of(bytes)[i]
                == chunks[i] by {
                vstd::utf8::encode_utf8_decode_utf8(chunks[i]);
            }
            assert(texts_of(bytes) =~= chunks);
        },
        Item::Array { indefinite, items } => {
            let open = opening(4, indefinite, items.len());
            let inner = items_encoding(items, items.len());
            let close = closing(indefinite);
            assert(encoding(v) =~= open + (inner + close));
            holds_splits(s, pos, open, inner + close);
            assert(s[pos] == s.subrange(pos, pos + open.len())[0]);
            assert(items.subrange(0, 0) =~= Seq::<Item>::empty());
            if indefinite {
                initial_byte_parts(4, 31);
                open_items_are_read_back(s, pos + 1, items, 0);
            } else {
                head_is_read_back(s, pos, 4, items.len() as u64);
                holds_splits(s, pos + open.len(), inner, close);
                items_are_read_back(s, pos + open.len(), items, 0);
            }
        },
        Item::Mapping { indefinite, entries } => {
            let open = opening(5, indefinite, entries.len());
            let inner = entries_encoding(entries, entries.len());
            let close = closing(indefinite);
            assert(encoding(v) =~= open + (inner + close));
            holds_splits(s, pos, open, inner + close);
            assert(s[pos] == s.subrange(pos, pos + open.len())[0]);
            assert(entries.subrange(0, 0) =~= Seq::<(Item, Item)>::empty());
            if indefinite {
                initial_byte_parts(5, 31);
                open_entries_are_read_back(s, pos + 1, entries, 0);
            } else {
                head_is_read_back(s, pos, 5, entries.len() as u64);
                holds_splits(s, pos + open.len(), inner, close);
                entries_are_read_back(s, pos + open.len(), entries, 0);
            }
        },
        Item::Tag { number, content } => {
            holds_splits(s, pos, head(6, number), encoding(*content));
            head_is_read_back(s, pos, 6, number);
            item_is_read_back(s, pos + head_len(number), *content);
        },
        Item::Boolean(b) => {
            initial_byte_parts(7, if b { 21u8 } else { 20u8 });
            assert(s[pos] == s.subrange(pos, pos + 1)[0]);
        },
        Item::Null => {
            initial_byte_parts(7, 22);
            assert(s[pos] == s.subrange(pos, pos + 1)[0]);
        },
        Item::Undefined => {
            initial_byte_parts(7, 23);
            assert(s[pos] == s.subrange(pos, pos + 1)[0]);
        },
        Item::Floating(bits) => {
            float_is_read_back(s, pos, bits);
        },
        Item::GenericSimple(n) => {
            if n <= 23 {
                initial_byte_parts(7, n);
                assert(s[pos] == s.subrange(pos, pos + 1)[0]);
            } else {
                initial_byte_parts(7, 24);
                assert(s[pos] == s.subrange(pos, pos + 2)[0]);
                assert(s[pos + 1] == s.subrange(pos, pos + 2)[1]);
            }
        },
    }
}

/// Where the items of a definite-length array stand in the bytes, they are
/// read back as they were written.
proof fn items_are_read_back(s: Seq<u8>, start: int, items: Seq<Item>, k: nat)
    requires
        k <= items.len(),
        forall|i: int| 0 <= i < items.len() ==> well_formed(#[trigger] items[i]),
        holds(s, start, items_encoding(items, items.len())),
    ensures
        parse_items(
            s,
            start + items_encoding(items, k).len(),
            (items.len() - k) as nat,
            items.subrange(0, k as int),
        ) == Ok::<(Seq<Item>, int), Failure>(
            (items, start + items_encoding(items, items.len()).len()),
        ),
    decreases items, items.len() - k,
{
    let all = items_encoding(items, items.len());
    let done = items_encoding(items, k);
    let here = start + done.len();
    items_encoding_grows(items, k, items.len());
    if k == items.len() {
        assert(items.subrange(0, k as int) =~= items);
    } else {
        items_encoding_grows(items, k + 1, items.len());
        holds_prefix(s, start, all, items_encoding(items, k + 1));
        holds_splits(s, start, done, encoding(items[k as int]));
        item_is_read_back(s, here, items[k as int]);
        items_are_read_back(s, start, items, k + 1);
        assert(items.subrange(0, k as int).push(items[k as int]) =~= items.subrange(0, k as int + 1));
    }
}

/// Where the items of an indefinite-length array stand in the bytes with
/// the break behind them, they are read back as they were written.
proof fn open_items_are_read_back(s: Seq<u8>, start: int, items: Seq<Item>, k: nat)
    requires
        k <= items.len(),
        forall|i: int| 0 <= i < items.len() ==> well_formed(#[trigger] items[i]),
        holds(s, start, items_encoding(items, items.len()) + seq![BREAK]),
    ensures
        parse_open_items(s, start + items_encoding(items, k).len(), items.subrange(0, k as int))
            == Ok::<(Seq<Item>, int), Failure>(
            (items, start + items_encoding(items, items.len()).len()),
        ),
    decreases items, items.len() - k,
{
    let all = items_encoding(items, items.len());
    let done = items_encoding(items, k);
    let here = start + done.len();
    holds_splits(s, start, all, seq![BREAK]);
    items_encoding_grows(items, k, items.len());
    if k == items.len() {
        assert(items.subrange(0, k as int) =~= items);
        assert(s[here] == s.subrange(here, here + 1)[0]);
    } else {
        items_encoding_grows(items, k + 1, items.len());
        holds_prefix(s, start, all, items_encoding(items, k + 1));
        holds_splits(s, start, done, encoding(items[k as int]));
        item_is_read_back(s, here, items[k as int]);
        open_items_are_read_back(s, start, items, k + 1);
        assert(items.subrange(0, k as int).push(items[k as int]) =~= items.subrange(0, k as int + 1));
    }
}

/// Where an entry of a map stands in the bytes, it is read back as it was
/// written, no key before it being like its key.
#[verifier::rlimit(60)]
#[verifier::spinoff_prover]
proof fn entry_is_read_back(s: Seq<u8>, start: int, entries: Seq<(Item, Item)>, k: nat)
    requires
        k < entries.len(),
        !has_key(entries.subrange(0, k as int), entries[k as int].0),
        well_formed(entries[k as int].0),
        well_formed(entries[k as int].1),
        holds(s, start, entries_encoding(entries, entries.len())),
    ensures
        0 <= start + entries_encoding(entries, k).len() < s.len(),
        s[start + entries_encoding(entries, k).len()] != BREAK,
        parse_entry(s, start + entries_encoding(entries, k).len(), entries.subrange(0, k as int))
            == Ok::<((Item, Item), int), Failure>(
            (entries[k as int], start + entries_encoding(entries, k + 1).len()),
        ),
        entries_encoding(entries, k + 1).len() > entries_encoding(entries, k).len(),
    decreases entries, 0nat, 0nat,
{
    let all = entries_encoding(entries, entries.len());
    let done = entries_encoding(entries, k);
    let here = start + done.len();
    let key = entries[k as int].0;
    let value = entries[k as int].1;
    entries_encoding_grows(entries, k + 1, entries.len());
    holds_prefix(s, start, all, entries_encoding(entries, k + 1));
    assert(entries_encoding(entries, k + 1) =~= done + (encoding(key) + encoding(value)));
    holds_splits(s, start, done, encoding(key) + encoding(value));
    holds_splits(s, here, encoding(key), encoding(value));
    item_is_read_back(s, here, key);
    let middle = here + encoding(key).len();
    item_is_read_back(s, middle, value);
    assert(parse_item(s, here) == Ok::<(Item, int), Failure>((key, middle)));
    assert(parse_item(s, middle) == Ok::<(Item, int), Failure>(
        (value, middle + encoding(value).len()),
    ));
    assert(entries[k as int] == (key, value));
}

/// Where the entries of a definite-length map stand in the bytes, they are
/// read back as they were written.
proof fn entries_are_read_back(s: Seq<u8>, start: int, entries: Seq<(Item, Item)>, k: nat)
    requires
        k <= entries.len(),
        fresh(entries),
        forall|i: int|
            0 <= i < entries.len() ==> well_formed((#[trigger] entries[i]).0) && well_formed(
                entries[i].1,
            ),
        holds(s, start, entries_encoding(entries, entries.len())),
    ensures
        parse_entries(
            s,
            start + entries_encoding(entries, k).len(),
            (entries.len() - k) as nat,
            entries.subrange(0, k as int),
        ) == Ok::<(Seq<(Item, Item)>, int), Failure>(
            (entries, start + entries_encoding(entries, entries.len()).len()),
        ),
    decreases entries, 1nat, entries.len() - k,
{
    if k == entries.len() {
        assert(entries.subrange(0, k as int) =~= entries);
    } else {
        assert(place_of(entries.subrange(0, k as int), entries[k as int].0) == k);
        entry_is_read_back(s, start, entries, k);
        entries_are_read_back(s, start, entries, k + 1);
        assert(entries.subrange(0, k as int).push(entries[k as int]) =~= entries.subrange(
            0,
            k as int + 1,
        ));
    }
}

/// Where the entries of an indefinite-length map stand in the bytes with
/// the break behind them, they are read back as they were written.
proof fn open_entries_are_read_back(s: Seq<u8>, start: int, entries: Seq<(Item, Item)>, k: nat)
    requires
        k <= entries.len(),
        fresh(entries),
        forall|i: int|
            0 <= i < entries.len() ==> well_formed((#[trigger] entries[i]).0) && well_formed(
                entries[i].1,
            ),
        holds(s, start, entries_encoding(entries, entries.len()) + seq![BREAK]),
    ensures
        parse_open_entries(
            s,
            start + entries_encoding(entries, k).len(),
            entries.subrange(0, k as int),
        ) == Ok::<(Seq<(Item, Item)>, int), Failure>(
            (entries, start + entries_encoding(entries, entries.len()).len()),
        ),
    decreases entries, 1nat, entries.len() - k,
{
    let all = entries_encoding(entries, entries.len());
    let here = start + entries_encoding(entries, k).len();
    holds_splits(s, start, all, seq![BREAK]);
    entries_encoding_grows(entries, k, entries.len());
    if k == entries.len() {
        assert(entries.subrange(0, k as int) =~= entries);
        assert(s[here] == s.subrange(here, here + 1)[0]);
    } else {
        assert(place_of(entries.subrange(0, k as int), entries[k as int].0) == k);
        entry_is_read_back(s, start, entries, k);
        open_entries_are_read_back(s, start, entries, k + 1);
        assert(entries.subrange(0, k as int).push(entries[k as int]) =~= entries.subrange(
            0,
            k as int + 1,
        ));
    }
}

/// No two well-formed items share an encoding.
pub proof fn encoding_is_injective(a: Item, b: Item)
    requires
        well_formed(a),
        well_formed(b),
        encoding(a) == encoding(b),
    ensures
        a == b,
{
    decoding_undoes_encoding(a, Seq::empty());
    decoding_undoes_encoding(b, Seq::empty());
}

/// Encoding undoes decoding on the bytes that are the encoding of a
/// well-formed item: decoding them and encoding what was decoded yields the
/// same bytes. On other bytes it need not: decoding also takes an argument
/// or a number in a longer form than the encoder would write, makes a
/// signalling NaN quiet, and takes no notice of bytes behind the item.
pub proof fn encoding_undoes_decoding(b: Seq<u8>, w: Item)
    requires
        well_formed(w),
        b == encoding(w),
    ensures
        parse_item(b, 0) is Ok,
        parse_item(b, 0)->Ok_0.1 == b.len(),
        encoding(parse_item(b, 0)->Ok_0.0) == b,
{
    assert(b.subrange(0, b.len() as int) =~= b);
    item_is_read_back(b, 0, w);
}

/// Bytes that decode to an item whose encoding they are, are the encoding
/// of a well-formed item: encoding undoes decoding on no other bytes than
/// those.
pub proof fn read_back_bytes_are_an_encoding(b: Seq<u8>)
    requires
        parse_item(b, 0) is Ok,
        encoding(parse_item(b, 0)->Ok_0.0) == b,
    ensures
        well_formed(parse_item(b, 0)->Ok_0.0),
{
    crate::well_formed::parsed_item_is_well_formed(b, 0);
}

/// Decoding the bytes of a well-formed item, whatever follows them, yields
/// that item.
pub proof fn decoding_undoes_encoding(v: Item, rest: Seq<u8>)
    requires
        well_formed(v),
    ensures
        parse_item(encoding(v) + rest, 0) == Ok::<(Item, int), Failure>((v, encoding(v).len() as int)),
{
    let s = encoding(v) + rest;
    assert(s.subrange(0, encoding(v).len() as int) =~= encoding(v));
    item_is_read_back(s, 0, v);
}

} // verus!

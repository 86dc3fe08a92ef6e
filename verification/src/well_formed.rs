//! What decoding yields is well formed.
use vstd::prelude::*;
use crate::content::joined;
use crate::encode::BREAK;
use crate::grammar::{all_utf8, argument, has_key, info_in, major_in, number, parse_chunks, parse_entries, parse_entry, parse_item, parse_items, parse_open_entries, parse_open_items, parse_string, rest, take, texts_of};
use crate::model::{alike, fresh, place_of, well_formed, Item};

verus! {

/// Entries without a key that is like a key before it stay so when an
/// entry follows whose key is like none of theirs.
proof fn fresh_grows(acc: Seq<(Item, Item)>, entry: (Item, Item))
    requires
        fresh(acc),
        !has_key(acc, entry.0),
    ensures
        fresh(acc.push(entry)),
{
    crate::model::place_is_bounded(acc, entry.0);
    let more = acc.push(entry);
    assert forall|i: int| 0 <= i < more.len() implies place_of(
        more.subrange(0, i),
        (#[trigger] more[i]).0,
    ) == i by {
        if i < acc.len() {
            assert(more.subrange(0, i) =~= acc.subrange(0, i));
            assert(more[i] == acc[i]);
        } else {
            assert(more.subrange(0, i) =~= acc);
        }
    }
}

/// A well-formed item is like itself, and each key of a well-formed map
/// stands at its own place.
pub proof fn alike_is_reflexive(v: Item)
    requires
        well_formed(v),
    ensures
        alike(v, v),
    decreases v,
{
    match v {
        Item::Array { indefinite, items } => {
            assert forall|k: int| 0 <= k < items.len() implies alike(#[trigger] items[k], items[k]) by {
                alike_is_reflexive(items[k]);
            }
        },
        Item::Mapping { indefinite, entries } => {
            assert forall|k: int| 0 <= k < entries.len() implies {
                let at = place_of(entries, (#[trigger] entries[k]).0);
                at < entries.len() && alike(entries[k].1, entries[at].1)
            } by {
                alike_is_reflexive(entries[k].0);
                alike_is_reflexive(entries[k].1);
                own_place(entries, k);
            }
        },
        Item::Tag { number, content } => {
            alike_is_reflexive(*content);
        },
        _ => {},
    }
}

/// Where no key is like a key before it, a key that is like itself stands
/// at its own place.
pub proof fn own_place(entries: Seq<(Item, Item)>, k: int)
    requires
        fresh(entries),
        0 <= k < entries.len(),
        alike(entries[k].0, entries[k].0),
    ensures
        place_of(entries, entries[k].0) == k,
{
    assert(place_of(entries.subrange(0, k), entries[k].0) == k);
    place_of_longer(entries, k, entries[k].0);
}

/// A key that is like none of the first `k` entries and like the entry at
/// `k` has its place at `k`.
proof fn place_of_longer(entries: Seq<(Item, Item)>, k: int, key: Item)
    requires
        0 <= k < entries.len(),
        place_of(entries.subrange(0, k), key) == k,
        alike(key, entries[k].0),
    ensures
        place_of(entries, key) == k,
    decreases k,
{
    if k > 0 {
        let head = entries.subrange(0, k);
        assert(head.first() == entries.first());
        crate::model::place_is_bounded(head.drop_first(), key);
        assert(head.drop_first() =~= entries.drop_first().subrange(0, k - 1));
        assert(entries.drop_first()[k - 1] == entries[k]);
        place_of_longer(entries.drop_first(), k - 1, key);
    }
}

/// Chunks that are UTF-8 each are UTF-8 when joined: text is refused only
/// where all its bytes together are no text, or a chunk ends inside a
/// character.
pub proof fn text_chunks_join_to_text(chunks: Seq<Seq<u8>>)
    requires
        all_utf8(chunks),
    ensures
        vstd::utf8::valid_utf8(joined(chunks)),
    decreases chunks.len(),
{
    if chunks.len() > 0 {
        let before = chunks.drop_last();
        assert forall|i: int| 0 <= i < before.len() implies vstd::utf8::valid_utf8(
            #[trigger] before[i],
        ) by {
            assert(before[i] == chunks[i]);
        }
        text_chunks_join_to_text(before);
        assert(vstd::utf8::valid_utf8(chunks[chunks.len() - 1]));
        vstd::utf8::valid_utf8_concat(joined(before), chunks.last());
    } else {
        assert(joined(chunks) =~= Seq::<u8>::empty());
    }
}

/// Whether each chunk is short enough for its length to be an argument.
pub open spec fn chunks_fit(chunks: Seq<Seq<u8>>) -> bool {
    forall|i: int| 0 <= i < chunks.len() ==> (#[trigger] chunks[i]).len() <= u64::MAX
}

/// Whether each item is well formed.
pub open spec fn all_well_formed(items: Seq<Item>) -> bool {
    forall|i: int| 0 <= i < items.len() ==> well_formed(#[trigger] items[i])
}

/// Whether the key and the value of each entry are well formed.
pub open spec fn entries_well_formed(entries: Seq<(Item, Item)>) -> bool {
    forall|i: int|
        0 <= i < entries.len() ==> well_formed((#[trigger] entries[i]).0) && well_formed(
            entries[i].1,
        )
}

proof fn chunks_fit_grows(acc: Seq<Seq<u8>>, bytes: Seq<u8>)
    requires
        chunks_fit(acc),
        bytes.len() <= u64::MAX,
    ensures
        chunks_fit(acc.push(bytes)),
{
    let more = acc.push(bytes);
    assert forall|i: int| 0 <= i < more.len() implies (#[trigger] more[i]).len() <= u64::MAX by {
        if i < acc.len() {
            assert(more[i] == acc[i]);
        }
    }
}

proof fn all_well_formed_grows(acc: Seq<Item>, item: Item)
    requires
        all_well_formed(acc),
        well_formed(item),
    ensures
        all_well_formed(acc.push(item)),
{
    let more = acc.push(item);
    assert forall|i: int| 0 <= i < more.len() implies well_formed(#[trigger] more[i]) by {
        if i < acc.len() {
            assert(more[i] == acc[i]);
        }
    }
}

proof fn entries_well_formed_grows(acc: Seq<(Item, Item)>, entry: (Item, Item))
    requires
        entries_well_formed(acc),
        well_formed(entry.0),
        well_formed(entry.1),
    ensures
        entries_well_formed(acc.push(entry)),
{
    let more = acc.push(entry);
    assert forall|i: int| 0 <= i < more.len() implies well_formed((#[trigger] more[i]).0)
        && well_formed(more[i].1) by {
        if i < acc.len() {
            assert(more[i] == acc[i]);
        }
    }
}

/// The chunks read from an indefinite-length string are short enough.
proof fn parsed_chunks_fit(s: Seq<u8>, pos: int, major: u8, acc: Seq<Seq<u8>>)
    requires
        chunks_fit(acc),
    ensures
        match parse_chunks(s, pos, major, acc) {
            Ok((chunks, at)) => chunks_fit(chunks) && pos <= at < s.len(),
            Err(_) => true,
        },
    decreases rest(s, pos),
{
    if 0 <= pos < s.len() && s[pos] != BREAK && major_in(s[pos]) == major {
        match number(s, pos + 1, info_in(s[pos])) {
            Err(_) => {},
            Ok((n, p)) => match take(s, p, n as nat) {
                Err(_) => {},
                Ok((bytes, next)) => {
                    chunks_fit_grows(acc, bytes);
                    parsed_chunks_fit(s, next, major, acc.push(bytes));
                },
            },
        }
    }
}

/// The payload read from a string has one chunk where it is definite, and
/// chunks that are short enough.
proof fn parsed_string_fits(s: Seq<u8>, pos: int, major: u8, info: u8)
    requires
        0 <= pos <= s.len(),
    ensures
        match parse_string(s, pos, major, info) {
            Ok(((indefinite, chunks), next)) => (indefinite || chunks.len() == 1) && chunks_fit(
                chunks,
            ) && pos <= next <= s.len(),
            Err(_) => true,
        },
{
    match argument(s, pos, info) {
        Ok((None, p)) => {
            parsed_chunks_fit(s, p, major, Seq::empty());
        },
        _ => {},
    }
}

/// What decoding yields is well formed, and stands in one byte at least.
pub proof fn parsed_item_is_well_formed(s: Seq<u8>, pos: int)
    ensures
        match parse_item(s, pos) {
            Ok((v, next)) => well_formed(v) && 0 <= pos < next <= s.len(),
            Err(_) => true,
        },
    decreases rest(s, pos), 0nat, 0nat,
{
    if 0 <= pos < s.len() {
        let major = major_in(s[pos]);
        let info = info_in(s[pos]);
        let p = pos + 1;
        if major == 2 {
            parsed_string_fits(s, p, major, info);
        } else if major == 3 {
            parsed_string_fits(s, p, major, info);
            match parse_string(s, p, major, info) {
                Ok(((indefinite, chunks), next)) => {
                    if all_utf8(chunks) {
                        let written = texts_of(chunks);
                        assert forall|i: int| 0 <= i < written.len() implies vstd::utf8::encode_utf8(
                            #[trigger] written[i],
                        ).len() <= u64::MAX by {
                            vstd::utf8::decode_utf8_encode_utf8(chunks[i]);
                        }
                    }
                },
                Err(_) => {},
            }
        } else if major == 4 {
            match argument(s, p, info) {
                Ok((Some(n), q)) => {
                    if q > pos {
                        parsed_items_are_well_formed(s, q, n as nat, Seq::empty());
                    }
                },
                Ok((None, q)) => {
                    if q > pos {
                        parsed_open_items_are_well_formed(s, q, Seq::empty());
                    }
                },
                Err(_) => {},
            }
        } else if major == 5 {
            match argument(s, p, info) {
                Ok((Some(n), q)) => {
                    if q > pos {
                        parsed_entries_are_well_formed(s, q, n as nat, Seq::empty());
                    }
                },
                Ok((None, q)) => {
                    if q > pos {
                        parsed_open_entries_are_well_formed(s, q, Seq::empty());
                    }
                },
                Err(_) => {},
            }
        } else if major == 6 {
            match number(s, p, info) {
                Ok((n, q)) => {
                    if q > pos {
                        parsed_item_is_well_formed(s, q);
                    }
                },
                Err(_) => {},
            }
        }
    }
}

/// The items read for a definite-length array are well formed and as many
/// as were asked for.
proof fn parsed_items_are_well_formed(s: Seq<u8>, pos: int, count: nat, acc: Seq<Item>)
    requires
        all_well_formed(acc),
        0 <= pos <= s.len(),
    ensures
        match parse_items(s, pos, count, acc) {
            Ok((items, next)) => all_well_formed(items) && items.len() == acc.len() + count
                && pos <= next <= s.len(),
            Err(_) => true,
        },
    decreases rest(s, pos), 2nat, count,
{
    if count > 0 && pos < s.len() {
        parsed_item_is_well_formed(s, pos);
        match parse_item(s, pos) {
            Ok((item, next)) => {
                all_well_formed_grows(acc, item);
                parsed_items_are_well_formed(s, next, (count - 1) as nat, acc.push(item));
            },
            Err(_) => {},
        }
    }
}

/// The items read for an indefinite-length array are well formed.
proof fn parsed_open_items_are_well_formed(s: Seq<u8>, pos: int, acc: Seq<Item>)
    requires
        all_well_formed(acc),
        0 <= pos <= s.len(),
    ensures
        match parse_open_items(s, pos, acc) {
            Ok((items, at)) => all_well_formed(items) && pos <= at <= s.len(),
            Err(_) => true,
        },
    decreases rest(s, pos), 2nat, 0nat,
{
    if pos < s.len() && s[pos] != BREAK {
        parsed_item_is_well_formed(s, pos);
        match parse_item(s, pos) {
            Ok((item, next)) => {
                all_well_formed_grows(acc, item);
                parsed_open_items_are_well_formed(s, next, acc.push(item));
            },
            Err(_) => {},
        }
    }
}

/// The key and the value read for an entry are well formed, and the key is
/// like none before it.
proof fn parsed_entry_is_well_formed(s: Seq<u8>, pos: int, acc: Seq<(Item, Item)>)
    ensures
        match parse_entry(s, pos, acc) {
            Ok((entry, next)) => well_formed(entry.0) && well_formed(entry.1) && !has_key(
                acc,
                entry.0,
            ) && 0 <= pos < next <= s.len(),
            Err(_) => true,
        },
    decreases rest(s, pos), 1nat, 0nat,
{
    if 0 <= pos < s.len() {
        parsed_item_is_well_formed(s, pos);
        match parse_item(s, pos) {
            Ok((key, middle)) => {
                parsed_item_is_well_formed(s, middle);
            },
            Err(_) => {},
        }
    }
}

/// The entries read for a definite-length map are well formed, as many as
/// were asked for, and without a key that is like a key before it.
proof fn parsed_entries_are_well_formed(s: Seq<u8>, pos: int, count: nat, acc: Seq<(Item, Item)>)
    requires
        entries_well_formed(acc),
        fresh(acc),
        0 <= pos <= s.len(),
    ensures
        match parse_entries(s, pos, count, acc) {
            Ok((entries, next)) => entries_well_formed(entries) && fresh(entries)
                && entries.len() == acc.len() + count && pos <= next <= s.len(),
            Err(_) => true,
        },
    decreases rest(s, pos), 2nat, count,
{
    if count > 0 && pos < s.len() {
        parsed_entry_is_well_formed(s, pos, acc);
        match parse_entry(s, pos, acc) {
            Ok((entry, next)) => {
                entries_well_formed_grows(acc, entry);
                fresh_grows(acc, entry);
                parsed_entries_are_well_formed(s, next, (count - 1) as nat, acc.push(entry));
            },
            Err(_) => {},
        }
    }
}

/// The entries read for an indefinite-length map are well formed and
/// without a key that is like a key before it.
proof fn parsed_open_entries_are_well_formed(s: Seq<u8>, pos: int, acc: Seq<(Item, Item)>)
    requires
        entries_well_formed(acc),
        fresh(acc),
        0 <= pos <= s.len(),
    ensures
        match parse_open_entries(s, pos, acc) {
            Ok((entries, at)) => entries_well_formed(entries) && fresh(entries) && pos <= at
                <= s.len(),
            Err(_) => true,
        },
    decreases rest(s, pos), 2nat, 0nat,
{
    if pos < s.len() && s[pos] != BREAK {
        parsed_entry_is_well_formed(s, pos, acc);
        match parse_entry(s, pos, acc) {
            Ok((entry, next)) => {
                entries_well_formed_grows(acc, entry);
                fresh_grows(acc, entry);
                parsed_open_entries_are_well_formed(s, next, acc.push(entry));
            },
            Err(_) => {},
        }
    }
}

} // verus!

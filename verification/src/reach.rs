//! Decoding reads no byte behind the item that it yields.
use vstd::prelude::*;
use crate::encode::BREAK;
use crate::grammar::{argument, info_in, major_in, number, parse_chunks, parse_entries, parse_entry, parse_item, parse_items, parse_open_entries, parse_open_items, parse_simple, parse_string, rest, take, Failure};
use crate::model::Item;

verus! {

/// Whether `s` and `t` hold the same first `n` bytes.
pub open spec fn agree(s: Seq<u8>, t: Seq<u8>, n: int) -> bool {
    0 <= n <= s.len() && n <= t.len() && s.subrange(0, n) == t.subrange(0, n)
}

proof fn agree_shrinks(s: Seq<u8>, t: Seq<u8>, n: int, m: int)
    requires
        agree(s, t, n),
        0 <= m <= n,
    ensures
        agree(s, t, m),
{
    assert(s.subrange(0, m) =~= s.subrange(0, n).subrange(0, m));
    assert(t.subrange(0, m) =~= t.subrange(0, n).subrange(0, m));
}

proof fn agree_at(s: Seq<u8>, t: Seq<u8>, n: int, i: int)
    requires
        agree(s, t, n),
        0 <= i < n,
    ensures
        s[i] == t[i],
{
    assert(s[i] == s.subrange(0, n)[i]);
    assert(t[i] == t.subrange(0, n)[i]);
}

proof fn take_agrees(s: Seq<u8>, t: Seq<u8>, pos: int, count: nat)
    requires
        0 <= pos,
        take(s, pos, count) is Ok,
        agree(s, t, take(s, pos, count)->Ok_0.1),
    ensures
        take(t, pos, count) == take(s, pos, count),
{
    let n = pos + count;
    assert(s.subrange(pos, n) =~= s.subrange(0, n).subrange(pos, n));
    assert(t.subrange(pos, n) =~= t.subrange(0, n).subrange(pos, n));
}

proof fn argument_agrees(s: Seq<u8>, t: Seq<u8>, pos: int, info: u8)
    requires
        0 <= pos <= s.len(),
        argument(s, pos, info) is Ok,
        agree(s, t, argument(s, pos, info)->Ok_0.1),
    ensures
        argument(t, pos, info) == argument(s, pos, info),
        pos <= argument(s, pos, info)->Ok_0.1 <= s.len(),
{
    if 24 <= info <= 27 {
        take_agrees(s, t, pos, crate::grammar::width_of(info));
    }
}

proof fn number_agrees(s: Seq<u8>, t: Seq<u8>, pos: int, info: u8)
    requires
        0 <= pos <= s.len(),
        number(s, pos, info) is Ok,
        agree(s, t, number(s, pos, info)->Ok_0.1),
    ensures
        number(t, pos, info) == number(s, pos, info),
        pos <= number(s, pos, info)->Ok_0.1 <= s.len(),
{
    argument_agrees(s, t, pos, info);
}

proof fn chunks_agree(s: Seq<u8>, t: Seq<u8>, pos: int, major: u8, acc: Seq<Seq<u8>>)
    requires
        parse_chunks(s, pos, major, acc) is Ok,
        agree(s, t, parse_chunks(s, pos, major, acc)->Ok_0.1 + 1),
    ensures
        parse_chunks(t, pos, major, acc) == parse_chunks(s, pos, major, acc),
        0 <= pos <= parse_chunks(s, pos, major, acc)->Ok_0.1 < s.len(),
    decreases rest(s, pos),
{
    let end = parse_chunks(s, pos, major, acc)->Ok_0.1 + 1;
    if s[pos] == BREAK {
        agree_at(s, t, end, pos);
    } else {
        let n = number(s, pos + 1, info_in(s[pos]))->Ok_0.0;
        let p = number(s, pos + 1, info_in(s[pos]))->Ok_0.1;
        let bytes = take(s, p, n as nat)->Ok_0.0;
        let next = take(s, p, n as nat)->Ok_0.1;
        chunks_agree(s, t, next, major, acc.push(bytes));
        agree_shrinks(s, t, end, next);
        agree_shrinks(s, t, end, p);
        agree_at(s, t, end, pos);
        number_agrees(s, t, pos + 1, info_in(s[pos]));
        take_agrees(s, t, p, n as nat);
    }
}

proof fn string_agrees(s: Seq<u8>, t: Seq<u8>, pos: int, major: u8, info: u8)
    requires
        0 <= pos <= s.len(),
        parse_string(s, pos, major, info) is Ok,
        agree(s, t, parse_string(s, pos, major, info)->Ok_0.1),
    ensures
        parse_string(t, pos, major, info) == parse_string(s, pos, major, info),
        pos <= parse_string(s, pos, major, info)->Ok_0.1 <= s.len(),
{
    let end = parse_string(s, pos, major, info)->Ok_0.1;
    match argument(s, pos, info) {
        Ok((Some(n), p)) => {
            agree_shrinks(s, t, end, p);
            argument_agrees(s, t, pos, info);
            take_agrees(s, t, p, n as nat);
        },
        Ok((None, p)) => {
            chunks_agree(s, t, p, major, Seq::empty());
            agree_shrinks(s, t, end, p);
            argument_agrees(s, t, pos, info);
        },
        Err(_) => {},
    }
}

proof fn simple_agrees(s: Seq<u8>, t: Seq<u8>, pos: int, info: u8)
    requires
        0 <= pos <= s.len(),
        parse_simple(s, pos, info) is Ok,
        agree(s, t, parse_simple(s, pos, info)->Ok_0.1),
    ensures
        parse_simple(t, pos, info) == parse_simple(s, pos, info),
        pos <= parse_simple(s, pos, info)->Ok_0.1 <= s.len(),
{
    let end = parse_simple(s, pos, info)->Ok_0.1;
    if info == 24 {
        agree_at(s, t, end, pos);
    } else if 25 <= info <= 27 {
        number_agrees(s, t, pos, info);
    }
}

/// Decoding reads no byte behind the item that it yields: bytes that begin
/// like bytes that hold an item hold the same item at the same place.
pub proof fn item_agrees(s: Seq<u8>, t: Seq<u8>, pos: int)
    requires
        parse_item(s, pos) is Ok,
        agree(s, t, parse_item(s, pos)->Ok_0.1),
    ensures
        parse_item(t, pos) == parse_item(s, pos),
        0 <= pos < parse_item(s, pos)->Ok_0.1 <= s.len(),
    decreases rest(s, pos), 0nat, 0nat,
{
    let end = parse_item(s, pos)->Ok_0.1;
    let major = major_in(s[pos]);
    let info = info_in(s[pos]);
    let p = pos + 1;
    if major == 0 || major == 1 {
        number_agrees(s, t, p, info);
        agree_at(s, t, end, pos);
    } else if major == 2 || major == 3 {
        string_agrees(s, t, p, major, info);
        agree_at(s, t, end, pos);
    } else if major == 4 {
        match argument(s, p, info) {
            Ok((Some(n), q)) => {
                items_agree(s, t, q, n as nat, Seq::empty());
                agree_shrinks(s, t, end, q);
            },
            Ok((None, q)) => {
                open_items_agree(s, t, q, Seq::empty());
                agree_shrinks(s, t, end, q);
            },
            Err(_) => {},
        }
        argument_agrees(s, t, p, info);
        agree_at(s, t, end, pos);
    } else if major == 5 {
        match argument(s, p, info) {
            Ok((Some(n), q)) => {
                entries_agree(s, t, q, n as nat, Seq::empty());
                agree_shrinks(s, t, end, q);
            },
            Ok((None, q)) => {
                open_entries_agree(s, t, q, Seq::empty());
                agree_shrinks(s, t, end, q);
            },
            Err(_) => {},
        }
        argument_agrees(s, t, p, info);
        agree_at(s, t, end, pos);
    } else if major == 6 {
        let q = number(s, p, info)->Ok_0.1;
        item_agrees(s, t, q);
        agree_shrinks(s, t, end, q);
        number_agrees(s, t, p, info);
        agree_at(s, t, end, pos);
    } else {
        simple_agrees(s, t, p, info);
        agree_at(s, t, end, pos);
    }
}

proof fn items_agree(s: Seq<u8>, t: Seq<u8>, pos: int, count: nat, acc: Seq<Item>)
    requires
        0 <= pos <= s.len(),
        parse_items(s, pos, count, acc) is Ok,
        agree(s, t, parse_items(s, pos, count, acc)->Ok_0.1),
    ensures
        parse_items(t, pos, count, acc) == parse_items(s, pos, count, acc),
        pos <= parse_items(s, pos, count, acc)->Ok_0.1 <= s.len(),
    decreases rest(s, pos), 2nat, count,
{
    let end = parse_items(s, pos, count, acc)->Ok_0.1;
    if count > 0 {
        let item = parse_item(s, pos)->Ok_0.0;
        let next = parse_item(s, pos)->Ok_0.1;
        items_agree(s, t, next, (count - 1) as nat, acc.push(item));
        agree_shrinks(s, t, end, next);
        item_agrees(s, t, pos);
    }
}

proof fn open_items_agree(s: Seq<u8>, t: Seq<u8>, pos: int, acc: Seq<Item>)
    requires
        0 <= pos <= s.len(),
        parse_open_items(s, pos, acc) is Ok,
        parse_open_items(s, pos, acc)->Ok_0.1 < s.len(),
        agree(s, t, parse_open_items(s, pos, acc)->Ok_0.1 + 1),
    ensures
        parse_open_items(t, pos, acc) == parse_open_items(s, pos, acc),
        pos <= parse_open_items(s, pos, acc)->Ok_0.1,
    decreases rest(s, pos), 2nat, 0nat,
{
    let end = parse_open_items(s, pos, acc)->Ok_0.1 + 1;
    if pos >= s.len() {
    } else if s[pos] == BREAK {
        agree_at(s, t, end, pos);
    } else {
        let item = parse_item(s, pos)->Ok_0.0;
        let next = parse_item(s, pos)->Ok_0.1;
        open_items_agree(s, t, next, acc.push(item));
        agree_shrinks(s, t, end, next);
        item_agrees(s, t, pos);
        agree_at(s, t, end, pos);
    }
}

proof fn entry_agrees(s: Seq<u8>, t: Seq<u8>, pos: int, acc: Seq<(Item, Item)>)
    requires
        parse_entry(s, pos, acc) is Ok,
        agree(s, t, parse_entry(s, pos, acc)->Ok_0.1),
    ensures
        parse_entry(t, pos, acc) == parse_entry(s, pos, acc),
        0 <= pos < parse_entry(s, pos, acc)->Ok_0.1 <= s.len(),
    decreases rest(s, pos), 1nat, 0nat,
{
    let end = parse_entry(s, pos, acc)->Ok_0.1;
    let middle = parse_item(s, pos)->Ok_0.1;
    item_agrees(s, t, middle);
    agree_shrinks(s, t, end, middle);
    item_agrees(s, t, pos);
}

proof fn entries_agree(s: Seq<u8>, t: Seq<u8>, pos: int, count: nat, acc: Seq<(Item, Item)>)
    requires
        0 <= pos <= s.len(),
        parse_entries(s, pos, count, acc) is Ok,
        agree(s, t, parse_entries(s, pos, count, acc)->Ok_0.1),
    ensures
        parse_entries(t, pos, count, acc) == parse_entries(s, pos, count, acc),
        pos <= parse_entries(s, pos, count, acc)->Ok_0.1 <= s.len(),
    decreases rest(s, pos), 2nat, count,
{
    let end = parse_entries(s, pos, count, acc)->Ok_0.1;
    if count > 0 {
        let entry = parse_entry(s, pos, acc)->Ok_0.0;
        let next = parse_entry(s, pos, acc)->Ok_0.1;
        entries_agree(s, t, next, (count - 1) as nat, acc.push(entry));
        agree_shrinks(s, t, end, next);
        entry_agrees(s, t, pos, acc);
    }
}

proof fn open_entries_agree(s: Seq<u8>, t: Seq<u8>, pos: int, acc: Seq<(Item, Item)>)
    requires
        0 <= pos <= s.len(),
        parse_open_entries(s, pos, acc) is Ok,
        parse_open_entries(s, pos, acc)->Ok_0.1 < s.len(),
        agree(s, t, parse_open_entries(s, pos, acc)->Ok_0.1 + 1),
    ensures
        parse_open_entries(t, pos, acc) == parse_open_entries(s, pos, acc),
        pos <= parse_open_entries(s, pos, acc)->Ok_0.1,
    decreases rest(s, pos), 2nat, 0nat,
{
    let end = parse_open_entries(s, pos, acc)->Ok_0.1 + 1;
    if pos >= s.len() {
    } else if s[pos] == BREAK {
        agree_at(s, t, end, pos);
    } else {
        let entry = parse_entry(s, pos, acc)->Ok_0.0;
        let next = parse_entry(s, pos, acc)->Ok_0.1;
        open_entries_agree(s, t, next, acc.push(entry));
        agree_shrinks(s, t, end, next);
        entry_agrees(s, t, pos, acc);
        agree_at(s, t, end, pos);
    }
}

/// What bytes hold at their beginning is what they hold when other bytes
/// follow the item.
pub proof fn decoding_ignores_what_follows(s: Seq<u8>, other: Seq<u8>)
    requires
        parse_item(s, 0) is Ok,
    ensures
        parse_item(s.subrange(0, parse_item(s, 0)->Ok_0.1) + other, 0) == parse_item(s, 0),
{
    crate::well_formed::parsed_item_is_well_formed(s, 0);
    let end = parse_item(s, 0)->Ok_0.1;
    let t = s.subrange(0, end) + other;
    assert(t.subrange(0, end) =~= s.subrange(0, end));
    item_agrees(s, t, 0);
}

} // verus!

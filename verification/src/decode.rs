//! The decoder: from bytes to the data item that they hold, or to the
//! reason why they hold none.
use vstd::prelude::*;
use vstd::slice::slice_subrange;
use vstd::string::StringExecFns;
use crate::content::{blobs, copy_bytes, ArrayContent, ByteContent, MapContent, SimpleValue, TagContent, TextContent};
use crate::data_item::{model, models, DataItem};
use crate::diagnostic::{notation, spelled};
use crate::encode::BREAK;
use crate::entry_map::{entries_of, EntryMap};
use crate::error::Error;
use crate::float::{widen_half, widen_single};
use crate::grammar::{argument, number, number_of, parse_chunks, parse_entries, parse_entry, parse_item, parse_items, parse_open_entries, parse_open_items, parse_simple, parse_string, take, Failure};
use crate::model::Item;
use crate::text::{decimal, push_decimal};

verus! {

/// The text that tells a failure which has no error variant of its own.
pub open spec fn message_of(f: Failure) -> Seq<char> {
    match f {
        Failure::ReservedAdditional(n) => "invalid additional number "@ + decimal(n as nat),
        Failure::ReservedSimple(n) => "invalid value "@ + decimal(n as nat)
            + " for major type 7"@,
        Failure::ChunkMajor { found, expected } => "contains invalid major type "@ + decimal(
            found as nat,
        ) + " for indefinite major type "@ + decimal(expected as nat),
        Failure::MissingBytes(n) => "incomplete array of byte missing "@ + decimal(n as nat)
            + " byte"@,
        Failure::MissingNumber => "failed to extract number"@,
        Failure::DuplicateKey(key) => "same map key "@ + spelled(notation(key))
            + " is repeated multiple times"@,
        _ => Seq::empty(),
    }
}

/// Whether the error `e` is the one that stands for the failure `f`.
pub open spec fn reports(e: Error, f: Failure) -> bool {
    match f {
        Failure::Incomplete => e is Incomplete,
        Failure::IncompleteIndefinite => e is IncompleteIndefinite,
        Failure::InvalidSimple => e is InvalidSimple,
        Failure::InvalidBreakStop => e is InvalidBreakStop,
        Failure::InvalidUtf8 => e is FromUtf8,
        _ => e is NotWellFormed && e->NotWellFormed_0@ == message_of(f),
    }
}

fn missing_bytes(n: u64) -> (e: Error)
    ensures
        reports(e, Failure::MissingBytes(n)),
{
    let mut text = String::from_str("incomplete array of byte missing ");
    push_decimal(&mut text, n as u128);
    text.append(" byte");
    Error::NotWellFormed(text)
}

fn reserved_additional(n: u8) -> (e: Error)
    ensures
        reports(e, Failure::ReservedAdditional(n)),
{
    let mut text = String::from_str("invalid additional number ");
    push_decimal(&mut text, n as u128);
    Error::NotWellFormed(text)
}

fn reserved_simple(n: u8) -> (e: Error)
    ensures
        reports(e, Failure::ReservedSimple(n)),
{
    let mut text = String::from_str("invalid value ");
    push_decimal(&mut text, n as u128);
    text.append(" for major type 7");
    Error::NotWellFormed(text)
}

fn chunk_major(found: u8, expected: u8) -> (e: Error)
    ensures
        reports(e, Failure::ChunkMajor { found, expected }),
{
    let mut text = String::from_str("contains invalid major type ");
    push_decimal(&mut text, found as u128);
    text.append(" for indefinite major type ");
    push_decimal(&mut text, expected as u128);
    Error::NotWellFormed(text)
}

fn missing_number() -> (e: Error)
    ensures
        reports(e, Failure::MissingNumber),
{
    Error::NotWellFormed(String::from_str("failed to extract number"))
}

fn duplicate_key(key: &DataItem) -> (e: Error)
    ensures
        reports(e, Failure::DuplicateKey(key@)),
{
    let mut text = String::from_str("same map key ");
    let written = key.diagnostic_text();
    text.append(written.as_str());
    text.append(" is repeated multiple times");
    Error::NotWellFormed(text)
}

/// 256 to the power `width`.
pub open spec fn limit(width: nat) -> nat
    decreases width,
{
    if width == 0 {
        1
    } else {
        256 * limit((width - 1) as nat)
    }
}

proof fn limit_is_monotonic(a: nat, b: nat)
    requires
        a <= b,
    ensures
        0 < limit(a) <= limit(b),
    decreases b,
{
    if a < b {
        limit_is_monotonic(a, (b - 1) as nat);
    } else if a > 0 {
        limit_is_monotonic((a - 1) as nat, (a - 1) as nat);
    }
}

proof fn limit_of_seven()
    ensures
        limit(7) == 0x100_0000_0000_0000,
{
    reveal_with_fuel(limit, 10);
}

/// The number that bytes spell, most significant first.
fn spell_number(bytes: &Vec<u8>) -> (r: u64)
    requires
        bytes.len() <= 8,
    ensures
        r == number_of(bytes@),
{
    let mut value: u64 = 0;
    let mut i: usize = 0;
    assert(bytes@.subrange(0, 0) =~= Seq::<u8>::empty());
    while i < bytes.len()
        invariant
            i <= bytes.len(),
            bytes.len() <= 8,
            value == number_of(bytes@.subrange(0, i as int)),
            value < limit(i as nat),
        decreases bytes.len() - i,
    {
        proof {
            let then = bytes@.subrange(0, i + 1);
            assert(then.drop_last() =~= bytes@.subrange(0, i as int));
            assert(then.last() == bytes@[i as int]);
            limit_is_monotonic(i as nat, 7);
            limit_of_seven();
        }
        value = value * 256 + bytes[i] as u64;
        i += 1;
    }
    assert(bytes@.subrange(0, bytes@.len() as int) =~= bytes@);
    value
}

/// The next `number` bytes from `pos`, or how many of them are missing.
pub fn collect_vec_u8(input: &[u8], pos: usize, number: u64) -> (r: Result<(Vec<u8>, usize), Error>)
    requires
        pos <= input.len(),
    ensures
        match take(input@, pos as int, number as nat) {
            Ok((bytes, next)) => r is Ok && r->Ok_0.0@ == bytes && r->Ok_0.1 == next,
            Err(f) => r is Err && reports(r->Err_0, f),
        },
{
    let available: usize = input.len() - pos;
    if (available as u64) < number {
        Err(missing_bytes(number - available as u64))
    } else {
        let end: usize = pos + number as usize;
        let bytes = copy_bytes(slice_subrange(input, pos, end));
        Ok((bytes, end))
    }
}

/// The argument that goes with the additional information `additional`:
/// a number, or nothing for the indefinite-length marker.
pub fn extract_optional_number(input: &[u8], pos: usize, additional: u8) -> (r: Result<
    (Option<u64>, usize),
    Error,
>)
    requires
        pos <= input.len(),
        additional <= 31,
    ensures
        match argument(input@, pos as int, additional) {
            Ok((n, next)) => r is Ok && r->Ok_0.0 == n && r->Ok_0.1 == next && pos <= next
                <= input.len(),
            Err(f) => r is Err && reports(r->Err_0, f),
        },
{
    if additional <= 23 {
        Ok((Some(additional as u64), pos))
    } else if additional <= 27 {
        let width: u64 = if additional == 24 {
            1
        } else if additional == 25 {
            2
        } else if additional == 26 {
            4
        } else {
            8
        };
        match collect_vec_u8(input, pos, width) {
            Err(e) => Err(e),
            Ok((bytes, next)) => {
                let value = spell_number(&bytes);
                Ok((Some(value), next))
            },
        }
    } else if additional <= 30 {
        Err(reserved_additional(additional))
    } else {
        Ok((None, pos))
    }
}

/// The argument of an item that must have one.
pub fn extract_number(input: &[u8], pos: usize, additional: u8) -> (r: Result<(u64, usize), Error>)
    requires
        pos <= input.len(),
        additional <= 31,
    ensures
        match number(input@, pos as int, additional) {
            Ok((n, next)) => r is Ok && r->Ok_0.0 == n && r->Ok_0.1 == next && pos <= next
                <= input.len(),
            Err(f) => r is Err && reports(r->Err_0, f),
        },
{
    match extract_optional_number(input, pos, additional) {
        Err(e) => Err(e),
        Ok((Some(n), next)) => Ok((n, next)),
        Ok((None, _)) => Err(missing_number()),
    }
}

/// The chunks of an indefinite-length string of major type
/// `expected_major_type`, up to the break, and the place of the break, which
/// is left unread.
pub fn decode_indefinite_byte_or_text(input: &[u8], pos: usize, expected_major_type: u8) -> (r:
    Result<(Vec<Vec<u8>>, usize), Error>)
    requires
        pos <= input.len(),
    ensures
        match parse_chunks(input@, pos as int, expected_major_type, Seq::empty()) {
            Ok((chunks, at)) => r is Ok && blobs(r->Ok_0.0@) == chunks && r->Ok_0.1 == at
                && pos <= at < input.len() && input@[at] == BREAK,
            Err(f) => r is Err && reports(r->Err_0, f),
        },
{
    let mut chunks: Vec<Vec<u8>> = Vec::new();
    let mut cur: usize = pos;
    assert(blobs(chunks@) =~= Seq::<Seq<u8>>::empty());
    loop
        invariant
            pos <= cur <= input.len(),
            parse_chunks(input@, pos as int, expected_major_type, Seq::empty()) == parse_chunks(
                input@,
                cur as int,
                expected_major_type,
                blobs(chunks@),
            ),
        decreases input.len() - cur,
    {
        if cur >= input.len() {
            return Err(Error::IncompleteIndefinite);
        }
        let initial_info: u8 = input[cur];
        if initial_info == BREAK {
            return Ok((chunks, cur));
        }
        let major_type: u8 = initial_info >> 5;
        if major_type != expected_major_type {
            return Err(chunk_major(major_type, expected_major_type));
        }
        let additional: u8 = initial_info & 0x1f;
        assert(initial_info & 0x1f <= 31) by (bit_vector);
        match extract_number(input, cur + 1, additional) {
            Err(e) => {
                return Err(e);
            },
            Ok((length, p)) => match collect_vec_u8(input, p, length) {
                Err(e) => {
                    return Err(e);
                },
                Ok((bytes, next)) => {
                    let ghost before = chunks@;
                    chunks.push(bytes);
                    assert(blobs(chunks@) =~= blobs(before).push(bytes@));
                    cur = next;
                },
            },
        }
    }
}

/// The payload of a byte or text string whose initial byte ends at `pos`.
pub fn decode_byte_or_text(input: &[u8], pos: usize, major_type: u8, additional: u8) -> (r: Result<
    (ByteContent, usize),
    Error,
>)
    requires
        pos <= input.len(),
        additional <= 31,
    ensures
        match parse_string(input@, pos as int, major_type, additional) {
            Ok(((indefinite, chunks), next)) => r is Ok && r->Ok_0.0@.indefinite == indefinite
                && r->Ok_0.0@.chunks == chunks && r->Ok_0.1 == next && pos <= next
                <= input.len(),
            Err(f) => r is Err && reports(r->Err_0, f),
        },
{
    match extract_optional_number(input, pos, additional) {
        Err(e) => Err(e),
        Ok((Some(num), p)) => match collect_vec_u8(input, p, num) {
            Err(e) => Err(e),
            Ok((bytes, next)) => Ok((ByteContent::from_vec(bytes), next)),
        },
        Ok((None, p)) => match decode_indefinite_byte_or_text(input, p, major_type) {
            Err(e) => Err(e),
            Ok((chunks, at)) => Ok((ByteContent::from_chunks(true, chunks), at + 1)),
        },
    }
}

/// The item of major type 7 whose initial byte ends at `pos`: a simple
/// value or a floating-point number.
pub fn decode_simple_or_floating(input: &[u8], pos: usize, additional: u8) -> (r: Result<
    (DataItem, usize),
    Error,
>)
    requires
        pos <= input.len(),
        additional <= 31,
    ensures
        match parse_simple(input@, pos as int, additional) {
            Ok((v, next)) => r is Ok && r->Ok_0.0@ == v && r->Ok_0.1 == next && pos <= next
                <= input.len(),
            Err(f) => r is Err && reports(r->Err_0, f),
        },
{
    if additional <= 19 {
        match SimpleValue::try_from(additional) {
            Ok(simple) => Ok((DataItem::GenericSimple(simple), pos)),
            Err(e) => Err(e),
        }
    } else if additional == 20 {
        Ok((DataItem::Boolean(false), pos))
    } else if additional == 21 {
        Ok((DataItem::Boolean(true), pos))
    } else if additional == 22 {
        Ok((DataItem::Null, pos))
    } else if additional == 23 {
        Ok((DataItem::Undefined, pos))
    } else if additional == 24 {
        if pos < input.len() && input[pos] >= 32 {
            match SimpleValue::try_from(input[pos]) {
                Ok(simple) => Ok((DataItem::GenericSimple(simple), pos + 1)),
                Err(e) => Err(e),
            }
        } else {
            Err(Error::InvalidSimple)
        }
    } else if additional <= 27 {
        match extract_number(input, pos, additional) {
            Err(e) => Err(e),
            Ok((n, next)) => if additional == 25 {
                Ok((DataItem::Floating(widen_half(n as u16)), next))
            } else if additional == 26 {
                Ok((DataItem::Floating(widen_single(n as u32)), next))
            } else {
                Ok((DataItem::Floating(n), next))
            },
        }
    } else if additional <= 30 {
        Err(reserved_simple(additional))
    } else {
        Err(Error::InvalidBreakStop)
    }
}

/// The items of an indefinite-length array up to the break or the end of
/// the input, and the place where they end; a break is left unread.
pub fn extract_array_item(input: &[u8], pos: usize) -> (r: Result<(Vec<DataItem>, usize), Error>)
    requires
        pos <= input.len(),
    ensures
        match parse_open_items(input@, pos as int, Seq::empty()) {
            Ok((items, at)) => r is Ok && models(r->Ok_0.0@) == items && r->Ok_0.1 == at
                && pos <= at <= input.len() && (at < input.len() ==> input@[at] == BREAK),
            Err(f) => r is Err && reports(r->Err_0, f),
        },
    decreases input.len() - pos, 1nat,
{
    let mut items: Vec<DataItem> = Vec::new();
    let mut cur: usize = pos;
    assert(models(items@) =~= Seq::<Item>::empty());
    loop
        invariant
            pos <= cur <= input.len(),
            parse_open_items(input@, pos as int, Seq::empty()) == parse_open_items(
                input@,
                cur as int,
                models(items@),
            ),
        decreases input.len() - cur,
    {
        if cur >= input.len() || input[cur] == BREAK {
            return Ok((items, cur));
        }
        match decode_value(input, cur) {
            Err(e) => {
                return Err(e);
            },
            Ok((item, next)) => {
                let ghost before = items@;
                items.push(item);
                assert(models(items@) =~= models(before).push(item@));
                cur = next;
            },
        }
    }
}

/// The array whose initial byte ends at `pos`.
pub fn decode_array(input: &[u8], pos: usize, additional: u8) -> (r: Result<
    (DataItem, usize),
    Error,
>)
    requires
        pos <= input.len(),
        additional <= 31,
    ensures
        match argument(input@, pos as int, additional) {
            Err(f) => r is Err && reports(r->Err_0, f),
            Ok((Some(n), q)) => match parse_items(input@, q, n as nat, Seq::empty()) {
                Err(f) => r is Err && reports(r->Err_0, f),
                Ok((items, next)) => r is Ok && r->Ok_0.0@ == (Item::Array {
                    indefinite: false,
                    items,
                }) && r->Ok_0.1 == next && pos <= next <= input.len(),
            },
            Ok((None, q)) => match parse_open_items(input@, q, Seq::empty()) {
                Err(f) => r is Err && reports(r->Err_0, f),
                Ok((items, at)) => if at < input.len() {
                    r is Ok && r->Ok_0.0@ == (Item::Array { indefinite: true, items })
                        && r->Ok_0.1 == at + 1 && pos <= at + 1 <= input.len()
                } else {
                    r is Err && reports(r->Err_0, Failure::IncompleteIndefinite)
                },
            },
        },
    decreases input.len() - pos, 2nat,
{
    match extract_optional_number(input, pos, additional) {
        Err(e) => Err(e),
        Ok((Some(num), q)) => {
            let mut items: Vec<DataItem> = Vec::new();
            let mut cur: usize = q;
            let mut i: u64 = 0;
            assert(models(items@) =~= Seq::<Item>::empty());
            while i < num
                invariant
                    pos <= q <= cur <= input.len(),
                    i <= num,
                    argument(input@, pos as int, additional) == Ok::<
                        (Option<u64>, int),
                        Failure,
                    >((Some(num), q as int)),
                    parse_items(input@, q as int, num as nat, Seq::empty()) == parse_items(
                        input@,
                        cur as int,
                        (num - i) as nat,
                        models(items@),
                    ),
                decreases num - i,
            {
                match decode_value(input, cur) {
                    Err(e) => {
                        return Err(e);
                    },
                    Ok((item, next)) => {
                        let ghost before = items@;
                        items.push(item);
                        assert(models(items@) =~= models(before).push(item@));
                        cur = next;
                        i += 1;
                    },
                }
            }
            Ok((DataItem::Array(ArrayContent { is_indefinite: false, array: items }), cur))
        },
        Ok((None, q)) => match extract_array_item(input, q) {
            Err(e) => Err(e),
            Ok((items, at)) => if at < input.len() {
                Ok((DataItem::Array(ArrayContent { is_indefinite: true, array: items }), at + 1))
            } else {
                Err(Error::IncompleteIndefinite)
            },
        },
    }
}

/// One key and its value from `pos` on, put into `map`; a key that `map`
/// holds already is refused.
fn decode_entry(input: &[u8], pos: usize, map: &mut EntryMap) -> (r: Result<usize, Error>)
    requires
        pos <= input.len(),
    ensures
        match parse_entry(input@, pos as int, entries_of(*old(map))) {
            Ok((entry, next)) => r is Ok && r->Ok_0 == next && pos < next <= input.len()
                && entries_of(*final(map)) == entries_of(*old(map)).push(entry),
            Err(f) => r is Err && reports(r->Err_0, f),
        },
    decreases input.len() - pos, 1nat,
{
    if pos >= input.len() {
        return Err(Error::Incomplete);
    }
    match decode_value(input, pos) {
        Err(e) => Err(e),
        Ok((key, middle)) => match decode_value(input, middle) {
            Err(e) => Err(e),
            Ok((value, next)) => {
                let ghost before = entries_of(*map);
                match map.insert(key.clone(), value) {
                    Some(_) => Err(duplicate_key(&key)),
                    None => {
                        assert(entries_of(*map) == before.push((key@, value@)));
                        Ok(next)
                    },
                }
            },
        },
    }
}

/// The entries of an indefinite-length map up to the break or the end of
/// the input, and the place where they end; a break is left unread.
pub fn extract_map_item(input: &[u8], pos: usize) -> (r: Result<(EntryMap, usize), Error>)
    requires
        pos <= input.len(),
    ensures
        match parse_open_entries(input@, pos as int, Seq::empty()) {
            Ok((entries, at)) => r is Ok && entries_of(r->Ok_0.0) == entries && r->Ok_0.1 == at
                && pos <= at <= input.len() && (at < input.len() ==> input@[at] == BREAK),
            Err(f) => r is Err && reports(r->Err_0, f),
        },
    decreases input.len() - pos, 2nat,
{
    let mut map = EntryMap::new();
    let mut cur: usize = pos;
    loop
        invariant
            pos <= cur <= input.len(),
            parse_open_entries(input@, pos as int, Seq::empty()) == parse_open_entries(
                input@,
                cur as int,
                entries_of(map),
            ),
        decreases input.len() - cur,
    {
        if cur >= input.len() || input[cur] == BREAK {
            return Ok((map, cur));
        }
        match decode_entry(input, cur, &mut map) {
            Err(e) => {
                return Err(e);
            },
            Ok(next) => {
                cur = next;
            },
        }
    }
}

/// The map whose initial byte ends at `pos`.
pub fn decode_map(input: &[u8], pos: usize, additional: u8) -> (r: Result<(DataItem, usize), Error>)
    requires
        pos <= input.len(),
        additional <= 31,
    ensures
        match argument(input@, pos as int, additional) {
            Err(f) => r is Err && reports(r->Err_0, f),
            Ok((Some(n), q)) => match parse_entries(input@, q, n as nat, Seq::empty()) {
                Err(f) => r is Err && reports(r->Err_0, f),
                Ok((entries, next)) => r is Ok && r->Ok_0.0@ == (Item::Mapping {
                    indefinite: false,
                    entries,
                }) && r->Ok_0.1 == next && pos <= next <= input.len(),
            },
            Ok((None, q)) => match parse_open_entries(input@, q, Seq::empty()) {
                Err(f) => r is Err && reports(r->Err_0, f),
                Ok((entries, at)) => if at < input.len() {
                    r is Ok && r->Ok_0.0@ == (Item::Mapping { indefinite: true, entries })
                        && r->Ok_0.1 == at + 1 && pos <= at + 1 <= input.len()
                } else {
                    r is Err && reports(r->Err_0, Failure::IncompleteIndefinite)
                },
            },
        },
    decreases input.len() - pos, 3nat,
{
    match extract_optional_number(input, pos, additional) {
        Err(e) => Err(e),
        Ok((Some(num), q)) => {
            let mut map = EntryMap::new();
            let mut cur: usize = q;
            let mut i: u64 = 0;
            while i < num
                invariant
                    pos <= q <= cur <= input.len(),
                    i <= num,
                    argument(input@, pos as int, additional) == Ok::<
                        (Option<u64>, int),
                        Failure,
                    >((Some(num), q as int)),
                    parse_entries(input@, q as int, num as nat, Seq::empty()) == parse_entries(
                        input@,
                        cur as int,
                        (num - i) as nat,
                        entries_of(map),
                    ),
                decreases num - i,
            {
                if cur >= input.len() {
                    return Err(Error::Incomplete);
                }
                match decode_entry(input, cur, &mut map) {
                    Err(e) => {
                        return Err(e);
                    },
                    Ok(next) => {
                        cur = next;
                        i += 1;
                    },
                }
            }
            Ok((DataItem::Mapping(MapContent { is_indefinite: false, map }), cur))
        },
        Ok((None, q)) => match extract_map_item(input, q) {
            Err(e) => Err(e),
            Ok((map, at)) => if at < input.len() {
                Ok((DataItem::Mapping(MapContent { is_indefinite: true, map }), at + 1))
            } else {
                Err(Error::IncompleteIndefinite)
            },
        },
    }
}

/// The data item that begins at `pos`, and the place after it.
pub fn decode_value(input: &[u8], pos: usize) -> (r: Result<(DataItem, usize), Error>)
    requires
        pos <= input.len(),
    ensures
        match parse_item(input@, pos as int) {
            Ok((v, next)) => r is Ok && r->Ok_0.0@ == v && r->Ok_0.1 == next && pos < next
                <= input.len(),
            Err(f) => r is Err && reports(r->Err_0, f),
        },
    decreases input.len() - pos, 0nat,
{
    if pos >= input.len() {
        return Err(Error::Incomplete);
    }
    let initial_info: u8 = input[pos];
    let major_type: u8 = initial_info >> 5;
    let additional: u8 = initial_info & 0x1f;
    assert(initial_info & 0x1f <= 31) by (bit_vector);
    assert(initial_info >> 5 <= 7) by (bit_vector);
    let p: usize = pos + 1;
    if major_type == 0 {
        match extract_number(input, p, additional) {
            Err(e) => Err(e),
            Ok((n, next)) => Ok((DataItem::Unsigned(n), next)),
        }
    } else if major_type == 1 {
        match extract_number(input, p, additional) {
            Err(e) => Err(e),
            Ok((n, next)) => Ok((DataItem::Signed(n), next)),
        }
    } else if major_type == 2 {
        match decode_byte_or_text(input, p, major_type, additional) {
            Err(e) => Err(e),
            Ok((bytes, next)) => Ok((DataItem::Byte(bytes), next)),
        }
    } else if major_type == 3 {
        match decode_byte_or_text(input, p, major_type, additional) {
            Err(e) => Err(e),
            Ok((bytes, next)) => match TextContent::try_from_bytes(&bytes) {
                Err(e) => Err(Error::FromUtf8(e)),
                Ok(text) => Ok((DataItem::Text(text), next)),
            },
        }
    } else if major_type == 4 {
        decode_array(input, p, additional)
    } else if major_type == 5 {
        decode_map(input, p, additional)
    } else if major_type == 6 {
        match extract_number(input, p, additional) {
            Err(e) => Err(e),
            Ok((tag_number, q)) => match decode_value(input, q) {
                Err(e) => Err(e),
                Ok((tag_value, next)) => Ok(
                    (
                        DataItem::Tag(
                            TagContent { number: tag_number, content: Box::new(tag_value) },
                        ),
                        next,
                    ),
                ),
            },
        }
    } else {
        decode_simple_or_floating(input, p, additional)
    }
}

impl DataItem {
    /// The data item that `val` begins with, or the reason why it begins
    /// with none. Bytes after the item are not looked at.
    pub fn decode(val: &[u8]) -> (r: Result<Self, Error>)
        ensures
            match parse_item(val@, 0) {
                Ok((v, _)) => r is Ok && r->Ok_0@ == v,
                Err(f) => r is Err && reports(r->Err_0, f),
            },
    {
        match decode_value(val, 0) {
            Err(e) => Err(e),
            Ok((item, _)) => Ok(item),
        }
    }
}

} // verus!

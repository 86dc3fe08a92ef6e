//! The wire format as a mathematical function: which item, if any, a
//! sequence of bytes holds at a given place, and why it holds none.
use vstd::prelude::*;
use crate::encode::BREAK;
use crate::float::{half_to_double, single_to_double};
use crate::model::{place_of, Item};

verus! {

/// Why bytes hold no data item.
pub enum Failure {
    /// The input ends where an item should begin.
    Incomplete,
    /// The input ends inside an indefinite-length item.
    IncompleteIndefinite,
    /// A simple value in two bytes that is below 32, or lacks its second
    /// byte.
    InvalidSimple,
    /// A break byte where an item should begin.
    InvalidBreakStop,
    /// A chunk of a text string is not UTF-8.
    InvalidUtf8,
    /// Additional information 28, 29 or 30.
    ReservedAdditional(u8),
    /// Additional information 28, 29 or 30 in major type 7.
    ReservedSimple(u8),
    /// A chunk of an indefinite-length string has another major type than
    /// the string.
    ChunkMajor { found: u8, expected: u8 },
    /// The input ends this many bytes before the end of an argument or of a
    /// string.
    MissingBytes(u64),
    /// The indefinite-length marker where a number is needed.
    MissingNumber,
    /// A key stands twice in one map.
    DuplicateKey(Item),
}

/// The major type that an initial byte names.
pub open spec fn major_in(b: u8) -> u8 {
    b >> 5
}

/// The additional information that an initial byte holds.
pub open spec fn info_in(b: u8) -> u8 {
    b & 0x1f
}

/// The number that bytes spell, most significant first.
pub open spec fn number_of(bytes: Seq<u8>) -> nat
    decreases bytes.len(),
{
    if bytes.len() == 0 {
        0
    } else {
        number_of(bytes.drop_last()) * 256 + bytes.last() as nat
    }
}

/// The next `count` bytes from `pos`, and the place after them.
pub open spec fn take(s: Seq<u8>, pos: int, count: nat) -> Result<(Seq<u8>, int), Failure> {
    if pos + count <= s.len() {
        Ok((s.subrange(pos, pos + count), pos + count))
    } else {
        Err(Failure::MissingBytes((pos + count - s.len()) as u64))
    }
}

/// How many bytes follow the initial byte for additional information 24 to
/// 27.
pub open spec fn width_of(info: u8) -> nat {
    if info == 24 {
        1
    } else if info == 25 {
        2
    } else if info == 26 {
        4
    } else {
        8
    }
}

/// The argument of an item whose additional information is `info` and
/// whose initial byte ends at `pos`: a number, or nothing for the
/// indefinite-length marker.
pub open spec fn argument(s: Seq<u8>, pos: int, info: u8) -> Result<(Option<u64>, int), Failure> {
    if info <= 23 {
        Ok((Some(info as u64), pos))
    } else if info <= 27 {
        match take(s, pos, width_of(info)) {
            Ok((bytes, next)) => Ok((Some(number_of(bytes) as u64), next)),
            Err(f) => Err(f),
        }
    } else if info <= 30 {
        Err(Failure::ReservedAdditional(info))
    } else {
        Ok((None, pos))
    }
}

/// The argument of an item that must have one.
pub open spec fn number(s: Seq<u8>, pos: int, info: u8) -> Result<(u64, int), Failure> {
    match argument(s, pos, info) {
        Ok((Some(n), next)) => Ok((n, next)),
        Ok((None, _)) => Err(Failure::MissingNumber),
        Err(f) => Err(f),
    }
}

/// How many bytes stand from `pos` on.
pub open spec fn rest(s: Seq<u8>, pos: int) -> nat {
    if 0 <= pos <= s.len() {
        (s.len() - pos) as nat
    } else {
        0
    }
}

/// The chunks of an indefinite-length string of major type `major` from
/// `pos` on, after the chunks `acc`, and the place of the break, which is
/// left unread.
pub open spec fn parse_chunks(s: Seq<u8>, pos: int, major: u8, acc: Seq<Seq<u8>>) -> Result<
    (Seq<Seq<u8>>, int),
    Failure,
>
    decreases rest(s, pos),
{
    if pos < 0 || pos >= s.len() {
        Err(Failure::IncompleteIndefinite)
    } else if s[pos] == BREAK {
        Ok((acc, pos))
    } else if major_in(s[pos]) != major {
        Err(Failure::ChunkMajor { found: major_in(s[pos]), expected: major })
    } else {
        match number(s, pos + 1, info_in(s[pos])) {
            Err(f) => Err(f),
            Ok((n, p)) => match take(s, p, n as nat) {
                Err(f) => Err(f),
                Ok((bytes, next)) => parse_chunks(s, next, major, acc.push(bytes)),
            },
        }
    }
}

/// The payload of a string whose initial byte ends at `pos`: whether it is
/// indefinite, its chunks, and the place after it.
pub open spec fn parse_string(s: Seq<u8>, pos: int, major: u8, info: u8) -> Result<
    ((bool, Seq<Seq<u8>>), int),
    Failure,
> {
    match argument(s, pos, info) {
        Err(f) => Err(f),
        Ok((Some(n), p)) => match take(s, p, n as nat) {
            Err(f) => Err(f),
            Ok((bytes, next)) => Ok(((false, seq![bytes]), next)),
        },
        Ok((None, p)) => match parse_chunks(s, p, major, Seq::empty()) {
            Err(f) => Err(f),
            Ok((chunks, at)) => Ok(((true, chunks), at + 1)),
        },
    }
}

/// Whether every chunk is UTF-8.
pub open spec fn all_utf8(chunks: Seq<Seq<u8>>) -> bool {
    forall|i: int| 0 <= i < chunks.len() ==> vstd::utf8::valid_utf8(#[trigger] chunks[i])
}

/// The text that each chunk spells in UTF-8.
pub open spec fn texts_of(chunks: Seq<Seq<u8>>) -> Seq<Seq<char>> {
    Seq::new(chunks.len(), |i: int| vstd::utf8::decode_utf8(chunks[i]))
}

/// The item of major type 7 whose additional information is `info` and
/// whose initial byte ends at `pos`.
pub open spec fn parse_simple(s: Seq<u8>, pos: int, info: u8) -> Result<(Item, int), Failure> {
    if info <= 19 {
        Ok((Item::GenericSimple(info), pos))
    } else if info == 20 {
        Ok((Item::Boolean(false), pos))
    } else if info == 21 {
        Ok((Item::Boolean(true), pos))
    } else if info == 22 {
        Ok((Item::Null, pos))
    } else if info == 23 {
        Ok((Item::Undefined, pos))
    } else if info == 24 {
        if 0 <= pos < s.len() && s[pos] >= 32 {
            Ok((Item::GenericSimple(s[pos]), pos + 1))
        } else {
            Err(Failure::InvalidSimple)
        }
    } else if info <= 27 {
        match number(s, pos, info) {
            Err(f) => Err(f),
            Ok((n, next)) => if info == 25 {
                Ok((Item::Floating(half_to_double(n as u16)), next))
            } else if info == 26 {
                Ok((Item::Floating(single_to_double(n as u32)), next))
            } else {
                Ok((Item::Floating(n), next))
            },
        }
    } else if info <= 30 {
        Err(Failure::ReservedSimple(info))
    } else {
        Err(Failure::InvalidBreakStop)
    }
}

/// The data item that begins at `pos`, and the place after it. Every item
/// takes at least one byte; the lists below rest on that to end.
pub open spec fn parse_item(s: Seq<u8>, pos: int) -> Result<(Item, int), Failure>
    decreases rest(s, pos), 0nat, 0nat,
{
    if pos < 0 || pos >= s.len() {
        Err(Failure::Incomplete)
    } else {
        let major = major_in(s[pos]);
        let info = info_in(s[pos]);
        let p = pos + 1;
        if major == 0 {
            match number(s, p, info) {
                Err(f) => Err(f),
                Ok((n, next)) => Ok((Item::Unsigned(n), next)),
            }
        } else if major == 1 {
            match number(s, p, info) {
                Err(f) => Err(f),
                Ok((n, next)) => Ok((Item::Signed(n), next)),
            }
        } else if major == 2 {
            match parse_string(s, p, major, info) {
                Err(f) => Err(f),
                Ok(((indefinite, chunks), next)) => Ok((Item::Byte { indefinite, chunks }, next)),
            }
        } else if major == 3 {
            match parse_string(s, p, major, info) {
                Err(f) => Err(f),
                Ok(((indefinite, chunks), next)) => if all_utf8(chunks) {
                    Ok((Item::Text { indefinite, chunks: texts_of(chunks) }, next))
                } else {
                    Err(Failure::InvalidUtf8)
                },
            }
        } else if major == 4 {
            match argument(s, p, info) {
                Err(f) => Err(f),
                Ok((Some(n), q)) => if q <= pos {
                    Err(Failure::Incomplete)
                } else {
                    match parse_items(s, q, n as nat, Seq::empty()) {
                        Err(f) => Err(f),
                        Ok((items, next)) => Ok((Item::Array { indefinite: false, items }, next)),
                    }
                },
                Ok((None, q)) => if q <= pos {
                    Err(Failure::Incomplete)
                } else {
                    match parse_open_items(s, q, Seq::empty()) {
                        Err(f) => Err(f),
                        Ok((items, at)) => if at < s.len() {
                            Ok((Item::Array { indefinite: true, items }, at + 1))
                        } else {
                            Err(Failure::IncompleteIndefinite)
                        },
                    }
                },
            }
        } else if major == 5 {
            match argument(s, p, info) {
                Err(f) => Err(f),
                Ok((Some(n), q)) => if q <= pos {
                    Err(Failure::Incomplete)
                } else {
                    match parse_entries(s, q, n as nat, Seq::empty()) {
                        Err(f) => Err(f),
                        Ok((entries, next)) => Ok(
                            (Item::Mapping { indefinite: false, entries }, next),
                        ),
                    }
                },
                Ok((None, q)) => if q <= pos {
                    Err(Failure::Incomplete)
                } else {
                    match parse_open_entries(s, q, Seq::empty()) {
                        Err(f) => Err(f),
                        Ok((entries, at)) => if at < s.len() {
                            Ok((Item::Mapping { indefinite: true, entries }, at + 1))
                        } else {
                            Err(Failure::IncompleteIndefinite)
                        },
                    }
                },
            }
        } else if major == 6 {
            match number(s, p, info) {
                Err(f) => Err(f),
                Ok((n, q)) => if q <= pos {
                    Err(Failure::Incomplete)
                } else {
                    match parse_item(s, q) {
                        Err(f) => Err(f),
                        Ok((content, next)) => Ok(
                            (Item::Tag { number: n, content: Box::new(content) }, next),
                        ),
                    }
                },
            }
        } else {
            parse_simple(s, p, info)
        }
    }
}

/// `count` items from `pos` on, after the items `acc`.
pub open spec fn parse_items(s: Seq<u8>, pos: int, count: nat, acc: Seq<Item>) -> Result<
    (Seq<Item>, int),
    Failure,
>
    decreases rest(s, pos), 2nat, count,
{
    if count == 0 {
        Ok((acc, pos))
    } else if pos < 0 || pos >= s.len() {
        Err(Failure::Incomplete)
    } else {
        match parse_item(s, pos) {
            Err(f) => Err(f),
            Ok((item, next)) => if next <= pos {
                Err(Failure::Incomplete)
            } else {
                parse_items(s, next, (count - 1) as nat, acc.push(item))
            },
        }
    }
}

/// The items from `pos` up to the break or the end of the bytes, after the
/// items `acc`, and the place where they end: that of the break, which is
/// left unread, or the end of the bytes.
pub open spec fn parse_open_items(s: Seq<u8>, pos: int, acc: Seq<Item>) -> Result<
    (Seq<Item>, int),
    Failure,
>
    decreases rest(s, pos), 2nat, 0nat,
{
    if pos < 0 || pos >= s.len() || s[pos] == BREAK {
        Ok((acc, pos))
    } else {
        match parse_item(s, pos) {
            Err(f) => Err(f),
            Ok((item, next)) => if next <= pos {
                Err(Failure::Incomplete)
            } else {
                parse_open_items(s, next, acc.push(item))
            },
        }
    }
}

/// Whether one of `entries` has a key like `key`.
pub open spec fn has_key(entries: Seq<(Item, Item)>, key: Item) -> bool {
    place_of(entries, key) < entries.len()
}

/// One key and its value from `pos` on; a key like one that `acc` holds
/// already is refused once its value has been read.
pub open spec fn parse_entry(s: Seq<u8>, pos: int, acc: Seq<(Item, Item)>) -> Result<
    ((Item, Item), int),
    Failure,
>
    decreases rest(s, pos), 1nat, 0nat,
{
    if pos < 0 || pos >= s.len() {
        Err(Failure::Incomplete)
    } else {
        match parse_item(s, pos) {
            Err(f) => Err(f),
            Ok((key, middle)) => if middle <= pos {
                Err(Failure::Incomplete)
            } else {
                match parse_item(s, middle) {
                    Err(f) => Err(f),
                    Ok((value, next)) => if has_key(acc, key) {
                        Err(Failure::DuplicateKey(key))
                    } else {
                        Ok(((key, value), next))
                    },
                }
            },
        }
    }
}

/// `count` entries from `pos` on, after the entries `acc`.
pub open spec fn parse_entries(s: Seq<u8>, pos: int, count: nat, acc: Seq<(Item, Item)>) -> Result<
    (Seq<(Item, Item)>, int),
    Failure,
>
    decreases rest(s, pos), 2nat, count,
{
    if count == 0 {
        Ok((acc, pos))
    } else if pos < 0 || pos >= s.len() {
        Err(Failure::Incomplete)
    } else {
        match parse_entry(s, pos, acc) {
            Err(f) => Err(f),
            Ok((entry, next)) => if next <= pos {
                Err(Failure::Incomplete)
            } else {
                parse_entries(s, next, (count - 1) as nat, acc.push(entry))
            },
        }
    }
}

/// The entries from `pos` up to the break or the end of the bytes, after
/// the entries `acc`, and the place where they end: that of the break, which
/// is left unread, or the end of the bytes.
pub open spec fn parse_open_entries(s: Seq<u8>, pos: int, acc: Seq<(Item, Item)>) -> Result<
    (Seq<(Item, Item)>, int),
    Failure,
>
    decreases rest(s, pos), 2nat, 0nat,
{
    if pos < 0 || pos >= s.len() || s[pos] == BREAK {
        Ok((acc, pos))
    } else {
        match parse_entry(s, pos, acc) {
            Err(f) => Err(f),
            Ok((entry, next)) => if next <= pos {
                Err(Failure::Incomplete)
            } else {
                parse_open_entries(s, next, acc.push(entry))
            },
        }
    }
}

} // verus!

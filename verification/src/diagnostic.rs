//! The diagnostic notation: a data item written out for a human reader.
//!
//! The notation is a sequence of runs. A run is a text, or a finite
//! floating-point number that the reader of the runs writes in decimal:
//! this crate works on bit patterns and has no decimal form of such a number.
use vstd::prelude::*;
use vstd::string::StringExecFns;
use crate::content::{joined, texts};
use crate::data_item::{models, DataItem};
use crate::entry_map::entries_of;
use crate::float::{is_nan, INFINITY, SIGN_BIT};
use crate::model::{array_item_is_smaller, map_entry_is_smaller, tag_content_is_smaller, Item};
use crate::text::{decimal, hex, push_decimal, push_hex};

verus! {

/// One run of the notation.
pub enum Run {
    /// The characters of a text.
    Text(Seq<char>),
    /// A finite floating-point number, as its binary64 bit pattern.
    Number(u64),
}

/// A run of the notation: a text, or one finite floating-point number.
#[derive(Debug, PartialEq, Eq)]
pub enum Piece {
    /// The characters of a text.
    Text(String),
    /// A finite floating-point number, as its binary64 bit pattern.
    Float(u64),
}

/// A text as a notation of one run.
pub open spec fn text_run(s: Seq<char>) -> Seq<Run> {
    seq![Run::Text(s)]
}

/// The run that a piece holds.
pub open spec fn run_of(p: Piece) -> Run {
    match p {
        Piece::Text(s) => Run::Text(s@),
        Piece::Float(bits) => Run::Number(bits),
    }
}

/// The runs that pieces hold, in order.
pub open spec fn runs_of(pieces: Seq<Piece>) -> Seq<Run> {
    Seq::new(pieces.len(), |i: int| run_of(pieces[i]))
}

/// What `{:?}` writes for a text: the text between double quotes, with escapes.
pub uninterp spec fn quoted(s: Seq<char>) -> Seq<char>;

/// `format!` with `{:?}` on a `str`.
#[verifier::external_body]
fn quote(s: &str) -> (r: String)
    ensures
        r@ == quoted(s@),
{
    format!("{:?}", s)
}

/// A floating-point number: the three that are not finite by name, any
/// other as a run of its own.
pub open spec fn float_notation(bits: u64) -> Seq<Run> {
    if is_nan(bits) {
        text_run("NaN"@)
    } else if bits == INFINITY {
        text_run("Infinity"@)
    } else if bits == SIGN_BIT + INFINITY {
        text_run("-Infinity"@)
    } else {
        seq![Run::Number(bits)]
    }
}

/// The chunks of a byte string, each as `h'..'`, the first `n` of them,
/// with `, ` between.
pub open spec fn byte_chunks_notation(chunks: Seq<Seq<u8>>, n: nat) -> Seq<char>
    decreases n,
{
    if n == 0 || n > chunks.len() {
        Seq::empty()
    } else {
        let one = "h'"@ + hex(chunks[n - 1]) + "'"@;
        if n == 1 {
            one
        } else {
            byte_chunks_notation(chunks, (n - 1) as nat) + ", "@ + one
        }
    }
}

/// The chunks of a text string, each quoted, the first `n` of them, with
/// `, ` between.
pub open spec fn text_chunks_notation(chunks: Seq<Seq<char>>, n: nat) -> Seq<char>
    decreases n,
{
    if n == 0 || n > chunks.len() {
        Seq::empty()
    } else if n == 1 {
        quoted(chunks[0])
    } else {
        text_chunks_notation(chunks, (n - 1) as nat) + ", "@ + quoted(chunks[n - 1])
    }
}

/// The notation of a data item.
pub open spec fn notation(v: Item) -> Seq<Run>
    decreases v, 0nat,
{
    match v {
        Item::Unsigned(n) => text_run(decimal(n as nat)),
        Item::Signed(n) => text_run("-"@ + decimal((n + 1) as nat)),
        Item::Byte { indefinite, chunks } => if indefinite {
            text_run("(_ "@ + byte_chunks_notation(chunks, chunks.len()) + ")"@)
        } else {
            text_run("h'"@ + hex(joined(chunks)) + "'"@)
        },
        Item::Text { indefinite, chunks } => if indefinite {
            text_run("(_ "@ + text_chunks_notation(chunks, chunks.len()) + ")"@)
        } else {
            text_run(quoted(joined(chunks)))
        },
        Item::Array { indefinite, items } => text_run(if indefinite { "[_ "@ } else { "["@ })
            + items_notation(items, items.len()) + text_run("]"@),
        Item::Mapping { indefinite, entries } => text_run(if indefinite { "{_ "@ } else { "{"@ })
            + entries_notation(entries, entries.len()) + text_run("}"@),
        Item::Tag { number, content } => text_run(decimal(number as nat) + "("@) + notation(*content)
            + text_run(")"@),
        Item::Boolean(b) => text_run(if b { "true"@ } else { "false"@ }),
        Item::Null => text_run("null"@),
        Item::Undefined => text_run("undefined"@),
        Item::Floating(bits) => float_notation(bits),
        Item::GenericSimple(n) => text_run("simple("@ + decimal(n as nat) + ")"@),
    }
}

/// The notation of the first `n` items of a sequence, with `, ` between.
pub open spec fn items_notation(items: Seq<Item>, n: nat) -> Seq<Run>
    decreases items, n,
{
    if n == 0 || n > items.len() {
        Seq::empty()
    } else if n == 1 {
        notation(items[0])
    } else {
        items_notation(items, (n - 1) as nat) + text_run(", "@) + notation(items[n - 1])
    }
}

/// The notation of the first `n` entries of a sequence, each as key, `: `
/// and value, with `, ` between.
pub open spec fn entries_notation(entries: Seq<(Item, Item)>, n: nat) -> Seq<Run>
    decreases entries, n,
{
    if n == 0 || n > entries.len() {
        Seq::empty()
    } else {
        let one = notation(entries[n - 1].0) + text_run(": "@) + notation(entries[n - 1].1);
        if n == 1 {
            one
        } else {
            entries_notation(entries, (n - 1) as nat) + text_run(", "@) + one
        }
    }
}

/// The bytes of a binary64 pattern, most significant first.
pub open spec fn pattern_bytes(bits: u64) -> Seq<u8> {
    crate::encode::big_endian(bits as nat, 8)
}

/// Runs as one text: a text as itself, a finite floating-point number as
/// `float(..)` round the sixteen hexadecimal digits of its bit pattern.
pub open spec fn spelled(t: Seq<Run>) -> Seq<char>
    decreases t.len(),
{
    if t.len() == 0 {
        Seq::empty()
    } else {
        spelled(t.drop_last()) + match t.last() {
            Run::Text(s) => s,
            Run::Number(bits) => "float("@ + hex(pattern_bytes(bits)) + ")"@,
        }
    }
}

proof fn runs_of_push(pieces: Seq<Piece>, p: Piece)
    ensures
        runs_of(pieces.push(p)) == runs_of(pieces) + seq![run_of(p)],
{
    assert(runs_of(pieces.push(p)) =~= runs_of(pieces) + seq![run_of(p)]);
}

/// Appends a text.
fn push_text(out: &mut Vec<Piece>, s: String)
    ensures
        runs_of(final(out)@) == runs_of(old(out)@) + text_run(s@),
{
    proof {
        runs_of_push(out@, Piece::Text(s));
    }
    out.push(Piece::Text(s));
}

/// Appends a text.
fn push_str(out: &mut Vec<Piece>, s: &str)
    ensures
        runs_of(final(out)@) == runs_of(old(out)@) + text_run(s@),
{
    push_text(out, String::from_str(s));
}

/// Appends the notation of a floating-point number.
fn push_float(out: &mut Vec<Piece>, bits: u64)
    ensures
        runs_of(final(out)@) == runs_of(old(out)@) + float_notation(bits),
{
    if bits % SIGN_BIT > INFINITY {
        push_str(out, "NaN");
    } else if bits == INFINITY {
        push_str(out, "Infinity");
    } else if bits == SIGN_BIT + INFINITY {
        push_str(out, "-Infinity");
    } else {
        proof {
            runs_of_push(out@, Piece::Float(bits));
        }
        out.push(Piece::Float(bits));
    }
}

/// The chunks of a byte string, each as `h'..'`, with `, ` between.
fn byte_chunks_text(chunks: &[Vec<u8>]) -> (r: String)
    ensures
        r@ == byte_chunks_notation(crate::content::blobs(chunks@), chunks@.len()),
{
    let mut text = String::new();
    let ghost all = crate::content::blobs(chunks@);
    let mut i: usize = 0;
    while i < chunks.len()
        invariant
            i <= chunks.len(),
            all == crate::content::blobs(chunks@),
            text@ == byte_chunks_notation(all, i as nat),
        decreases chunks.len() - i,
    {
        let ghost before = text@;
        if i > 0 {
            text.append(", ");
        }
        text.append("h'");
        push_hex(&mut text, chunks[i].as_slice());
        text.append("'");
        assert(text@ =~= byte_chunks_notation(all, (i + 1) as nat));
        i += 1;
    }
    text
}

/// The chunks of a text string, each quoted, with `, ` between.
fn text_chunks_text(chunks: &[String]) -> (r: String)
    ensures
        r@ == text_chunks_notation(texts(chunks@), chunks@.len()),
{
    let mut text = String::new();
    let ghost all = texts(chunks@);
    let mut i: usize = 0;
    while i < chunks.len()
        invariant
            i <= chunks.len(),
            all == texts(chunks@),
            text@ == text_chunks_notation(all, i as nat),
        decreases chunks.len() - i,
    {
        if i > 0 {
            text.append(", ");
        }
        let one = quote(chunks[i].as_str());
        text.append(one.as_str());
        assert(text@ =~= text_chunks_notation(all, (i + 1) as nat));
        i += 1;
    }
    text
}

/// Appends the notation of `item`.
fn write_item(item: &DataItem, out: &mut Vec<Piece>)
    ensures
        runs_of(final(out)@) == runs_of(old(out)@) + notation(item@),
    decreases item@,
{
    match item {
        DataItem::Unsigned(n) => {
            let mut text = String::new();
            push_decimal(&mut text, *n as u128);
            assert(text@ =~= decimal(*n as nat));
            push_text(out, text);
        },
        DataItem::Signed(n) => {
            let mut text = String::from_str("-");
            push_decimal(&mut text, *n as u128 + 1);
            push_text(out, text);
        },
        DataItem::Byte(byte) => {
            if byte.is_indefinite() {
                let mut text = String::from_str("(_ ");
                let inner = byte_chunks_text(byte.chunk());
                text.append(inner.as_str());
                text.append(")");
                push_text(out, text);
            } else {
                let mut text = String::from_str("h'");
                let full = byte.full();
                push_hex(&mut text, full.as_slice());
                text.append("'");
                push_text(out, text);
            }
        },
        DataItem::Text(content) => {
            if content.is_indefinite() {
                let mut text = String::from_str("(_ ");
                let inner = text_chunks_text(content.chunk());
                text.append(inner.as_str());
                text.append(")");
                push_text(out, text);
            } else {
                let full = content.full();
                push_text(out, quote(full.as_str()));
            }
        },
        DataItem::Array(array) => {
            assert(item@ == Item::Array {
                indefinite: array.is_indefinite,
                items: models(array.array@),
            });
            let ghost items = item@->items;
            let ghost start = runs_of(out@);
            if array.is_indefinite {
                push_str(out, "[_ ");
            } else {
                push_str(out, "[");
            }
            let ghost opened = runs_of(out@);
            let mut i: usize = 0;
            assert(opened =~= opened + items_notation(items, 0));
            while i < array.array.len()
                invariant
                    i <= array.array.len(),
                    item@ is Array,
                    items == item@->items,
                    items == models(array.array@),
                    runs_of(out@) == opened + items_notation(items, i as nat),
                decreases array.array.len() - i,
            {
                proof {
                    array_item_is_smaller(item@, i as int);
                }
                if i > 0 {
                    push_str(out, ", ");
                }
                write_item(&array.array[i], out);
                assert(runs_of(out@) =~= opened + items_notation(items, (i + 1) as nat));
                i += 1;
            }
            push_str(out, "]");
            assert(runs_of(out@) =~= start + notation(item@));
        },
        DataItem::Mapping(map) => {
            let ghost entries = item@->entries;
            let ghost start = runs_of(out@);
            if map.is_indefinite {
                push_str(out, "{_ ");
            } else {
                push_str(out, "{");
            }
            let ghost opened = runs_of(out@);
            let count = map.map.len();
            let mut i: usize = 0;
            assert(opened =~= opened + entries_notation(entries, 0));
            while i < count
                invariant
                    i <= count,
                    item@ is Mapping,
                    entries == item@->entries,
                    entries == entries_of(map.map),
                    count == entries.len(),
                    runs_of(out@) == opened + entries_notation(entries, i as nat),
                decreases count - i,
            {
                proof {
                    map_entry_is_smaller(item@, i as int);
                }
                if i > 0 {
                    push_str(out, ", ");
                }
                let (key, value) = map.map.entry_at(i);
                write_item(key, out);
                push_str(out, ": ");
                write_item(value, out);
                assert(runs_of(out@) =~= opened + entries_notation(entries, (i + 1) as nat));
                i += 1;
            }
            push_str(out, "}");
            assert(runs_of(out@) =~= start + notation(item@));
        },
        DataItem::Tag(tag) => {
            proof {
                tag_content_is_smaller(item@);
            }
            let ghost start = runs_of(out@);
            let mut text = String::new();
            push_decimal(&mut text, tag.number as u128);
            text.append("(");
            assert(text@ =~= decimal(tag.number as nat) + "("@);
            push_text(out, text);
            write_item(&*tag.content, out);
            push_str(out, ")");
            assert(runs_of(out@) =~= start + notation(item@));
        },
        DataItem::Boolean(b) => {
            if *b {
                push_str(out, "true");
            } else {
                push_str(out, "false");
            }
        },
        DataItem::Null => {
            push_str(out, "null");
        },
        DataItem::Undefined => {
            push_str(out, "undefined");
        },
        DataItem::Floating(bits) => {
            push_float(out, *bits);
        },
        DataItem::GenericSimple(simple) => {
            let mut text = String::from_str("simple(");
            push_decimal(&mut text, simple.val() as u128);
            text.append(")");
            push_text(out, text);
        },
    }
}

/// Runs one after another are spelled one after another.
pub proof fn spelled_of_sum(a: Seq<Run>, b: Seq<Run>)
    ensures
        spelled(a + b) == spelled(a) + spelled(b),
    decreases b.len(),
{
    if b.len() == 0 {
        assert(a + b =~= a);
        assert(spelled(a) + spelled(b) =~= spelled(a));
    } else {
        assert((a + b).drop_last() =~= a + b.drop_last());
        assert((a + b).last() == b.last());
        spelled_of_sum(a, b.drop_last());
        let tail = match b.last() {
            Run::Text(s) => s,
            Run::Number(bits) => "float("@ + hex(pattern_bytes(bits)) + ")"@,
        };
        assert(spelled(a + b) =~= spelled(a) + (spelled(b.drop_last()) + tail));
    }
}

/// One run is spelled as what it holds.
pub proof fn spelled_of_one(r: Run)
    ensures
        spelled(seq![r]) == match r {
            Run::Text(s) => s,
            Run::Number(bits) => "float("@ + hex(pattern_bytes(bits)) + ")"@,
        },
{
    assert(seq![r].drop_last() =~= Seq::<Run>::empty());
    assert(seq![r].last() == r);
    assert(spelled(Seq::<Run>::empty()) =~= Seq::<char>::empty());
    assert(spelled(seq![r]) =~= match r {
        Run::Text(s) => s,
        Run::Number(bits) => "float("@ + hex(pattern_bytes(bits)) + ")"@,
    });
}

/// The pieces written out as one text, a finite floating-point number as
/// `float(..)` round the hexadecimal digits of its bit pattern.
pub fn spell(pieces: &Vec<Piece>) -> (r: String)
    ensures
        r@ == spelled(runs_of(pieces@)),
{
    let mut text = String::new();
    let mut i: usize = 0;
    assert(pieces@.subrange(0, 0) =~= Seq::<Piece>::empty());
    while i < pieces.len()
        invariant
            i <= pieces.len(),
            text@ == spelled(runs_of(pieces@.subrange(0, i as int))),
        decreases pieces.len() - i,
    {
        let ghost before = runs_of(pieces@.subrange(0, i as int));
        proof {
            let one = seq![run_of(pieces@[i as int])];
            assert(runs_of(pieces@.subrange(0, i + 1)) =~= before + one);
            spelled_of_sum(before, one);
            spelled_of_one(run_of(pieces@[i as int]));
        }
        match &pieces[i] {
            Piece::Text(s) => {
                text.append(s.as_str());
            },
            Piece::Float(bits) => {
                let mut pattern: Vec<u8> = Vec::new();
                crate::encode::push_big_endian(&mut pattern, *bits, 8);
                assert(pattern@ =~= pattern_bytes(*bits));
                text.append("float(");
                push_hex(&mut text, pattern.as_slice());
                text.append(")");
                assert(text@ =~= spelled(before) + ("float("@ + hex(pattern_bytes(*bits)) + ")"@));
            },
        }
        i += 1;
    }
    assert(pieces@.subrange(0, pieces@.len() as int) =~= pieces@);
    text
}

impl DataItem {
    /// The item in the diagnostic notation, as one text; see `spell`.
    pub fn diagnostic_text(&self) -> (r: String)
        ensures
            r@ == spelled(notation(self@)),
    {
        let pieces = self.diagnostic();
        spell(&pieces)
    }

    /// The item in the diagnostic notation, as pieces to be written one
    /// after another.
    pub fn diagnostic(&self) -> (r: Vec<Piece>)
        ensures
            runs_of(r@) == notation(self@),
    {
        let mut out: Vec<Piece> = Vec::new();
        write_item(self, &mut out);
        assert(runs_of(out@) =~= notation(self@));
        out
    }
}

} // verus!

//! What holds of the deterministic form: the transform yields it, changes
//! nothing in what is in it already, and permutes the entries of a map.
use vstd::prelude::*;
use crate::deterministic::{canonical, canonical_entries, canonical_items, is_canonical, key_le, keys_in_order, lex_le, rebuilt, slot, sorted, DeterministicMode};
use crate::model::{alike, fresh, place_is_bounded, place_of, well_formed, Item};

verus! {

/// Of two byte strings one does not come after the other.
pub proof fn lex_le_is_total(a: Seq<u8>, b: Seq<u8>)
    ensures
        lex_le(a, b) || lex_le(b, a),
    decreases a.len(),
{
    if a.len() > 0 && b.len() > 0 && a.first() == b.first() {
        lex_le_is_total(a.drop_first(), b.drop_first());
    }
}

/// The bytewise order is transitive.
pub proof fn lex_le_is_transitive(a: Seq<u8>, b: Seq<u8>, c: Seq<u8>)
    requires
        lex_le(a, b),
        lex_le(b, c),
    ensures
        lex_le(a, c),
    decreases a.len(),
{
    if a.len() > 0 && b.len() > 0 && c.len() > 0 && a.first() == b.first() && b.first()
        == c.first() {
        lex_le_is_transitive(a.drop_first(), b.drop_first(), c.drop_first());
    }
}

/// Of two keys one does not come after the other.
pub proof fn key_le_is_total(a: Item, b: Item, mode: DeterministicMode)
    ensures
        key_le(a, b, mode) || key_le(b, a, mode),
{
    lex_le_is_total(crate::encode::encoding(a), crate::encode::encoding(b));
}

/// The order of keys is transitive.
pub proof fn key_le_is_transitive(a: Item, b: Item, c: Item, mode: DeterministicMode)
    requires
        key_le(a, b, mode),
        key_le(b, c, mode),
    ensures
        key_le(a, c, mode),
{
    let x = crate::encode::encoding(a);
    let y = crate::encode::encoding(b);
    let z = crate::encode::encoding(c);
    match mode {
        DeterministicMode::Core => {
            lex_le_is_transitive(x, y, z);
        },
        DeterministicMode::LengthFirst => {
            if x.len() == y.len() && y.len() == z.len() {
                lex_le_is_transitive(x, y, z);
            }
        },
    }
}

/// Whether no key comes after any key behind it.
pub open spec fn ordered(t: Seq<(Item, Item)>, mode: DeterministicMode) -> bool {
    forall|i: int, j: int| 0 <= i < j < t.len() ==> key_le(#[trigger] t[i].0, #[trigger] t[j].0, mode)
}

/// The keys before the slot of `x` do not come after the key of `x`; the
/// keys from the slot on come after it.
proof fn slot_divides(t: Seq<(Item, Item)>, x: (Item, Item), mode: DeterministicMode)
    requires
        ordered(t, mode),
    ensures
        0 <= slot(t, x, mode) <= t.len(),
        forall|i: int| 0 <= i < slot(t, x, mode) ==> key_le(#[trigger] t[i].0, x.0, mode),
        forall|i: int| slot(t, x, mode) <= i < t.len() ==> key_le(x.0, #[trigger] t[i].0, mode),
    decreases t.len(),
{
    if t.len() > 0 {
        if key_le(t.last().0, x.0, mode) {
            assert forall|i: int| 0 <= i < t.len() implies key_le(#[trigger] t[i].0, x.0, mode) by {
                if i < t.len() - 1 {
                    assert(key_le(t[i].0, t[t.len() - 1].0, mode));
                    key_le_is_transitive(t[i].0, t.last().0, x.0, mode);
                }
            }
        } else {
            let rest = t.drop_last();
            assert forall|i: int, j: int| 0 <= i < j < rest.len() implies key_le(
                #[trigger] rest[i].0,
                #[trigger] rest[j].0,
                mode,
            ) by {
                assert(key_le(t[i].0, t[j].0, mode));
            }
            slot_divides(rest, x, mode);
            key_le_is_total(t.last().0, x.0, mode);
            assert forall|i: int| slot(t, x, mode) <= i < t.len() implies key_le(
                x.0,
                #[trigger] t[i].0,
                mode,
            ) by {
                if i < t.len() - 1 {
                    assert(t[i] == rest[i]);
                }
            }
            assert forall|i: int| 0 <= i < slot(t, x, mode) implies key_le(
                #[trigger] t[i].0,
                x.0,
                mode,
            ) by {
                assert(t[i] == rest[i]);
            }
        }
    }
}

/// Sorted entries are in order.
pub proof fn sorted_is_ordered(s: Seq<(Item, Item)>, mode: DeterministicMode)
    ensures
        ordered(sorted(s, mode), mode),
        sorted(s, mode).len() == s.len(),
    decreases s.len(),
{
    if s.len() > 0 {
        let t = sorted(s.drop_last(), mode);
        let x = s.last();
        sorted_is_ordered(s.drop_last(), mode);
        slot_divides(t, x, mode);
        let at = slot(t, x, mode) as int;
        let u = t.insert(at, x);
        assert forall|i: int, j: int| 0 <= i < j < u.len() implies key_le(
            #[trigger] u[i].0,
            #[trigger] u[j].0,
            mode,
        ) by {
            if j < at {
                assert(u[i] == t[i] && u[j] == t[j]);
            } else if j == at {
                assert(u[i] == t[i]);
            } else if i < at {
                assert(u[i] == t[i] && u[j] == t[j - 1]);
                if i < j - 1 {
                    assert(key_le(t[i].0, t[j - 1].0, mode));
                } else {
                    key_le_is_transitive(t[i].0, x.0, t[j - 1].0, mode);
                }
            } else if i == at {
                assert(u[j] == t[j - 1]);
            } else {
                assert(u[i] == t[i - 1] && u[j] == t[j - 1]);
            }
        }
    }
}

/// Sorted entries are the entries that were sorted, each as often as it
/// stood there.
pub proof fn sorted_is_a_permutation(s: Seq<(Item, Item)>, mode: DeterministicMode)
    ensures
        sorted(s, mode).to_multiset() == s.to_multiset(),
    decreases s.len(),
{
    if s.len() > 0 {
        let p = s.drop_last();
        let x = s.last();
        let t = sorted(p, mode);
        sorted_is_a_permutation(p, mode);
        sorted_is_ordered(p, mode);
        slot_divides(t, x, mode);
        let at = slot(t, x, mode) as int;
        let u = t.insert(at, x);
        assert(u.remove(at) =~= t);
        assert(u[at] == x);
        vstd::seq_lib::to_multiset_remove(u, at);
        u.to_multiset_ensures();
        assert(u.contains(x));
        assert(u.to_multiset() =~= t.to_multiset().insert(x));
        assert(p.push(x) =~= s);
        vstd::seq_lib::to_multiset_build(p, x);
    }
}

/// Rebuilding entries whose keys all lie before `x` yields entries whose
/// keys all lie before `x`.
proof fn rebuilt_stays_below(s: Seq<(Item, Item)>, x: Item, mode: DeterministicMode)
    requires
        forall|i: int| 0 <= i < s.len() ==> key_le(#[trigger] s[i].0, x, mode),
    ensures
        forall|i: int| 0 <= i < rebuilt(s).len() ==> key_le(#[trigger] rebuilt(s)[i].0, x, mode),
    decreases s.len(),
{
    if s.len() > 0 {
        let p = s.drop_last();
        assert forall|i: int| 0 <= i < p.len() implies key_le(#[trigger] p[i].0, x, mode) by {
            assert(p[i] == s[i]);
        }
        rebuilt_stays_below(p, x, mode);
        place_is_bounded(rebuilt(p), s.last().0);
        let r = rebuilt(s);
        assert forall|i: int| 0 <= i < r.len() implies key_le(#[trigger] r[i].0, x, mode) by {
            if i < rebuilt(p).len() {
                assert(r[i].0 == rebuilt(p)[i].0);
            } else {
                assert(r[i].0 == s.last().0);
            }
        }
    }
}

/// Rebuilding entries that are in order yields entries that are in order.
pub proof fn rebuilt_is_ordered(s: Seq<(Item, Item)>, mode: DeterministicMode)
    requires
        ordered(s, mode),
    ensures
        ordered(rebuilt(s), mode),
    decreases s.len(),
{
    if s.len() > 0 {
        let p = s.drop_last();
        assert forall|i: int, j: int| 0 <= i < j < p.len() implies key_le(
            #[trigger] p[i].0,
            #[trigger] p[j].0,
            mode,
        ) by {
            assert(key_le(s[i].0, s[j].0, mode));
        }
        rebuilt_is_ordered(p, mode);
        assert forall|i: int| 0 <= i < p.len() implies key_le(
            #[trigger] p[i].0,
            s.last().0,
            mode,
        ) by {
            assert(key_le(s[i].0, s[s.len() - 1].0, mode));
        }
        rebuilt_stays_below(p, s.last().0, mode);
        place_is_bounded(rebuilt(p), s.last().0);
        let q = rebuilt(p);
        let r = rebuilt(s);
        assert forall|i: int, j: int| 0 <= i < j < r.len() implies key_le(
            #[trigger] r[i].0,
            #[trigger] r[j].0,
            mode,
        ) by {
            if j < q.len() {
                assert(r[i].0 == q[i].0 && r[j].0 == q[j].0);
                assert(key_le(q[i].0, q[j].0, mode));
            } else {
                assert(r[i].0 == q[i].0);
                assert(r[j].0 == s.last().0);
            }
        }
    }
}

/// The deterministic forms of items are as many as the items, each the
/// form of the item in its place.
pub proof fn canonical_items_are_pointwise(items: Seq<Item>, n: nat, mode: DeterministicMode)
    requires
        n <= items.len(),
    ensures
        canonical_items(items, n, mode).len() == n,
        forall|i: int|
            0 <= i < n ==> #[trigger] canonical_items(items, n, mode)[i] == canonical(
                items[i],
                mode,
            ),
    decreases n,
{
    if n > 0 {
        canonical_items_are_pointwise(items, (n - 1) as nat, mode);
    }
}

/// The deterministic forms of entries are as many as the entries, each the
/// forms of the key and the value in its place.
pub proof fn canonical_entries_are_pointwise(
    entries: Seq<(Item, Item)>,
    n: nat,
    mode: DeterministicMode,
)
    requires
        n <= entries.len(),
    ensures
        canonical_entries(entries, n, mode).len() == n,
        forall|i: int|
            0 <= i < n ==> #[trigger] canonical_entries(entries, n, mode)[i] == (
                canonical(entries[i].0, mode),
                canonical(entries[i].1, mode),
            ),
    decreases n,
{
    if n > 0 {
        canonical_entries_are_pointwise(entries, (n - 1) as nat, mode);
    }
}

/// The transform yields the deterministic form: whatever the item and the
/// mode, the result passes the test of that mode.
pub proof fn canonical_is_canonical(v: Item, mode: DeterministicMode)
    ensures
        is_canonical(canonical(v, mode), mode),
    decreases v,
{
    match v {
        Item::Mapping { indefinite, entries } => {
            let c = canonical_entries(entries, entries.len(), mode);
            sorted_is_ordered(c, mode);
            rebuilt_is_ordered(sorted(c, mode), mode);
            let r = rebuilt(sorted(c, mode));
            assert forall|i: int| 0 <= i < r.len() - 1 implies key_le(
                #[trigger] r[i].0,
                r[i + 1].0,
                mode,
            ) by {
                assert(key_le(r[i].0, r[i + 1].0, mode));
            }
            let formed = |x: Item| is_canonical(x, mode);
            canonical_entries_are_pointwise(entries, entries.len(), mode);
            assert forall|i: int| 0 <= i < c.len() implies formed((#[trigger] c[i]).0) && formed(
                c[i].1,
            ) by {
                canonical_is_canonical(entries[i].0, mode);
                canonical_is_canonical(entries[i].1, mode);
            }
            sorted_keeps(c, mode, formed, formed);
            rebuilt_keeps(sorted(c, mode), formed, formed);
            assert forall|i: int| 0 <= i < r.len() implies is_canonical((#[trigger] r[i]).0, mode)
                && is_canonical(r[i].1, mode) by {
                assert(formed(r[i].0) && formed(r[i].1));
            }
        },
        Item::Array { indefinite, items } => {
            canonical_items_are_pointwise(items, items.len(), mode);
            let c = canonical_items(items, items.len(), mode);
            assert forall|i: int| 0 <= i < c.len() implies is_canonical(#[trigger] c[i], mode) by {
                canonical_is_canonical(items[i], mode);
            }
        },
        Item::Tag { number, content } => {
            canonical_is_canonical(*content, mode);
        },
        _ => {},
    }
}

/// Whether `p` holds of the key and `w` of the value of every entry.
pub open spec fn both_hold(
    s: Seq<(Item, Item)>,
    p: spec_fn(Item) -> bool,
    w: spec_fn(Item) -> bool,
) -> bool {
    forall|i: int| 0 <= i < s.len() ==> p((#[trigger] s[i]).0) && w(s[i].1)
}

/// What holds of the key and the value of every entry holds of them after
/// sorting.
proof fn sorted_keeps(
    s: Seq<(Item, Item)>,
    mode: DeterministicMode,
    p: spec_fn(Item) -> bool,
    w: spec_fn(Item) -> bool,
)
    requires
        both_hold(s, p, w),
    ensures
        both_hold(sorted(s, mode), p, w),
    decreases s.len(),
{
    if s.len() > 0 {
        let q = s.drop_last();
        assert forall|i: int| 0 <= i < q.len() implies p((#[trigger] q[i]).0) && w(q[i].1) by {
            assert(q[i] == s[i]);
        }
        sorted_keeps(q, mode, p, w);
        sorted_is_ordered(q, mode);
        let t = sorted(q, mode);
        slot_divides(t, s.last(), mode);
        let at = slot(t, s.last(), mode) as int;
        let u = t.insert(at, s.last());
        assert forall|i: int| 0 <= i < u.len() implies p((#[trigger] u[i]).0) && w(u[i].1) by {
            if i < at {
                assert(u[i] == t[i]);
            } else if i == at {
                assert(u[i] == s[s.len() - 1]);
            } else {
                assert(u[i] == t[i - 1]);
            }
        }
    }
}

/// What holds of the key and the value of every entry holds of them after
/// rebuilding.
proof fn rebuilt_keeps(s: Seq<(Item, Item)>, p: spec_fn(Item) -> bool, w: spec_fn(Item) -> bool)
    requires
        both_hold(s, p, w),
    ensures
        both_hold(rebuilt(s), p, w),
    decreases s.len(),
{
    if s.len() > 0 {
        let q = s.drop_last();
        assert forall|i: int| 0 <= i < q.len() implies p((#[trigger] q[i]).0) && w(q[i].1) by {
            assert(q[i] == s[i]);
        }
        rebuilt_keeps(q, p, w);
        let old = rebuilt(q);
        place_is_bounded(old, s.last().0);
        let r = rebuilt(s);
        let at = place_of(old, s.last().0);
        assert(s[s.len() - 1] == s.last());
        assert forall|i: int| 0 <= i < r.len() implies p((#[trigger] r[i]).0) && w(r[i].1) by {
            if i < old.len() && i != at {
                assert(r[i] == old[i]);
            } else if i < old.len() {
                assert(r[i] == (old[at].0, s.last().1));
                assert(p(old[at].0));
            } else {
                assert(r[i] == s.last());
            }
        }
    }
}

/// Sorting entries that are in order changes nothing.
pub proof fn sorted_of_ordered(s: Seq<(Item, Item)>, mode: DeterministicMode)
    requires
        ordered(s, mode),
    ensures
        sorted(s, mode) == s,
    decreases s.len(),
{
    if s.len() > 0 {
        let p = s.drop_last();
        assert forall|i: int, j: int| 0 <= i < j < p.len() implies key_le(
            #[trigger] p[i].0,
            #[trigger] p[j].0,
            mode,
        ) by {
            assert(key_le(s[i].0, s[j].0, mode));
        }
        sorted_of_ordered(p, mode);
        if p.len() > 0 {
            assert(key_le(s[p.len() - 1].0, s[s.len() - 1].0, mode));
            assert(p.last() == s[p.len() - 1]);
        }
        assert(slot(p, s.last(), mode) == p.len());
        assert(p.insert(p.len() as int, s.last()) =~= s);
    }
}

/// The place of a key depends on the keys alone.
proof fn place_goes_by_keys(a: Seq<(Item, Item)>, b: Seq<(Item, Item)>, key: Item)
    requires
        a.len() == b.len(),
        forall|i: int| 0 <= i < a.len() ==> (#[trigger] a[i]).0 == b[i].0,
    ensures
        place_of(a, key) == place_of(b, key),
    decreases a.len(),
{
    if a.len() > 0 {
        assert(a.first().0 == a[0].0 && b.first().0 == b[0].0);
        let x = a.drop_first();
        let y = b.drop_first();
        assert forall|i: int| 0 <= i < x.len() implies (#[trigger] x[i]).0 == y[i].0 by {
            assert(x[i] == a[i + 1]);
            assert(y[i] == b[i + 1]);
        }
        place_goes_by_keys(x, y, key);
    }
}

/// Rebuilt entries have no key that is like a key before it.
pub proof fn rebuilt_is_fresh(s: Seq<(Item, Item)>)
    ensures
        fresh(rebuilt(s)),
    decreases s.len(),
{
    if s.len() > 0 {
        let p = s.drop_last();
        rebuilt_is_fresh(p);
        let q = rebuilt(p);
        let r = rebuilt(s);
        let key = s.last().0;
        place_is_bounded(q, key);
        let at = place_of(q, key);
        assert forall|i: int| 0 <= i < r.len() implies place_of(
            r.subrange(0, i),
            (#[trigger] r[i]).0,
        ) == i by {
            if i < q.len() {
                assert(r[i].0 == q[i].0);
                let x = r.subrange(0, i);
                let y = q.subrange(0, i);
                assert forall|j: int| 0 <= j < x.len() implies (#[trigger] x[j]).0 == y[j].0 by {
                    assert(x[j] == r[j]);
                    assert(y[j] == q[j]);
                }
                place_goes_by_keys(x, y, r[i].0);
                assert(place_of(y, (q[i]).0) == i);
            } else {
                assert(r.subrange(0, i) =~= q);
            }
        }
    }
}

/// Rebuilding entries of which no key is like a key before it changes
/// nothing.
pub proof fn rebuilt_of_fresh(s: Seq<(Item, Item)>)
    requires
        fresh(s),
    ensures
        rebuilt(s) == s,
    decreases s.len(),
{
    if s.len() > 0 {
        let p = s.drop_last();
        assert forall|i: int| 0 <= i < p.len() implies place_of(
            p.subrange(0, i),
            (#[trigger] p[i]).0,
        ) == i by {
            assert(p.subrange(0, i) =~= s.subrange(0, i));
            assert(p[i] == s[i]);
        }
        rebuilt_of_fresh(p);
        assert(s.subrange(0, s.len() - 1) =~= p);
        assert(place_of(p, s[s.len() - 1].0) == s.len() - 1);
        assert(p.push(s.last()) =~= s);
    }
}

/// The transform is idempotent: applied to its own result, it changes
/// nothing.
pub proof fn canonical_is_idempotent(v: Item, mode: DeterministicMode)
    ensures
        canonical(canonical(v, mode), mode) == canonical(v, mode),
    decreases v,
{
    match v {
        Item::Mapping { indefinite, entries } => {
            let c = canonical_entries(entries, entries.len(), mode);
            canonical_entries_are_pointwise(entries, entries.len(), mode);
            let settled = |x: Item| canonical(x, mode) == x;
            assert forall|i: int| 0 <= i < c.len() implies settled((#[trigger] c[i]).0)
                && settled(c[i].1) by {
                canonical_is_idempotent(entries[i].0, mode);
                canonical_is_idempotent(entries[i].1, mode);
            }
            let t = sorted(c, mode);
            sorted_keeps(c, mode, settled, settled);
            sorted_is_ordered(c, mode);
            let r = rebuilt(t);
            rebuilt_keeps(t, settled, settled);
            assert forall|i: int| 0 <= i < r.len() implies canonical((#[trigger] r[i]).0, mode)
                == r[i].0 && canonical(r[i].1, mode) == r[i].1 by {
                assert(settled(r[i].0) && settled(r[i].1));
            }
            rebuilt_is_ordered(t, mode);
            rebuilt_is_fresh(t);
            canonical_entries_are_pointwise(r, r.len(), mode);
            assert(canonical_entries(r, r.len(), mode) =~= r);
            sorted_of_ordered(r, mode);
            rebuilt_of_fresh(r);
        },
        Item::Array { indefinite, items } => {
            let c = canonical_items(items, items.len(), mode);
            canonical_items_are_pointwise(items, items.len(), mode);
            canonical_items_are_pointwise(c, c.len(), mode);
            assert forall|i: int| 0 <= i < c.len() implies canonical(#[trigger] c[i], mode)
                == c[i] by {
                canonical_is_idempotent(items[i], mode);
            }
            assert(canonical_items(c, c.len(), mode) =~= c);
        },
        Item::Tag { number, content } => {
            canonical_is_idempotent(*content, mode);
        },
        _ => {},
    }
}

/// Keys of which none comes after the next are in order throughout.
proof fn in_order_is_ordered(s: Seq<(Item, Item)>, mode: DeterministicMode, i: int, j: int)
    requires
        keys_in_order(s, mode),
        0 <= i < j < s.len(),
    ensures
        key_le(s[i].0, s[j].0, mode),
    decreases j - i,
{
    if i + 1 < j {
        in_order_is_ordered(s, mode, i, j - 1);
        assert(key_le(s[j - 1].0, s[j - 1 + 1].0, mode));
        key_le_is_transitive(s[i].0, s[j - 1].0, s[j].0, mode);
    } else {
        assert(key_le(s[i].0, s[i + 1].0, mode));
    }
}

/// The transform changes nothing in a well-formed item that is in the
/// deterministic form already.
pub proof fn canonical_of_canonical(v: Item, mode: DeterministicMode)
    requires
        is_canonical(v, mode),
        well_formed(v),
    ensures
        canonical(v, mode) == v,
    decreases v,
{
    match v {
        Item::Mapping { indefinite, entries } => {
            canonical_entries_are_pointwise(entries, entries.len(), mode);
            let c = canonical_entries(entries, entries.len(), mode);
            assert forall|i: int| 0 <= i < entries.len() implies #[trigger] c[i] == entries[i] by {
                canonical_of_canonical(entries[i].0, mode);
                canonical_of_canonical(entries[i].1, mode);
            }
            assert(c =~= entries);
            assert forall|i: int, j: int| 0 <= i < j < entries.len() implies key_le(
                #[trigger] entries[i].0,
                #[trigger] entries[j].0,
                mode,
            ) by {
                in_order_is_ordered(entries, mode, i, j);
            }
            sorted_of_ordered(entries, mode);
            rebuilt_of_fresh(entries);
        },
        Item::Array { indefinite, items } => {
            canonical_items_are_pointwise(items, items.len(), mode);
            let c = canonical_items(items, items.len(), mode);
            assert forall|i: int| 0 <= i < items.len() implies #[trigger] c[i] == items[i] by {
                canonical_of_canonical(items[i], mode);
            }
            assert(c =~= items);
        },
        Item::Tag { number, content } => {
            canonical_of_canonical(*content, mode);
        },
        _ => {},
    }
}

/// Whether no key is like another key.
pub open spec fn distinct_keys(s: Seq<(Item, Item)>) -> bool {
    forall|i: int, j: int|
        0 <= i < s.len() && 0 <= j < s.len() && i != j ==> !alike(
            (#[trigger] s[i]).0,
            (#[trigger] s[j]).0,
        )
}

/// A key that is like none of the keys has its place behind them.
proof fn place_of_absent(entries: Seq<(Item, Item)>, key: Item)
    requires
        forall|j: int| 0 <= j < entries.len() ==> !alike(key, (#[trigger] entries[j]).0),
    ensures
        place_of(entries, key) == entries.len(),
    decreases entries.len(),
{
    if entries.len() > 0 {
        assert(entries.first() == entries[0]);
        let rest = entries.drop_first();
        assert forall|j: int| 0 <= j < rest.len() implies !alike(key, (#[trigger] rest[j]).0) by {
            assert(rest[j] == entries[j + 1]);
        }
        place_of_absent(rest, key);
    }
}

/// Entries of which no key is like another have no key that is like a key
/// before it.
proof fn distinct_is_fresh(s: Seq<(Item, Item)>)
    requires
        distinct_keys(s),
    ensures
        fresh(s),
{
    assert forall|i: int| 0 <= i < s.len() implies place_of(
        s.subrange(0, i),
        (#[trigger] s[i]).0,
    ) == i by {
        let head = s.subrange(0, i);
        assert forall|j: int| 0 <= j < head.len() implies !alike(s[i].0, (#[trigger] head[j]).0) by {
            assert(head[j] == s[j]);
        }
        place_of_absent(head, s[i].0);
    }
}

/// Sorting entries of which no key is like another yields such entries.
proof fn sorted_stays_distinct(s: Seq<(Item, Item)>, mode: DeterministicMode)
    requires
        distinct_keys(s),
    ensures
        distinct_keys(sorted(s, mode)),
    decreases s.len(),
{
    if s.len() > 0 {
        let q = s.drop_last();
        let x = s.last();
        assert(x == s[s.len() - 1]);
        assert forall|i: int, j: int| 0 <= i < q.len() && 0 <= j < q.len() && i != j implies !alike(
            (#[trigger] q[i]).0,
            (#[trigger] q[j]).0,
        ) by {
            assert(q[i] == s[i] && q[j] == s[j]);
        }
        sorted_stays_distinct(q, mode);
        let apart = |k: Item| !alike(k, x.0) && !alike(x.0, k);
        let any = |v: Item| true;
        assert forall|i: int| 0 <= i < q.len() implies apart((#[trigger] q[i]).0) && any(q[i].1) by {
            assert(q[i] == s[i]);
        }
        sorted_keeps(q, mode, apart, any);
        sorted_is_ordered(q, mode);
        let t = sorted(q, mode);
        slot_divides(t, x, mode);
        let at = slot(t, x, mode) as int;
        let u = t.insert(at, x);
        assert forall|i: int, j: int| 0 <= i < u.len() && 0 <= j < u.len() && i != j implies !alike(
            (#[trigger] u[i]).0,
            (#[trigger] u[j]).0,
        ) by {
            let a = if i < at {
                i
            } else {
                i - 1
            };
            let b = if j < at {
                j
            } else {
                j - 1
            };
            if i == at {
                assert(u[i] == x);
                assert(u[j] == t[b]);
                assert(apart(t[b].0));
            } else if j == at {
                assert(u[j] == x);
                assert(u[i] == t[a]);
                assert(apart(t[a].0));
            } else {
                assert(u[i] == t[a] && u[j] == t[b]);
            }
        }
    }
}

/// The deterministic form of a map holds the deterministic forms of its
/// entries, each once, in the order of their keys: where no key is like
/// another once the keys are in their deterministic form, none is lost and
/// none is added, and each key keeps its own value.
pub proof fn canonical_map_is_a_permutation(
    indefinite: bool,
    entries: Seq<(Item, Item)>,
    mode: DeterministicMode,
)
    requires
        distinct_keys(canonical_entries(entries, entries.len(), mode)),
    ensures
        canonical(Item::Mapping { indefinite, entries }, mode) == (Item::Mapping {
            indefinite: false,
            entries: sorted(canonical_entries(entries, entries.len(), mode), mode),
        }),
        sorted(canonical_entries(entries, entries.len(), mode), mode).to_multiset()
            == canonical_entries(entries, entries.len(), mode).to_multiset(),
        ordered(sorted(canonical_entries(entries, entries.len(), mode), mode), mode),
{
    let c = canonical_entries(entries, entries.len(), mode);
    sorted_stays_distinct(c, mode);
    distinct_is_fresh(sorted(c, mode));
    rebuilt_of_fresh(sorted(c, mode));
    sorted_is_a_permutation(c, mode);
    sorted_is_ordered(c, mode);
}

/// The deterministic form of a map whose keys and values are in their
/// deterministic form already, and of which no key is like another, holds
/// the entries of the map, each once, in the order of their keys.
pub proof fn canonical_map_permutes_settled_entries(
    indefinite: bool,
    entries: Seq<(Item, Item)>,
    mode: DeterministicMode,
)
    requires
        distinct_keys(entries),
        forall|i: int|
            0 <= i < entries.len() ==> canonical((#[trigger] entries[i]).0, mode) == entries[i].0
                && canonical(entries[i].1, mode) == entries[i].1,
    ensures
        canonical(Item::Mapping { indefinite, entries }, mode) == (Item::Mapping {
            indefinite: false,
            entries: sorted(entries, mode),
        }),
        sorted(entries, mode).to_multiset() == entries.to_multiset(),
        ordered(sorted(entries, mode), mode),
{
    canonical_entries_are_pointwise(entries, entries.len(), mode);
    assert(canonical_entries(entries, entries.len(), mode) =~= entries);
    canonical_map_is_a_permutation(indefinite, entries, mode);
}

/// Byte strings of which neither comes after the other are equal.
pub proof fn lex_le_is_antisymmetric(a: Seq<u8>, b: Seq<u8>)
    requires
        lex_le(a, b),
        lex_le(b, a),
    ensures
        a == b,
    decreases a.len(),
{
    if a.len() == 0 {
        assert(a =~= b);
    } else {
        lex_le_is_antisymmetric(a.drop_first(), b.drop_first());
        assert(a =~= seq![a.first()] + a.drop_first());
        assert(b =~= seq![b.first()] + b.drop_first());
    }
}

/// Keys of which neither comes after the other have the same encoding.
pub proof fn key_le_is_antisymmetric(a: Item, b: Item, mode: DeterministicMode)
    requires
        key_le(a, b, mode),
        key_le(b, a, mode),
    ensures
        crate::encode::encoding(a) == crate::encode::encoding(b),
{
    lex_le_is_antisymmetric(crate::encode::encoding(a), crate::encode::encoding(b));
}

/// A key whose place is behind the entries is like none of their keys.
proof fn absent_is_unlike(entries: Seq<(Item, Item)>, key: Item, j: int)
    requires
        place_of(entries, key) == entries.len(),
        0 <= j < entries.len(),
    ensures
        !alike(key, entries[j].0),
    decreases entries.len(),
{
    assert(entries.first() == entries[0]);
    place_is_bounded(entries.drop_first(), key);
    if j > 0 {
        assert(entries.drop_first()[j - 1] == entries[j]);
        absent_is_unlike(entries.drop_first(), key, j - 1);
    }
}

/// In a well-formed map whose keys are in order, each key comes before
/// every key behind it, and not the other way round.
proof fn keys_rise(s: Seq<(Item, Item)>, mode: DeterministicMode, i: int, j: int)
    requires
        keys_in_order(s, mode),
        fresh(s),
        well_formed(s[i].0),
        well_formed(s[j].0),
        0 <= i < j < s.len(),
    ensures
        key_le(s[i].0, s[j].0, mode),
        !key_le(s[j].0, s[i].0, mode),
{
    in_order_is_ordered(s, mode, i, j);
    if key_le(s[j].0, s[i].0, mode) {
        key_le_is_antisymmetric(s[i].0, s[j].0, mode);
        crate::round_trip::encoding_is_injective(s[i].0, s[j].0);
        crate::well_formed::alike_is_reflexive(s[j].0);
        assert(place_of(s.subrange(0, j), s[j].0) == j);
        assert(s.subrange(0, j)[i] == s[i]);
        absent_is_unlike(s.subrange(0, j), s[j].0, i);
    }
}

/// Where in `there` the key of the entry of `here` at `k` is found.
pub open spec fn spot(here: Seq<(Item, Item)>, there: Seq<(Item, Item)>, k: int) -> int {
    place_of(there, here[k].0)
}

/// Whether every entry of `here` stands in `there`, both being the entries
/// of well-formed maps with keys in order.
pub open spec fn matched(
    here: Seq<(Item, Item)>,
    there: Seq<(Item, Item)>,
    mode: DeterministicMode,
) -> bool {
    &&& here.len() == there.len()
    &&& keys_in_order(here, mode)
    &&& keys_in_order(there, mode)
    &&& fresh(here)
    &&& forall|k: int| 0 <= k < here.len() ==> well_formed((#[trigger] here[k]).0)
    &&& forall|k: int|
        0 <= k < here.len() ==> 0 <= #[trigger] spot(here, there, k) < there.len() && here[k]
            == there[spot(here, there, k)]
}

proof fn spots_rise(
    here: Seq<(Item, Item)>,
    there: Seq<(Item, Item)>,
    mode: DeterministicMode,
    i: int,
    j: int,
)
    requires
        matched(here, there, mode),
        0 <= i < j < here.len(),
    ensures
        spot(here, there, i) < spot(here, there, j),
{
    let a = spot(here, there, i);
    let b = spot(here, there, j);
    assert(here[i] == there[a] && here[j] == there[b]);
    keys_rise(here, mode, i, j);
    if a == b {
        key_le_is_total(here[j].0, here[i].0, mode);
    } else if a > b {
        in_order_is_ordered(there, mode, b, a);
    }
}

proof fn spot_is_not_before(
    here: Seq<(Item, Item)>,
    there: Seq<(Item, Item)>,
    mode: DeterministicMode,
    k: int,
)
    requires
        matched(here, there, mode),
        0 <= k < here.len(),
    ensures
        spot(here, there, k) >= k,
    decreases k,
{
    if k > 0 {
        spot_is_not_before(here, there, mode, k - 1);
        spots_rise(here, there, mode, k - 1, k);
    }
}

proof fn spot_is_not_behind(
    here: Seq<(Item, Item)>,
    there: Seq<(Item, Item)>,
    mode: DeterministicMode,
    k: int,
)
    requires
        matched(here, there, mode),
        0 <= k < here.len(),
    ensures
        spot(here, there, k) <= k,
    decreases here.len() - k,
{
    if k + 1 < here.len() {
        spot_is_not_behind(here, there, mode, k + 1);
        spots_rise(here, there, mode, k, k + 1);
    }
}

/// Well-formed items in the deterministic form that are like each other are
/// equal: in that form, the order of the entries of a map tells nothing
/// apart.
pub proof fn alike_in_form_is_equal(a: Item, b: Item, mode: DeterministicMode)
    requires
        alike(a, b),
        is_canonical(a, mode),
        is_canonical(b, mode),
        well_formed(a),
        well_formed(b),
    ensures
        a == b,
    decreases a,
{
    match a {
        Item::Array { indefinite, items } => {
            let others = b->items;
            assert forall|i: int| 0 <= i < items.len() implies #[trigger] items[i] == others[i] by {
                alike_in_form_is_equal(items[i], others[i], mode);
            }
            assert(items =~= others);
        },
        Item::Tag { number, content } => {
            alike_in_form_is_equal(*content, *b->content, mode);
        },
        Item::Mapping { indefinite, entries } => {
            let others = b->entries;
            assert forall|k: int| 0 <= k < entries.len() implies 0 <= #[trigger] spot(
                entries,
                others,
                k,
            ) < others.len() && entries[k] == others[spot(entries, others, k)] by {
                let at = place_of(others, entries[k].0);
                place_is_bounded(others, entries[k].0);
                alike_in_form_is_equal(entries[k].0, others[at].0, mode);
                alike_in_form_is_equal(entries[k].1, others[at].1, mode);
            }
            assert(matched(entries, others, mode));
            assert forall|k: int| 0 <= k < entries.len() implies #[trigger] entries[k]
                == others[k] by {
                spot_is_not_before(entries, others, mode, k);
                spot_is_not_behind(entries, others, mode, k);
                assert(spot(entries, others, k) == k);
            }
            assert(entries =~= others);
        },
        _ => {},
    }
}

/// The deterministic form of a map whose keys and values are well formed
/// and in the deterministic form already, and whose keys have encodings that
/// all differ, holds the entries of the map, each once, in the order of
/// their keys.
pub proof fn canonical_map_permutes_entries_with_distinct_encodings(
    indefinite: bool,
    entries: Seq<(Item, Item)>,
    mode: DeterministicMode,
)
    requires
        forall|i: int|
            0 <= i < entries.len() ==> well_formed((#[trigger] entries[i]).0) && well_formed(
                entries[i].1,
            ) && is_canonical(entries[i].0, mode) && is_canonical(entries[i].1, mode),
        forall|i: int, j: int|
            0 <= i < entries.len() && 0 <= j < entries.len() && i != j ==> crate::encode::encoding(
                (#[trigger] entries[i]).0,
            ) != crate::encode::encoding((#[trigger] entries[j]).0),
    ensures
        canonical(Item::Mapping { indefinite, entries }, mode) == (Item::Mapping {
            indefinite: false,
            entries: sorted(entries, mode),
        }),
        sorted(entries, mode).to_multiset() == entries.to_multiset(),
        ordered(sorted(entries, mode), mode),
{
    assert forall|i: int, j: int|
        0 <= i < entries.len() && 0 <= j < entries.len() && i != j implies !alike(
        (#[trigger] entries[i]).0,
        (#[trigger] entries[j]).0,
    ) by {
        if alike(entries[i].0, entries[j].0) {
            alike_in_form_is_equal(entries[i].0, entries[j].0, mode);
        }
    }
    assert forall|i: int| 0 <= i < entries.len() implies canonical(
        (#[trigger] entries[i]).0,
        mode,
    ) == entries[i].0 && canonical(entries[i].1, mode) == entries[i].1 by {
        canonical_of_canonical(entries[i].0, mode);
        canonical_of_canonical(entries[i].1, mode);
    }
    canonical_map_permutes_settled_entries(indefinite, entries, mode);
}

} // verus!

//! Keyed entries in a row, as a table or an object of a document holds them.
use vstd::prelude::*;

use crate::order;
use crate::text;

verus! {

/// The value of `key`: of the last entry that has this key.
pub open spec fn entry<V>(entries: Seq<(Seq<char>, V)>, key: Seq<char>) -> Option<V>
    decreases entries.len(),
{
    if entries.len() == 0 {
        None
    } else if entries.last().0 == key {
        Some(entries.last().1)
    } else {
        entry(entries.drop_last(), key)
    }
}

/// The place of the last entry that has `key`.
pub fn place_of<V>(entries: &Vec<(String, V)>, key: &str) -> (r: Option<usize>)
    ensures
        match r {
            Some(i) => {
                &&& i < entries@.len()
                &&& entries@[i as int].0@ == key@
                &&& forall|j: int| i < j < entries@.len() ==> (#[trigger] entries@[j]).0@ != key@
            },
            None => forall|j: int|
                0 <= j < entries@.len() ==> (#[trigger] entries@[j]).0@ != key@,
        },
{
    let mut i: usize = entries.len();
    while i > 0
        invariant
            i <= entries@.len(),
            forall|j: int| i <= j < entries@.len() ==> (#[trigger] entries@[j]).0@ != key@,
        decreases i,
    {
        i = i - 1;
        if text::same(entries[i].0.as_str(), key) {
            return Some(i);
        }
    }
    None
}

/// The last entry of a key is the one that is found.
pub proof fn lemma_entry_at<V>(entries: Seq<(Seq<char>, V)>, key: Seq<char>, i: int)
    requires
        0 <= i < entries.len(),
        entries[i].0 == key,
        forall|j: int| i < j < entries.len() ==> (#[trigger] entries[j]).0 != key,
    ensures
        entry(entries, key) == Some(entries[i].1),
    decreases entries.len(),
{
    if i < entries.len() - 1 {
        assert(entries[entries.len() - 1].0 != key);
        assert(forall|j: int|
            0 <= j < entries.len() - 1 ==> entries.drop_last()[j] == entries[j]);
        lemma_entry_at(entries.drop_last(), key, i);
    }
}

/// A key that no entry has is not found.
pub proof fn lemma_no_entry<V>(entries: Seq<(Seq<char>, V)>, key: Seq<char>)
    requires
        forall|j: int| 0 <= j < entries.len() ==> (#[trigger] entries[j]).0 != key,
    ensures
        entry(entries, key) is None,
    decreases entries.len(),
{
    if entries.len() > 0 {
        assert(entries[entries.len() - 1].0 != key);
        assert(forall|j: int|
            0 <= j < entries.len() - 1 ==> entries.drop_last()[j] == entries[j]);
        lemma_no_entry(entries.drop_last(), key);
    }
}

/// What is found stands somewhere.
pub proof fn lemma_entry_found<V>(entries: Seq<(Seq<char>, V)>, key: Seq<char>) -> (i: int)
    requires
        entry(entries, key) is Some,
    ensures
        0 <= i < entries.len(),
        entries[i] == (key, entry(entries, key)->0),
    decreases entries.len(),
{
    if entries.last().0 == key {
        entries.len() - 1
    } else {
        lemma_entry_found(entries.drop_last(), key)
    }
}

/// One more entry at the end is what its key finds; other keys find what they did.
pub proof fn lemma_entry_push<V>(entries: Seq<(Seq<char>, V)>, key: Seq<char>, value: V, k: Seq<char>)
    ensures
        entry(entries.push((key, value)), k) == if k == key {
            Some(value)
        } else {
            entry(entries, k)
        },
{
    assert(entries.push((key, value)).drop_last() =~= entries);
}

// ---- entries in order ----

/// Whether entries stand in the order of their keys, none of which is there twice.
pub open spec fn ordered<V>(entries: Seq<(Seq<char>, V)>) -> bool {
    forall|i: int, j: int|
        0 <= i < j < entries.len() ==> order::before(
            (#[trigger] entries[i]).0,
            (#[trigger] entries[j]).0,
        )
}

/// The place of a key: after the entries whose keys come before it.
pub open spec fn slot<V>(entries: Seq<(Seq<char>, V)>, key: Seq<char>) -> int
    decreases entries.len(),
{
    if entries.len() == 0 || !order::before(entries.first().0, key) {
        0
    } else {
        1 + slot(entries.drop_first(), key)
    }
}

/// Entries in order, with one more at its place; it takes the place of one that
/// has its key.
pub open spec fn placed<V>(entries: Seq<(Seq<char>, V)>, key: Seq<char>, value: V) -> Seq<
    (Seq<char>, V),
> {
    let i = slot(entries, key);
    if i < entries.len() && entries[i].0 == key {
        entries.update(i, (key, value))
    } else {
        entries.insert(i, (key, value))
    }
}

/// Entries as a map holds them: in the order of their keys, and of those with the
/// same key only the last.
pub open spec fn normal<V>(entries: Seq<(Seq<char>, V)>) -> Seq<(Seq<char>, V)>
    decreases entries.len(),
{
    if entries.len() == 0 {
        Seq::empty()
    } else {
        placed(normal(entries.drop_last()), entries.last().0, entries.last().1)
    }
}

proof fn lemma_slot_at<V>(entries: Seq<(Seq<char>, V)>, key: Seq<char>, i: int)
    requires
        0 <= i <= entries.len(),
        forall|j: int| 0 <= j < i ==> order::before((#[trigger] entries[j]).0, key),
        i == entries.len() || !order::before(entries[i].0, key),
    ensures
        slot(entries, key) == i,
    decreases i,
{
    if i > 0 {
        assert(order::before(entries[0].0, key));
        assert(forall|j: int| 0 <= j < i - 1 ==> entries.drop_first()[j] == entries[j + 1]);
        lemma_slot_at(entries.drop_first(), key, i - 1);
    }
}

proof fn lemma_slot<V>(entries: Seq<(Seq<char>, V)>, key: Seq<char>)
    ensures
        0 <= slot(entries, key) <= entries.len(),
        forall|j: int|
            0 <= j < slot(entries, key) ==> order::before((#[trigger] entries[j]).0, key),
        slot(entries, key) < entries.len() ==> !order::before(
            entries[slot(entries, key)].0,
            key,
        ),
    decreases entries.len(),
{
    if entries.len() > 0 && order::before(entries.first().0, key) {
        let rest = entries.drop_first();
        lemma_slot(rest, key);
        assert forall|j: int| 0 <= j < slot(entries, key) implies order::before(
            (#[trigger] entries[j]).0,
            key,
        ) by {
            if j > 0 {
                assert(rest[j - 1] == entries[j]);
            }
        }
    }
}

/// Placing an entry keeps the order, and changes what its key finds and nothing
/// else. What stands there stood there before, or is the entry.
pub proof fn lemma_placed<V>(entries: Seq<(Seq<char>, V)>, key: Seq<char>, value: V)
    requires
        ordered(entries),
    ensures
        ordered(placed(entries, key, value)),
        forall|k: Seq<char>| #[trigger]
            entry(placed(entries, key, value), k) == if k == key {
                Some(value)
            } else {
                entry(entries, k)
            },
        forall|i: int|
            0 <= i < placed(entries, key, value).len() ==> (#[trigger] placed(
                entries,
                key,
                value,
            )[i] == (key, value) || entries.contains(placed(entries, key, value)[i])),
{
    lemma_slot(entries, key);
    let i = slot(entries, key);
    let p = placed(entries, key, value);
    let there = i < entries.len() && entries[i].0 == key;
    if i < entries.len() && !there {
        order::lemma_before_total(entries[i].0, key);
    }
    let gap = if there {
        0int
    } else {
        1int
    };
    assert forall|j: int| i < j < entries.len() || (j == i && i < entries.len() && !there) implies
        order::before(key, (#[trigger] entries[j]).0) by {
        if j > i && !there {
            order::lemma_before_transitive(key, entries[i].0, entries[j].0);
        }
    }
    assert forall|j: int| 0 <= j < p.len() && j != i implies #[trigger] p[j] == entries[if j < i {
        j
    } else {
        j - gap
    }] by {}
    assert(p[i] == (key, value));
    assert forall|a: int, b: int| 0 <= a < b < p.len() implies order::before(
        (#[trigger] p[a]).0,
        (#[trigger] p[b]).0,
    ) by {}
    assert forall|k: Seq<char>| #[trigger] entry(p, k) == if k == key {
        Some(value)
    } else {
        entry(entries, k)
    } by {
        if k == key {
            assert forall|j: int| i < j < p.len() implies (#[trigger] p[j]).0 != key by {
                order::lemma_before_irreflexive(key);
            }
            lemma_entry_at(p, key, i);
        } else if exists|j: int| 0 <= j < entries.len() && (#[trigger] entries[j]).0 == k {
            let j = choose|j: int| 0 <= j < entries.len() && (#[trigger] entries[j]).0 == k;
            let m = if j < i {
                j
            } else {
                j + gap
            };
            assert(p[m] == entries[j]);
            order::lemma_before_irreflexive(k);
            assert forall|n: int| j < n < entries.len() implies (#[trigger] entries[n]).0 != k by {
                assert(order::before(entries[j].0, entries[n].0));
            }
            assert forall|n: int| m < n < p.len() implies (#[trigger] p[n]).0 != k by {
                assert(order::before(p[m].0, p[n].0));
            }
            lemma_entry_at(entries, k, j);
            lemma_entry_at(p, k, m);
        } else {
            assert forall|j: int| 0 <= j < p.len() implies (#[trigger] p[j]).0 != k by {
                if j != i {
                    let m = if j < i {
                        j
                    } else {
                        j - gap
                    };
                    assert(p[j] == entries[m]);
                }
            }
            lemma_no_entry(entries, k);
            lemma_no_entry(p, k);
        }
    }
    assert forall|j: int| 0 <= j < p.len() implies (#[trigger] p[j] == (key, value)
        || entries.contains(p[j])) by {
        if j != i {
            let m = if j < i {
                j
            } else {
                j - gap
            };
            assert(p[j] == entries[m]);
        }
    }
}

/// Entries as a map holds them are in order, each key finds what it found, and
/// each of them was there.
pub proof fn lemma_normal<V>(entries: Seq<(Seq<char>, V)>)
    ensures
        ordered(normal(entries)),
        forall|k: Seq<char>| #[trigger] entry(normal(entries), k) == entry(entries, k),
        forall|i: int|
            0 <= i < normal(entries).len() ==> entries.contains(#[trigger] normal(entries)[i]),
    decreases entries.len(),
{
    if entries.len() > 0 {
        let rest = entries.drop_last();
        let last = entries.last();
        lemma_normal(rest);
        lemma_placed(normal(rest), last.0, last.1);
        assert forall|k: Seq<char>| #[trigger] entry(normal(entries), k) == entry(
            entries,
            k,
        ) by {
            lemma_entry_push(rest, last.0, last.1, k);
            assert(rest.push(last) =~= entries);
        }
        assert forall|i: int| 0 <= i < normal(entries).len() implies entries.contains(
            #[trigger] normal(entries)[i],
        ) by {
            let e = normal(entries)[i];
            if e == last {
                assert(entries[entries.len() - 1] == e);
            } else {
                assert(normal(rest).contains(e));
                let j = choose|j: int| 0 <= j < normal(rest).len() && normal(rest)[j] == e;
                assert(rest.contains(normal(rest)[j]));
                let m = choose|m: int| 0 <= m < rest.len() && rest[m] == e;
                assert(entries[m] == e);
            }
        }
    }
}

/// Entries in order are as a map holds them.
pub proof fn lemma_normal_ordered<V>(entries: Seq<(Seq<char>, V)>)
    requires
        ordered(entries),
    ensures
        normal(entries) == entries,
    decreases entries.len(),
{
    if entries.len() > 0 {
        let rest = entries.drop_last();
        lemma_normal_ordered(rest);
        assert(forall|j: int| 0 <= j < rest.len() ==> #[trigger] rest[j] == entries[j]);
        lemma_slot_at(rest, entries.last().0, rest.len() as int);
        assert(rest.insert(rest.len() as int, entries.last()) =~= entries);
    } else {
        assert(normal(entries) =~= entries);
    }
}

/// The entries with something else made of each value.
pub open spec fn with_values<V, W>(entries: Seq<(Seq<char>, V)>, f: spec_fn(V) -> W) -> Seq<
    (Seq<char>, W),
> {
    entries.map_values(|e: (Seq<char>, V)| (e.0, f(e.1)))
}

proof fn lemma_slot_with_values<V, W>(
    entries: Seq<(Seq<char>, V)>,
    f: spec_fn(V) -> W,
    key: Seq<char>,
)
    ensures
        slot(with_values(entries, f), key) == slot(entries, key),
{
    lemma_slot(entries, key);
    let w = with_values(entries, f);
    assert(forall|j: int| 0 <= j < w.len() ==> (#[trigger] w[j]).0 == entries[j].0);
    lemma_slot_at(w, key, slot(entries, key));
}

/// Making something else of each value and placing an entry can be done in either
/// order.
pub proof fn lemma_placed_with_values<V, W>(
    entries: Seq<(Seq<char>, V)>,
    f: spec_fn(V) -> W,
    key: Seq<char>,
    value: V,
)
    ensures
        placed(with_values(entries, f), key, f(value)) == with_values(
            placed(entries, key, value),
            f,
        ),
{
    lemma_slot(entries, key);
    lemma_slot_with_values(entries, f, key);
    assert(placed(with_values(entries, f), key, f(value)) =~= with_values(
        placed(entries, key, value),
        f,
    ));
}

/// What a key finds where something else is made of each value.
pub proof fn lemma_entry_with_values<V, W>(
    entries: Seq<(Seq<char>, V)>,
    f: spec_fn(V) -> W,
    key: Seq<char>,
)
    ensures
        entry(with_values(entries, f), key) == match entry(entries, key) {
            Some(v) => Some(f(v)),
            None => None,
        },
    decreases entries.len(),
{
    if entries.len() > 0 {
        assert(with_values(entries, f).drop_last() =~= with_values(entries.drop_last(), f));
        lemma_entry_with_values(entries.drop_last(), f, key);
    }
}

/// What some entries say of their keys.
pub open spec fn named<V>(entries: Seq<(String, V)>) -> Seq<(Seq<char>, V)> {
    entries.map_values(|e: (String, V)| (e.0@, e.1))
}

/// Puts an entry at its place among entries in order.
pub fn place<V>(entries: &mut Vec<(String, V)>, key: String, value: V)
    ensures
        named(final(entries)@) == placed(named(old(entries)@), key@, value),
{
    let ghost all = named(entries@);
    let mut i: usize = 0;
    while i < entries.len() && order::precedes(entries[i].0.as_str(), key.as_str())
        invariant
            all == named(entries@),
            i <= entries@.len(),
            forall|j: int| 0 <= j < i ==> order::before((#[trigger] all[j]).0, key@),
        decreases entries@.len() - i,
    {
        assert(all[i as int].0 == entries@[i as int].0@);
        i = i + 1;
    }
    proof {
        if i < entries@.len() {
            assert(all[i as int].0 == entries@[i as int].0@);
        }
        lemma_slot_at(all, key@, i as int);
    }
    let ghost name = key@;
    if i < entries.len() && text::same(entries[i].0.as_str(), key.as_str()) {
        entries.set(i, (key, value));
        assert(named(entries@) =~= all.update(i as int, (name, value)));
    } else {
        entries.insert(i, (key, value));
        assert(named(entries@) =~= all.insert(i as int, (name, value)));
    }
}

} // verus!

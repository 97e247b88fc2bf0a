//! The order of texts.
use vstd::prelude::*;

use crate::text;

verus! {

/// Whether `a` comes before `b` in the order of their characters.
pub open spec fn before(a: Seq<char>, b: Seq<char>) -> bool
    decreases a.len(),
{
    if b.len() == 0 {
        false
    } else if a.len() == 0 {
        true
    } else if a.first() != b.first() {
        (a.first() as u32) < (b.first() as u32)
    } else {
        before(a.drop_first(), b.drop_first())
    }
}

/// Whether texts stand in ascending order, none of them twice.
pub open spec fn ascending(l: Seq<Seq<char>>) -> bool {
    forall|i: int, j: int| 0 <= i < j < l.len() ==> before(#[trigger] l[i], #[trigger] l[j])
}

/// The order is transitive.
pub proof fn lemma_before_transitive(a: Seq<char>, b: Seq<char>, c: Seq<char>)
    requires
        before(a, b),
        before(b, c),
    ensures
        before(a, c),
    decreases a.len(),
{
    if a.len() > 0 && a.first() == b.first() && b.first() == c.first() {
        lemma_before_transitive(a.drop_first(), b.drop_first(), c.drop_first());
    }
}

proof fn lemma_chars_differ(c: char, d: char)
    requires
        c != d,
    ensures
        c as u32 != d as u32,
{
}

/// Two texts are the same, or one comes before the other.
pub proof fn lemma_before_total(a: Seq<char>, b: Seq<char>)
    ensures
        a == b || before(a, b) || before(b, a),
    decreases a.len(),
{
    if a.len() == 0 || b.len() == 0 {
        if a.len() == b.len() {
            assert(a =~= b);
        }
    } else if a.first() == b.first() {
        lemma_before_total(a.drop_first(), b.drop_first());
        if a.drop_first() == b.drop_first() {
            assert(a =~= seq![a.first()] + a.drop_first());
            assert(b =~= seq![b.first()] + b.drop_first());
        }
    } else {
        lemma_chars_differ(a.first(), b.first());
    }
}

proof fn lemma_before_at(a: Seq<char>, b: Seq<char>, i: int)
    requires
        0 <= i <= a.len(),
        i <= b.len(),
        forall|j: int| 0 <= j < i ==> a[j] == b[j],
        i == a.len() || i == b.len() || a[i] != b[i],
    ensures
        before(a, b) == if i == b.len() {
            false
        } else if i == a.len() {
            true
        } else {
            (a[i] as u32) < (b[i] as u32)
        },
    decreases i,
{
    if i > 0 {
        assert(a.first() == b.first());
        assert(forall|j: int| 0 <= j < i - 1 ==> a.drop_first()[j] == a[j + 1]);
        assert(forall|j: int| 0 <= j < i - 1 ==> b.drop_first()[j] == b[j + 1]);
        lemma_before_at(a.drop_first(), b.drop_first(), i - 1);
    }
}

/// Whether `a` comes before `b`.
pub fn precedes(a: &str, b: &str) -> (r: bool)
    ensures
        r == before(a@, b@),
{
    let x: Vec<char> = text::chars_of(a);
    let y: Vec<char> = text::chars_of(b);
    let mut i: usize = 0;
    while i < x.len() && i < y.len() && x[i] == y[i]
        invariant
            i <= x@.len(),
            i <= y@.len(),
            forall|j: int| 0 <= j < i ==> x@[j] == y@[j],
        decreases x@.len() - i,
    {
        i = i + 1;
    }
    proof {
        lemma_before_at(a@, b@, i as int);
    }
    if i == y.len() {
        false
    } else if i == x.len() {
        true
    } else {
        (x[i] as u32) < (y[i] as u32)
    }
}

/// No text comes before itself.
pub proof fn lemma_before_irreflexive(a: Seq<char>)
    ensures
        !before(a, a),
    decreases a.len(),
{
    if a.len() > 0 {
        lemma_before_irreflexive(a.drop_first());
    }
}

/// What two texts begin with plays no part in their order. The empty text comes before
/// every other, and of two texts that differ in their first character the one comes first
/// whose character does.
pub proof fn law_order(p: Seq<char>, a: Seq<char>, b: Seq<char>, c: char, d: char)
    ensures
        before(p + a, p + b) == before(a, b),
        before(Seq::empty(), b) <==> b.len() > 0,
        !before(a, Seq::empty()),
        c != d ==> (before(seq![c] + a, seq![d] + b) <==> (c as u32) < (d as u32)),
    decreases p.len(),
{
    if p.len() > 0 {
        let rest = p.drop_first();
        assert((p + a).drop_first() =~= rest + a);
        assert((p + b).drop_first() =~= rest + b);
        assert((p + a).first() == (p + b).first());
        law_order(rest, a, b, c, d);
    } else {
        assert(p + a =~= a);
        assert(p + b =~= b);
    }
    assert((seq![c] + a).first() == c);
    assert((seq![d] + b).first() == d);
}

/// Texts in ascending order are each before all that follow, and differ.
pub proof fn law_ascending(l: Seq<Seq<char>>, i: int, j: int)
    requires
        ascending(l),
        0 <= i < j < l.len(),
    ensures
        before(l[i], l[j]),
        l[i] != l[j],
        !before(l[j], l[i]),
{
    lemma_before_irreflexive(l[i]);
    if before(l[j], l[i]) {
        lemma_before_transitive(l[i], l[j], l[i]);
    }
}

} // verus!

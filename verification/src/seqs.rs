//! Sequences: views of their items, counting, searching and filtering.

use vstd::prelude::*;

verus! {

/// The views of the items of a sequence.
pub open spec fn views<T: View>(s: Seq<T>) -> Seq<T::V> {
    s.map_values(|t: T| t@)
}

/// How many of the numbers below `n` have the property.
pub open spec fn tally(p: spec_fn(int) -> bool, n: int) -> int
    decreases n,
{
    if n <= 0 {
        0
    } else if p(n - 1) {
        tally(p, n - 1) + 1
    } else {
        tally(p, n - 1)
    }
}

pub proof fn lemma_tally_grows(p: spec_fn(int) -> bool, a: int, b: int)
    requires
        a <= b,
    ensures
        0 <= tally(p, a) <= tally(p, b),
    decreases b - a, a,
{
    if a < b {
        lemma_tally_grows(p, a, b - 1);
    } else if a > 0 {
        lemma_tally_grows(p, a - 1, a - 1);
    }
}

/// A count is between nothing and everything.
pub proof fn lemma_tally_bounds(p: spec_fn(int) -> bool, n: int)
    requires
        0 <= n,
    ensures
        0 <= tally(p, n) <= n,
    decreases n,
{
    if n > 0 {
        lemma_tally_bounds(p, n - 1);
    }
}

/// The place of the first item, from place `from` on, that has the property.
pub open spec fn first_from<A>(s: Seq<A>, p: spec_fn(A) -> bool, from: int) -> Option<int>
    decreases s.len() - from,
{
    if from < 0 || from >= s.len() {
        None
    } else if p(s[from]) {
        Some(from)
    } else {
        first_from(s, p, from + 1)
    }
}

/// The place of the first item that has the property.
pub open spec fn first_where<A>(s: Seq<A>, p: spec_fn(A) -> bool) -> Option<int> {
    first_from(s, p, 0)
}

/// What it is to be the first item that has the property.
pub proof fn lemma_first_where<A>(s: Seq<A>, p: spec_fn(A) -> bool)
    ensures
        match first_where(s, p) {
            Some(i) => 0 <= i < s.len() && p(s[i]) && forall|j: int| 0 <= j < i ==> !p(s[j]),
            None => forall|j: int| 0 <= j < s.len() ==> !p(s[j]),
        },
{
    lemma_first_from(s, p, 0);
}

proof fn lemma_first_from<A>(s: Seq<A>, p: spec_fn(A) -> bool, from: int)
    requires
        0 <= from <= s.len(),
    ensures
        match first_from(s, p, from) {
            Some(i) => from <= i < s.len() && p(s[i]) && forall|j: int| from <= j < i ==> !p(s[j]),
            None => forall|j: int| from <= j < s.len() ==> !p(s[j]),
        },
    decreases s.len() - from,
{
    if from < s.len() && !p(s[from]) {
        lemma_first_from(s, p, from + 1);
    }
}

/// The next step of keeping the items that have the property: `s` is what is left when the first
/// `t` items of `o` have been sifted.
pub proof fn lemma_sift_step<A>(o: Seq<A>, p: spec_fn(A) -> bool, t: int, s: Seq<A>)
    requires
        0 <= t < o.len(),
        s == o.take(t).filter(p) + o.skip(t),
    ensures
        o.take(t).filter(p).len() < s.len(),
        s[o.take(t).filter(p).len() as int] == o[t],
        p(o[t]) ==> s == o.take(t + 1).filter(p) + o.skip(t + 1) && o.take(t + 1).filter(p).len()
            == o.take(t).filter(p).len() + 1,
        !p(o[t]) ==> s.remove(o.take(t).filter(p).len() as int) == o.take(t + 1).filter(p) + o.skip(
            t + 1,
        ) && o.take(t + 1).filter(p).len() == o.take(t).filter(p).len(),
{
    reveal(Seq::filter);
    assert(o.take(t + 1).drop_last() =~= o.take(t));
    assert(o.take(t + 1).last() == o[t]);
    if p(o[t]) {
        assert(s =~= o.take(t + 1).filter(p) + o.skip(t + 1));
    } else {
        assert(s.remove(o.take(t).filter(p).len() as int) =~= o.take(t + 1).filter(p) + o.skip(
            t + 1,
        ));
    }
}

/// Before anything is sifted, and after everything is.
pub proof fn lemma_sift_ends<A>(o: Seq<A>, p: spec_fn(A) -> bool)
    ensures
        o.take(0).filter(p).len() == 0,
        o == o.take(0).filter(p) + o.skip(0),
        o.filter(p) == o.take(o.len() as int).filter(p) + o.skip(o.len() as int),
{
    reveal(Seq::filter);
    assert(o.take(0) =~= Seq::<A>::empty());
    assert(o =~= o.take(0).filter(p) + o.skip(0));
    assert(o.take(o.len() as int) =~= o);
    assert(o.filter(p) =~= o.filter(p) + o.skip(o.len() as int));
}

/// Properties that agree on the items keep the same items.
pub proof fn lemma_filter_agree<A>(s: Seq<A>, p: spec_fn(A) -> bool, q: spec_fn(A) -> bool)
    requires
        forall|i: int| 0 <= i < s.len() ==> p(#[trigger] s[i]) == q(s[i]),
    ensures
        s.filter(p) == s.filter(q),
    decreases s.len(),
{
    reveal(Seq::filter);
    if s.len() > 0 {
        assert forall|i: int| 0 <= i < s.drop_last().len() implies p(#[trigger] s.drop_last()[i])
            == q(s.drop_last()[i]) by {
            assert(s.drop_last()[i] == s[i]);
        }
        lemma_filter_agree(s.drop_last(), p, q);
        assert(p(s[s.len() - 1]) == q(s[s.len() - 1]));
    }
}

/// A property that all items have keeps them all.
pub proof fn lemma_filter_all<A>(s: Seq<A>, p: spec_fn(A) -> bool)
    requires
        forall|i: int| 0 <= i < s.len() ==> p(#[trigger] s[i]),
    ensures
        s.filter(p) == s,
    decreases s.len(),
{
    reveal(Seq::filter);
    if s.len() > 0 {
        let rest = s.drop_last();
        assert forall|i: int| 0 <= i < rest.len() implies p(#[trigger] rest[i]) by {
            assert(rest[i] == s[i]);
        }
        lemma_filter_all(rest, p);
        assert(p(s[s.len() - 1]));
        assert(rest.push(s.last()) =~= s);
    }
}

/// Keeping the items with one property, and of those the ones with another.
pub proof fn lemma_filter_twice<A>(s: Seq<A>, p: spec_fn(A) -> bool, q: spec_fn(A) -> bool)
    ensures
        s.filter(p).filter(q) == s.filter(|a: A| p(a) && q(a)),
    decreases s.len(),
{
    reveal(Seq::filter);
    if s.len() > 0 {
        lemma_filter_twice(s.drop_last(), p, q);
        if p(s.last()) {
            assert(s.filter(p).drop_last() =~= s.drop_last().filter(p));
        }
    }
}

/// An item is kept where it was there and has the property.
pub proof fn lemma_filter_has<A>(s: Seq<A>, p: spec_fn(A) -> bool, a: A)
    ensures
        s.filter(p).contains(a) == (s.contains(a) && p(a)),
    decreases s.len(),
{
    reveal(Seq::filter);
    if s.len() > 0 {
        let rest = s.drop_last();
        lemma_filter_has(rest, p, a);
        if s.contains(a) {
            let i = choose|i: int| 0 <= i < s.len() && s[i] == a;
            if i < s.len() - 1 {
                assert(rest[i] == a);
            }
        }
        if rest.contains(a) {
            let i = choose|i: int| 0 <= i < rest.len() && rest[i] == a;
            assert(s[i] == a);
        }
        assert(s[s.len() - 1] == s.last());
        let kept = rest.filter(p);
        if p(s.last()) {
            if kept.contains(a) {
                let i = choose|i: int| 0 <= i < kept.len() && kept[i] == a;
                assert(kept.push(s.last())[i] == a);
            }
            assert(kept.push(s.last())[kept.len() as int] == s.last());
            if s.filter(p).contains(a) {
                let i = choose|i: int| 0 <= i < s.filter(p).len() && s.filter(p)[i] == a;
                if i < kept.len() {
                    assert(kept[i] == a);
                }
            }
        }
    }
}

/// Whether one of the strings is `s`.
pub(crate) fn has_string(list: &Vec<String>, s: &String) -> (r: bool)
    ensures
        r == views(list@).contains(s@),
{
    let mut i: usize = 0;
    while i < list.len()
        invariant
            i <= list@.len(),
            forall|j: int| 0 <= j < i ==> views(list@)[j] != s@,
        decreases list@.len() - i,
    {
        if list[i] == *s {
            assert(views(list@)[i as int] == s@);
            return true;
        }
        i = i + 1;
    }
    false
}

} // verus!

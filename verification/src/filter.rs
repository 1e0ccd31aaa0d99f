//! Facts about filtered sequences.

use vstd::prelude::*;

verus! {

/// Filtering depends on what the predicate says of the sequence's own items only.
pub proof fn lemma_filter_ext<A>(s: Seq<A>, p: spec_fn(A) -> bool, q: spec_fn(A) -> bool)
    requires
        forall|i: int| 0 <= i < s.len() ==> p(#[trigger] s[i]) == q(s[i]),
    ensures
        s.filter(p) == s.filter(q),
    decreases s.len(),
{
    reveal(Seq::filter);
    if s.len() > 0 {
        assert(forall|i: int| 0 <= i < s.drop_last().len() ==> s.drop_last()[i] == s[i]);
        assert(p(s[s.len() - 1]) == q(s[s.len() - 1]));
        lemma_filter_ext(s.drop_last(), p, q);
    }
}

/// A predicate that holds of every item keeps the sequence.
pub proof fn lemma_filter_all<A>(s: Seq<A>, p: spec_fn(A) -> bool)
    requires
        forall|i: int| 0 <= i < s.len() ==> p(#[trigger] s[i]),
    ensures
        s.filter(p) == s,
    decreases s.len(),
{
    reveal(Seq::filter);
    if s.len() > 0 {
        assert(forall|i: int| 0 <= i < s.drop_last().len() ==> s.drop_last()[i] == s[i]);
        assert(p(s[s.len() - 1]));
        lemma_filter_all(s.drop_last(), p);
        assert(s.drop_last().push(s.last()) =~= s);
    }
}

/// A predicate that holds of no item leaves nothing.
pub proof fn lemma_filter_none<A>(s: Seq<A>, p: spec_fn(A) -> bool)
    requires
        forall|i: int| 0 <= i < s.len() ==> !p(#[trigger] s[i]),
    ensures
        s.filter(p) == Seq::<A>::empty(),
    decreases s.len(),
{
    reveal(Seq::filter);
    if s.len() > 0 {
        assert(forall|i: int| 0 <= i < s.drop_last().len() ==> s.drop_last()[i] == s[i]);
        assert(!p(s[s.len() - 1]));
        lemma_filter_none(s.drop_last(), p);
    }
}

/// A predicate that holds of exactly the first `n` items keeps those.
pub proof fn lemma_filter_prefix<A>(s: Seq<A>, p: spec_fn(A) -> bool, n: int)
    requires
        0 <= n <= s.len(),
        forall|i: int| 0 <= i < n ==> p(#[trigger] s[i]),
        forall|i: int| n <= i < s.len() ==> !p(#[trigger] s[i]),
    ensures
        s.filter(p) == s.take(n),
{
    assert(s.take(n) + s.skip(n) =~= s);
    Seq::filter_distributes_over_add(s.take(n), s.skip(n), p);
    lemma_filter_all(s.take(n), p);
    lemma_filter_none(s.skip(n), p);
    assert(s.take(n) + Seq::<A>::empty() =~= s.take(n));
}

/// A predicate that holds of exactly the items from the `n`-th on keeps those.
pub proof fn lemma_filter_suffix<A>(s: Seq<A>, p: spec_fn(A) -> bool, n: int)
    requires
        0 <= n <= s.len(),
        forall|i: int| 0 <= i < n ==> !p(#[trigger] s[i]),
        forall|i: int| n <= i < s.len() ==> p(#[trigger] s[i]),
    ensures
        s.filter(p) == s.skip(n),
{
    assert(s.take(n) + s.skip(n) =~= s);
    Seq::filter_distributes_over_add(s.take(n), s.skip(n), p);
    lemma_filter_none(s.take(n), p);
    lemma_filter_all(s.skip(n), p);
    assert(Seq::<A>::empty() + s.skip(n) =~= s.skip(n));
}

/// A predicate that holds of all items but the `n`-th takes that one out.
pub proof fn lemma_filter_all_but<A>(s: Seq<A>, p: spec_fn(A) -> bool, n: int)
    requires
        0 <= n < s.len(),
        !p(s[n]),
        forall|i: int| 0 <= i < s.len() && i != n ==> p(#[trigger] s[i]),
    ensures
        s.filter(p) == s.remove(n),
{
    assert(s.take(n) + s.skip(n) =~= s);
    Seq::filter_distributes_over_add(s.take(n), s.skip(n), p);
    lemma_filter_all(s.take(n), p);
    lemma_filter_suffix(s.skip(n), p, 1);
    assert(s.take(n) + s.skip(n).skip(1) =~= s.remove(n));
}

/// Filtering twice keeps what both predicates hold of.
pub proof fn lemma_filter_twice<A>(s: Seq<A>, p: spec_fn(A) -> bool, q: spec_fn(A) -> bool)
    ensures
        s.filter(p).filter(q) == s.filter(|a: A| p(a) && q(a)),
    decreases s.len(),
{
    reveal(Seq::filter);
    if s.len() > 0 {
        lemma_filter_twice(s.drop_last(), p, q);
        if p(s.last()) {
            let front = s.drop_last().filter(p);
            assert(front.push(s.last()).drop_last() =~= front);
        }
    }
}

/// Filtering one item more.
pub proof fn lemma_filter_push<A>(s: Seq<A>, a: A, p: spec_fn(A) -> bool)
    ensures
        s.push(a).filter(p) == if p(a) {
            s.filter(p).push(a)
        } else {
            s.filter(p)
        },
{
    reveal(Seq::filter);
    assert(s.push(a).drop_last() =~= s);
}

/// What is left after filtering are items of the sequence, in its order: the
/// `i`-th item left stands at place `r[i]` of the sequence.
pub proof fn lemma_filter_places<A>(s: Seq<A>, p: spec_fn(A) -> bool) -> (r: Seq<int>)
    ensures
        r.len() == s.filter(p).len(),
        forall|i: int|
            0 <= i < r.len() ==> 0 <= #[trigger] r[i] < s.len() && s.filter(p)[i] == s[r[i]] && p(
                s[r[i]],
            ),
        forall|i: int, j: int| 0 <= i < j < r.len() ==> r[i] < r[j],
    decreases s.len(),
{
    reveal(Seq::filter);
    if s.len() == 0 {
        Seq::empty()
    } else {
        let front = lemma_filter_places(s.drop_last(), p);
        if p(s.last()) {
            front.push(s.len() - 1)
        } else {
            front
        }
    }
}

/// An item is left exactly if it is one of the sequence that the predicate
/// holds of.
pub proof fn lemma_filter_contains<A>(s: Seq<A>, p: spec_fn(A) -> bool, a: A)
    ensures
        s.filter(p).contains(a) <==> s.contains(a) && p(a),
{
    if s.filter(p).contains(a) {
        let r = lemma_filter_places(s, p);
        let i = choose|i: int| 0 <= i < s.filter(p).len() && s.filter(p)[i] == a;
        assert(s[r[i]] == a);
    }
    if s.contains(a) && p(a) {
        let i = choose|i: int| 0 <= i < s.len() && s[i] == a;
        s.lemma_filter_contains(p, i);
    }
}

} // verus!

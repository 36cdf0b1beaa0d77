//! Facts on sequences.

use vstd::prelude::*;

verus! {

/// Filtering one element more.
pub proof fn lemma_filter_push<A>(s: Seq<A>, p: spec_fn(A) -> bool, x: A)
    ensures
        p(x) ==> s.push(x).filter(p) == s.filter(p).push(x),
        !p(x) ==> s.push(x).filter(p) == s.filter(p),
{
    reveal(Seq::filter);
    assert(s.push(x).drop_last() =~= s);
}

/// Filtering the first `i + 1` elements, from what filtering the first `i` gave.
pub proof fn lemma_filter_take<A>(s: Seq<A>, p: spec_fn(A) -> bool, i: int)
    requires
        0 <= i < s.len(),
    ensures
        p(s[i]) ==> s.take(i + 1).filter(p) == s.take(i).filter(p).push(s[i]),
        !p(s[i]) ==> s.take(i + 1).filter(p) == s.take(i).filter(p),
{
    assert(s.take(i + 1) =~= s.take(i).push(s[i]));
    lemma_filter_push(s.take(i), p, s[i]);
}

/// What passes a filter first.
pub proof fn lemma_filter_first<A>(s: Seq<A>, p: spec_fn(A) -> bool, i: int)
    requires
        0 <= i < s.len(),
        p(s[i]),
        forall|j: int| 0 <= j < i ==> !p(#[trigger] s[j]),
    ensures
        s.filter(p).len() > 0,
        s.filter(p)[0] == s[i],
    decreases s.len(),
{
    let front = s.drop_last();
    assert(s =~= front.push(s.last()));
    lemma_filter_push(front, p, s.last());
    if i < front.len() {
        lemma_filter_first(front, p, i);
    } else {
        lemma_filter_none(front, p);
    }
}

/// What passes a filter that refuses everything.
pub proof fn lemma_filter_none<A>(s: Seq<A>, p: spec_fn(A) -> bool)
    requires
        forall|j: int| 0 <= j < s.len() ==> !p(#[trigger] s[j]),
    ensures
        s.filter(p).len() == 0,
    decreases s.len(),
{
    reveal(Seq::filter);
    if s.len() > 0 {
        let front = s.drop_last();
        assert(s =~= front.push(s.last()));
        lemma_filter_push(front, p, s.last());
        assert forall|j: int| 0 <= j < front.len() implies !p(#[trigger] front[j]) by {
            assert(s[j] == front[j]);
        }
        lemma_filter_none(front, p);
    }
}

/// To filter what `g` makes of the elements is to filter the elements first.
pub proof fn lemma_map_filter<A, B>(
    s: Seq<A>,
    g: spec_fn(A) -> B,
    p: spec_fn(B) -> bool,
    q: spec_fn(A) -> bool,
)
    requires
        forall|i: int| 0 <= i < s.len() ==> p(g(#[trigger] s[i])) == q(s[i]),
    ensures
        s.map_values(g).filter(p) == s.filter(q).map_values(g),
    decreases s.len(),
{
    reveal(Seq::filter);
    if s.len() > 0 {
        let r = s.drop_last();
        lemma_map_filter(r, g, p, q);
        assert(s.map_values(g).drop_last() =~= r.map_values(g));
        assert(s.map_values(g).last() == g(s[s.len() - 1]));
        assert(s.filter(q).map_values(g) =~= s.map_values(g).filter(p));
    } else {
        assert(s.map_values(g).filter(p) =~= s.filter(q).map_values(g));
    }
}

} // verus!

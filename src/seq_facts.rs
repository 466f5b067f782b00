use vstd::prelude::*;

verus! {

/// Filtering with two predicates that agree on every element gives the same result.
pub proof fn lemma_filter_agree<A>(s: Seq<A>, p: spec_fn(A) -> bool, q: spec_fn(A) -> bool)
    requires
        forall|i: int| 0 <= i < s.len() ==> p(#[trigger] s[i]) == q(s[i]),
    ensures
        s.filter(p) == s.filter(q),
    decreases s.len(),
{
    reveal(Seq::filter);
    if s.len() > 0 {
        let t = s.drop_last();
        assert forall|i: int| 0 <= i < t.len() implies p(#[trigger] t[i]) == q(t[i]) by {
            assert(t[i] == s[i]);
        }
        lemma_filter_agree(t, p, q);
        assert(s.last() == s[s.len() - 1]);
    }
}

/// Filtering twice is filtering once by the conjunction.
pub proof fn lemma_filter_filter<A>(s: Seq<A>, p: spec_fn(A) -> bool, q: spec_fn(A) -> bool)
    ensures
        s.filter(p).filter(q) == s.filter(|x: A| p(x) && q(x)),
    decreases s.len(),
{
    reveal(Seq::filter);
    if s.len() > 0 {
        lemma_filter_filter(s.drop_last(), p, q);
        let sp = s.drop_last().filter(p);
        if p(s.last()) {
            assert(sp.push(s.last()).drop_last() =~= sp);
        }
    }
}

/// Filtering a prefix one element longer adds at most that element.
pub proof fn lemma_filter_prefix_step<A>(s: Seq<A>, p: spec_fn(A) -> bool, j: int)
    requires
        0 <= j < s.len(),
    ensures
        s.subrange(0, j + 1).filter(p) == if p(s[j]) {
            s.subrange(0, j).filter(p).push(s[j])
        } else {
            s.subrange(0, j).filter(p)
        },
{
    reveal(Seq::filter);
    assert(s.subrange(0, j + 1).drop_last() =~= s.subrange(0, j));
    assert(s.subrange(0, j + 1).last() == s[j]);
}

/// Extending a range by one element extends its `filter_map` by at most one value.
pub proof fn lemma_filter_map_prefix_step<A, B>(s: Seq<A>, f: spec_fn(A) -> Option<B>, lo: int, j: int)
    requires
        0 <= lo <= j < s.len(),
    ensures
        s.subrange(lo, j + 1).filter_map(f) == match f(s[j]) {
            Some(b) => s.subrange(lo, j).filter_map(f).push(b),
            None => s.subrange(lo, j).filter_map(f),
        },
{
    assert(s.subrange(lo, j + 1).drop_last() =~= s.subrange(lo, j));
    assert(s.subrange(lo, j + 1).last() == s[j]);
    match f(s[j]) {
        Some(b) => {
            assert(s.subrange(lo, j).filter_map(f) + seq![b] =~= s.subrange(lo, j).filter_map(
                f,
            ).push(b));
        },
        None => {},
    }
}

} // verus!

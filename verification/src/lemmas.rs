//! General sequence lemmas that the builder's proofs lean on: how `filter`,
//! `map_values` and `to_set` interact.

use vstd::prelude::*;

verus! {

/// Filtering with pointwise-equal predicates gives equal sequences.
pub proof fn lemma_filter_congruent<A>(s: Seq<A>, p: spec_fn(A) -> bool, q: spec_fn(A) -> bool)
    requires
        forall|x: A| #[trigger] p(x) == q(x),
    ensures
        s.filter(p) == s.filter(q),
    decreases s.len(),
{
    reveal_with_fuel(Seq::filter, 2);
    if s.len() > 0 {
        lemma_filter_congruent(s.drop_last(), p, q);
        assert(p(s.last()) == q(s.last()));
    }
}

/// Mapping then filtering is filtering the preimage then mapping.
pub proof fn lemma_map_filter<A, B>(s: Seq<A>, f: spec_fn(A) -> B, p: spec_fn(B) -> bool)
    ensures
        s.map_values(f).filter(p) == s.filter(|x: A| p(f(x))).map_values(f),
    decreases s.len(),
{
    reveal_with_fuel(Seq::filter, 2);
    let q = |x: A| p(f(x));
    if s.len() == 0 {
        assert(s.map_values(f) =~= Seq::<B>::empty());
        assert(s.filter(q) =~= Seq::<A>::empty());
        assert(s.filter(q).map_values(f) =~= Seq::<B>::empty());
        assert(s.map_values(f).filter(p) =~= Seq::<B>::empty());
    } else {
        let s0 = s.drop_last();
        lemma_map_filter(s0, f, p);
        let t = s.map_values(f);
        assert(t =~= s0.map_values(f).push(f(s.last())));
        assert(t.drop_last() =~= s0.map_values(f));
        assert(t.last() == f(s.last()));
        assert(t.filter(p) == if p(t.last()) {
            t.drop_last().filter(p).push(t.last())
        } else {
            t.drop_last().filter(p)
        });
        assert(s.filter(q) == if q(s.last()) {
            s0.filter(q).push(s.last())
        } else {
            s0.filter(q)
        });
        if q(s.last()) {
            assert(s.filter(q).map_values(f) =~= s0.filter(q).map_values(f).push(f(s.last())));
        }
    }
}

/// The set of a concatenation is the union of the parts' sets.
pub proof fn lemma_concat_to_set<A>(a: Seq<A>, b: Seq<A>)
    ensures
        (a + b).to_set() == a.to_set() + b.to_set(),
{
    assert forall|x: A| #[trigger] (a + b).to_set().contains(x) implies (a.to_set()
        + b.to_set()).contains(x) by {
        let i = choose|i: int| 0 <= i < (a + b).len() && (a + b)[i] == x;
        if i < a.len() {
            assert(a[i] == x);
        } else {
            assert(b[i - a.len()] == x);
        }
    }
    assert forall|x: A| (a.to_set() + b.to_set()).contains(x) implies #[trigger] (a
        + b).to_set().contains(x) by {
        if a.to_set().contains(x) {
            let i = choose|i: int| 0 <= i < a.len() && a[i] == x;
            assert((a + b)[i] == x);
        } else {
            let i = choose|i: int| 0 <= i < b.len() && b[i] == x;
            assert((a + b)[a.len() + i] == x);
        }
    }
    assert((a + b).to_set() =~= a.to_set() + b.to_set());
}

/// What a filtered-and-mapped sequence holds, element by element.
pub proof fn lemma_filter_map_to_set<A, B>(s: Seq<A>, p: spec_fn(A) -> bool, f: spec_fn(A) -> B)
    ensures
        forall|y: B|
            #[trigger] s.filter(p).map_values(f).to_set().contains(y) <==> exists|x: A|
                #[trigger] s.to_set().contains(x) && p(x) && f(x) == y,
{
    s.filter_lemma(p);
    assert forall|y: B| #[trigger] s.filter(p).map_values(f).to_set().contains(y) implies exists|
        x: A,
    |
        #[trigger] s.to_set().contains(x) && p(x) && f(x) == y by {
        let t = s.filter(p).map_values(f);
        let i = choose|i: int| 0 <= i < t.len() && t[i] == y;
        let x = s.filter(p)[i];
        lemma_filter_subset(s, p, i);
        assert(s.to_set().contains(x) && p(x) && f(x) == y);
    }
    assert forall|y: B|
        (exists|x: A| #[trigger] s.to_set().contains(x) && p(x) && f(x) == y) implies #[trigger] s
        .filter(p).map_values(f).to_set().contains(y) by {
        let x = choose|x: A| #[trigger] s.to_set().contains(x) && p(x) && f(x) == y;
        let i = choose|i: int| 0 <= i < s.len() && s[i] == x;
        assert(s.filter(p).contains(s[i]));
        let j = choose|j: int| 0 <= j < s.filter(p).len() && s.filter(p)[j] == s[i];
        assert(s.filter(p).map_values(f)[j] == y);
    }
}

/// Every element of a filtered sequence comes from the original.
pub proof fn lemma_filter_subset<A>(s: Seq<A>, p: spec_fn(A) -> bool, i: int)
    requires
        0 <= i < s.filter(p).len(),
    ensures
        s.contains(s.filter(p)[i]),
    decreases s.len(),
{
    reveal_with_fuel(Seq::filter, 2);
    if s.len() > 0 {
        let rest = s.drop_last().filter(p);
        if p(s.last()) && i == s.filter(p).len() - 1 {
            assert(s[s.len() - 1] == s.filter(p)[i]);
        } else {
            lemma_filter_subset(s.drop_last(), p, i);
            let j = choose|j: int| 0 <= j < s.drop_last().len() && s.drop_last()[j] == rest[i];
            assert(s[j] == s.filter(p)[i]);
        }
    }
}

} // verus!

use vstd::prelude::*;

verus! {

/// The sum of what `f` gives for the items of `s`.
pub open spec fn sum_of<A>(s: Seq<A>, f: spec_fn(A) -> nat) -> nat
    decreases s.len(),
{
    if s.len() == 0 {
        0
    } else {
        sum_of(s.drop_last(), f) + f(s.last())
    }
}

/// The sum over one item.
pub proof fn lemma_sum_one<A>(x: A, f: spec_fn(A) -> nat)
    ensures
        sum_of(seq![x], f) == f(x),
{
    let s = seq![x];
    assert(s.drop_last() =~= Seq::<A>::empty());
    assert(sum_of(s.drop_last(), f) == 0);
    assert(s.last() == x);
}

/// The sum over two sequences in a row is the sum of their sums.
pub proof fn lemma_sum_concat<A>(a: Seq<A>, b: Seq<A>, f: spec_fn(A) -> nat)
    ensures
        sum_of(a + b, f) == sum_of(a, f) + sum_of(b, f),
    decreases b.len(),
{
    if b.len() == 0 {
        assert(a + b =~= a);
    } else {
        lemma_sum_concat(a, b.drop_last(), f);
        assert((a + b).drop_last() =~= a + b.drop_last());
        assert((a + b).last() == b.last());
    }
}

/// The sum over a sequence is the sum over its first items and the rest.
pub proof fn lemma_sum_split<A>(s: Seq<A>, k: int, f: spec_fn(A) -> nat)
    requires
        0 <= k <= s.len(),
    ensures
        sum_of(s, f) == sum_of(s.take(k), f) + sum_of(s.skip(k), f),
{
    assert(s =~= s.take(k) + s.skip(k));
    lemma_sum_concat(s.take(k), s.skip(k), f);
}

/// Taking an item out of a sequence takes its share out of the sum.
pub proof fn lemma_sum_remove<A>(s: Seq<A>, i: int, f: spec_fn(A) -> nat)
    requires
        0 <= i < s.len(),
    ensures
        sum_of(s.remove(i), f) + f(s[i]) == sum_of(s, f),
{
    let a = s.take(i);
    let b = s.skip(i + 1);
    assert(s =~= a + seq![s[i]] + b);
    assert(s.remove(i) =~= a + b);
    lemma_sum_concat(a, seq![s[i]], f);
    lemma_sum_concat(a + seq![s[i]], b, f);
    lemma_sum_concat(a, b, f);
    lemma_sum_one(s[i], f);
}

/// Replacing an item of a sequence replaces its share of the sum.
pub proof fn lemma_sum_update<A>(s: Seq<A>, i: int, x: A, f: spec_fn(A) -> nat)
    requires
        0 <= i < s.len(),
    ensures
        sum_of(s.update(i, x), f) + f(s[i]) == sum_of(s, f) + f(x),
{
    let t = s.update(i, x);
    lemma_sum_remove(s, i, f);
    lemma_sum_remove(t, i, f);
    assert(s.remove(i) =~= t.remove(i));
}

/// Adding an item to a sequence adds its share to the sum.
pub proof fn lemma_sum_push<A>(s: Seq<A>, x: A, f: spec_fn(A) -> nat)
    ensures
        sum_of(s.push(x), f) == sum_of(s, f) + f(x),
{
    assert(s.push(x).drop_last() =~= s);
}

/// The sum over items that all give `c` is `c` times their number.
pub proof fn lemma_sum_constant<A>(s: Seq<A>, f: spec_fn(A) -> nat, c: nat)
    requires
        forall|i: int| 0 <= i < s.len() ==> f(#[trigger] s[i]) == c,
    ensures
        sum_of(s, f) == c * s.len(),
    decreases s.len(),
{
    if s.len() > 0 {
        let t = s.drop_last();
        assert forall|i: int| 0 <= i < t.len() implies f(#[trigger] t[i]) == c by {
            assert(t[i] == s[i]);
        }
        lemma_sum_constant(t, f, c);
        assert(c * s.len() == c * t.len() + c) by (nonlinear_arith)
            requires
                s.len() == t.len() + 1,
        ;
    } else {
        assert(c * s.len() == 0) by (nonlinear_arith)
            requires
                s.len() == 0,
        ;
    }
}

/// Two sequences whose items give the same, place by place, sum to the same.
pub proof fn lemma_sum_pointwise<A, B>(
    s: Seq<A>,
    f: spec_fn(A) -> nat,
    t: Seq<B>,
    g: spec_fn(B) -> nat,
)
    requires
        s.len() == t.len(),
        forall|i: int| 0 <= i < s.len() ==> f(#[trigger] s[i]) == g(t[i]),
    ensures
        sum_of(s, f) == sum_of(t, g),
    decreases s.len(),
{
    if s.len() > 0 {
        let a = s.drop_last();
        let b = t.drop_last();
        assert forall|i: int| 0 <= i < a.len() implies f(#[trigger] a[i]) == g(b[i]) by {
            assert(a[i] == s[i] && b[i] == t[i]);
        }
        lemma_sum_pointwise(a, f, b, g);
        assert(f(s[s.len() - 1]) == g(t[s.len() - 1]));
    }
}

} // verus!

use vstd::prelude::*;

verus! {

broadcast use vstd::seq_lib::group_to_multiset_ensures;

/// Sum of `f` over a sequence, folded from the front.
pub open spec fn sum_by<A>(s: Seq<A>, f: spec_fn(A) -> nat) -> nat
    decreases s.len(),
{
    if s.len() == 0 {
        0
    } else {
        sum_by(s.drop_last(), f) + f(s.last())
    }
}

pub proof fn lemma_sum_push<A>(s: Seq<A>, x: A, f: spec_fn(A) -> nat)
    ensures
        sum_by(s.push(x), f) == sum_by(s, f) + f(x),
{
    assert(s.push(x).drop_last() =~= s);
}

pub proof fn lemma_sum_take_step<A>(s: Seq<A>, i: int, f: spec_fn(A) -> nat)
    requires
        0 <= i < s.len(),
    ensures
        sum_by(s.take(i + 1), f) == sum_by(s.take(i), f) + f(s[i]),
{
    assert(s.take(i + 1).drop_last() =~= s.take(i));
}

pub proof fn lemma_sum_remove<A>(s: Seq<A>, j: int, f: spec_fn(A) -> nat)
    requires
        0 <= j < s.len(),
    ensures
        sum_by(s, f) == sum_by(s.remove(j), f) + f(s[j]),
    decreases s.len(),
{
    if j == s.len() - 1 {
        assert(s.remove(j) =~= s.drop_last());
    } else {
        lemma_sum_remove(s.drop_last(), j, f);
        assert(s.remove(j) =~= s.drop_last().remove(j).push(s.last()));
        lemma_sum_push(s.drop_last().remove(j), s.last(), f);
    }
}

pub proof fn lemma_sum_update<A>(s: Seq<A>, j: int, x: A, f: spec_fn(A) -> nat)
    requires
        0 <= j < s.len(),
    ensures
        sum_by(s.update(j, x), f) + f(s[j]) == sum_by(s, f) + f(x),
{
    lemma_sum_remove(s, j, f);
    lemma_sum_remove(s.update(j, x), j, f);
    assert(s.update(j, x).remove(j) =~= s.remove(j));
}

/// A sum does not depend on the order of the summed items.
pub proof fn lemma_sum_permutation<A>(a: Seq<A>, b: Seq<A>, f: spec_fn(A) -> nat)
    requires
        a.to_multiset() == b.to_multiset(),
    ensures
        sum_by(a, f) == sum_by(b, f),
    decreases a.len(),
{
    if a.len() == 0 {
        assert(b.to_multiset().len() == 0);
        assert(b.len() == 0);
    } else {
        let x = a.last();
        assert(a =~= a.drop_last().push(x));
        assert(a.to_multiset().count(x) > 0);
        assert(b.contains(x));
        let j = choose|j: int| 0 <= j < b.len() && b[j] == x;
        assert(b.remove(j).to_multiset() =~= b.to_multiset().remove(x));
        assert(a.drop_last().to_multiset() =~= a.to_multiset().remove(x));
        lemma_sum_permutation(a.drop_last(), b.remove(j), f);
        lemma_sum_remove(b, j, f);
    }
}

/// A pointwise smaller summand gives a smaller sum.
pub proof fn lemma_sum_le<A>(s: Seq<A>, f: spec_fn(A) -> nat, g: spec_fn(A) -> nat)
    requires
        forall|x: A| #[trigger] f(x) <= g(x),
    ensures
        sum_by(s, f) <= sum_by(s, g),
    decreases s.len(),
{
    if s.len() > 0 {
        lemma_sum_le(s.drop_last(), f, g);
    }
}

/// A prefix sums to no more than the whole sequence.
pub proof fn lemma_sum_prefix_le<A>(s: Seq<A>, i: int, f: spec_fn(A) -> nat)
    requires
        0 <= i <= s.len(),
    ensures
        sum_by(s.take(i), f) <= sum_by(s, f),
    decreases s.len() - i,
{
    if i < s.len() {
        lemma_sum_take_step(s, i, f);
        lemma_sum_prefix_le(s, i + 1, f);
    } else {
        assert(s.take(i) =~= s);
    }
}

/// A summand that equals the sum of two others on every item sums to the sum of their sums.
pub proof fn lemma_sum_split<A>(s: Seq<A>, f: spec_fn(A) -> nat, g: spec_fn(A) -> nat, h: spec_fn(A) -> nat)
    requires
        forall|i: int| 0 <= i < s.len() ==> f(#[trigger] s[i]) == g(s[i]) + h(s[i]),
    ensures
        sum_by(s, f) == sum_by(s, g) + sum_by(s, h),
    decreases s.len(),
{
    if s.len() > 0 {
        assert forall|i: int| 0 <= i < s.drop_last().len() implies f(#[trigger] s.drop_last()[i]) == g(
            s.drop_last()[i],
        ) + h(s.drop_last()[i]) by {
            assert(s.drop_last()[i] == s[i]);
        }
        lemma_sum_split(s.drop_last(), f, g, h);
        assert(f(s[s.len() - 1]) == g(s[s.len() - 1]) + h(s[s.len() - 1]));
    }
}

pub proof fn lemma_sum_zero<A>(s: Seq<A>, f: spec_fn(A) -> nat)
    requires
        forall|i: int| 0 <= i < s.len() ==> f(#[trigger] s[i]) == 0,
    ensures
        sum_by(s, f) == 0,
    decreases s.len(),
{
    if s.len() > 0 {
        assert forall|i: int| 0 <= i < s.drop_last().len() implies f(#[trigger] s.drop_last()[i]) == 0 by {
            assert(s.drop_last()[i] == s[i]);
        }
        lemma_sum_zero(s.drop_last(), f);
        assert(f(s[s.len() - 1]) == 0);
    }
}

} // verus!

//! Sums of an integer-valued function over a finite set.
//!
//! The account invariant ties the held balance to the sum of the amounts of
//! the currently disputed transactions; these lemmas let the engine maintain
//! that sum one insertion or removal at a time.

use vstd::prelude::*;
use vstd::set::fold::is_fun_commutative;
use vstd::set::fold::lemma_finite_set_induct;
use vstd::set::fold::lemma_fold_empty;
use vstd::set::fold::lemma_fold_insert;

verus! {

/// The sum of `f` over the finite set `s`.
pub open spec fn sum_over<A>(s: Set<A>, f: spec_fn(A) -> int) -> int {
    s.fold(0, |acc: int, x: A| acc + f(x))
}

/// Summing over the empty set gives zero.
pub proof fn lemma_sum_empty<A>(f: spec_fn(A) -> int)
    ensures
        sum_over(Set::<A>::empty(), f) == 0,
{
    lemma_fold_empty(0int, |acc: int, x: A| acc + f(x));
}

/// Inserting a fresh element adds its value to the sum.
pub proof fn lemma_sum_insert<A>(s: Set<A>, f: spec_fn(A) -> int, x: A)
    requires
        s.finite(),
        !s.contains(x),
    ensures
        sum_over(s.insert(x), f) == sum_over(s, f) + f(x),
{
    let g = |acc: int, y: A| acc + f(y);
    assert(is_fun_commutative(g));
    lemma_fold_insert(s, 0int, g, x);
}

/// Removing a present element subtracts its value from the sum.
pub proof fn lemma_sum_remove<A>(s: Set<A>, f: spec_fn(A) -> int, x: A)
    requires
        s.finite(),
        s.contains(x),
    ensures
        sum_over(s, f) == sum_over(s.remove(x), f) + f(x),
{
    let s0 = s.remove(x);
    lemma_sum_insert(s0, f, x);
    assert(s0.insert(x) =~= s);
}

/// Two functions that agree on every element of `s` have the same sum there.
pub proof fn lemma_sum_congruent<A>(s: Set<A>, f: spec_fn(A) -> int, g: spec_fn(A) -> int)
    requires
        s.finite(),
        forall|x: A| s.contains(x) ==> #[trigger] f(x) == #[trigger] g(x),
    ensures
        sum_over(s, f) == sum_over(s, g),
{
    let pred = |t: Set<A>| t.subset_of(s) ==> sum_over(t, f) == sum_over(t, g);
    assert(pred(Set::<A>::empty())) by {
        lemma_sum_empty(f);
        lemma_sum_empty(g);
    }
    assert forall|t: Set<A>, x: A| pred(t) && t.finite() && !t.contains(x) implies #[trigger] pred(
        t.insert(x),
    ) by {
        if t.insert(x).subset_of(s) {
            assert(t.subset_of(s));
            assert(s.contains(x));
            lemma_sum_insert(t, f, x);
            lemma_sum_insert(t, g, x);
        }
    }
    lemma_finite_set_induct(s, pred);
}

/// A sum of values all lying in `[0, hi]` lies in `[0, |s| * hi]`.
pub proof fn lemma_sum_bounds<A>(s: Set<A>, f: spec_fn(A) -> int, hi: int)
    requires
        s.finite(),
        0 <= hi,
        forall|x: A| s.contains(x) ==> 0 <= #[trigger] f(x) <= hi,
    ensures
        0 <= sum_over(s, f) <= s.len() * hi,
{
    let pred = |t: Set<A>| t.subset_of(s) ==> 0 <= sum_over(t, f) <= t.len() * hi;
    assert(pred(Set::<A>::empty())) by {
        lemma_sum_empty(f);
    }
    assert forall|t: Set<A>, x: A| pred(t) && t.finite() && !t.contains(x) implies #[trigger] pred(
        t.insert(x),
    ) by {
        if t.insert(x).subset_of(s) {
            assert(t.subset_of(s));
            assert(s.contains(x));
            lemma_sum_insert(t, f, x);
            assert(t.insert(x).len() == t.len() + 1);
            assert((t.len() + 1) * hi == t.len() * hi + hi) by (nonlinear_arith);
        }
    }
    lemma_finite_set_induct(s, pred);
}

} // verus!

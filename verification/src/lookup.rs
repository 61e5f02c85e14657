//! Lists that stand for maps: the first entry that fits is the one meant.

use vstd::prelude::*;

verus! {

/// The index of the first entry of `s` of which `p` holds, or the length of
/// `s` where it holds of none.
pub open spec fn first_index<T>(s: Seq<T>, p: spec_fn(T) -> bool) -> int
    decreases s.len(),
{
    if s.len() == 0 {
        0
    } else if p(s[0]) {
        0
    } else {
        1 + first_index(s.drop_first(), p)
    }
}

/// What `first_index` finds: `p` holds there and nowhere before.
pub proof fn lemma_first_index<T>(s: Seq<T>, p: spec_fn(T) -> bool)
    ensures
        0 <= first_index(s, p) <= s.len(),
        forall|k: int| 0 <= k < first_index(s, p) ==> !p(#[trigger] s[k]),
        first_index(s, p) < s.len() ==> p(s[first_index(s, p)]),
    decreases s.len(),
{
    if s.len() != 0 && !p(s[0]) {
        let t = s.drop_first();
        lemma_first_index(t, p);
        assert forall|k: int| 0 <= k < first_index(s, p) implies !p(#[trigger] s[k]) by {
            if k > 0 {
                assert(s[k] == t[k - 1]);
            }
        }
    }
}

/// An index at which `p` holds and before which it holds nowhere is the first.
pub proof fn lemma_first_index_is<T>(s: Seq<T>, p: spec_fn(T) -> bool, at: int)
    requires
        0 <= at <= s.len(),
        forall|k: int| 0 <= k < at ==> !p(#[trigger] s[k]),
        at < s.len() ==> p(s[at]),
    ensures
        first_index(s, p) == at,
{
    lemma_first_index(s, p);
    let f = first_index(s, p);
    if f < at {
        assert(!p(s[f]));
    }
    if at < f {
        assert(!p(s[at]));
    }
}

/// The sum of `f` over the entries of `s`.
pub open spec fn sum_over<T>(s: Seq<T>, f: spec_fn(T) -> nat) -> nat
    decreases s.len(),
{
    if s.len() == 0 {
        0
    } else {
        sum_over(s.drop_last(), f) + f(s.last())
    }
}

/// The sum over two lists put together.
pub proof fn lemma_sum_add<T>(a: Seq<T>, b: Seq<T>, f: spec_fn(T) -> nat)
    ensures
        sum_over(a + b, f) == sum_over(a, f) + sum_over(b, f),
    decreases b.len(),
{
    if b.len() == 0 {
        assert(a + b =~= a);
    } else {
        lemma_sum_add(a, b.drop_last(), f);
        assert((a + b).drop_last() =~= a + b.drop_last());
    }
}

/// The sum after one more entry.
pub proof fn lemma_sum_push<T>(a: Seq<T>, x: T, f: spec_fn(T) -> nat)
    ensures
        sum_over(a.push(x), f) == sum_over(a, f) + f(x),
{
    assert(a.push(x).drop_last() =~= a);
}

/// The sum after the entry at `i` left.
pub proof fn lemma_sum_remove<T>(a: Seq<T>, i: int, f: spec_fn(T) -> nat)
    requires
        0 <= i < a.len(),
    ensures
        sum_over(a.remove(i), f) + f(a[i]) == sum_over(a, f),
{
    let left = a.take(i);
    let right = a.skip(i + 1);
    assert(a.remove(i) =~= left + right);
    assert(a =~= left.push(a[i]) + right);
    lemma_sum_add(left, right, f);
    lemma_sum_add(left.push(a[i]), right, f);
    lemma_sum_push(left, a[i], f);
}

/// The sum after the entry at `i` was replaced.
pub proof fn lemma_sum_update<T>(a: Seq<T>, i: int, x: T, f: spec_fn(T) -> nat)
    requires
        0 <= i < a.len(),
    ensures
        sum_over(a.update(i, x), f) + f(a[i]) == sum_over(a, f) + f(x),
{
    let left = a.take(i);
    let right = a.skip(i + 1);
    assert(a.update(i, x) =~= left.push(x) + right);
    assert(a =~= left.push(a[i]) + right);
    lemma_sum_add(left.push(x), right, f);
    lemma_sum_add(left.push(a[i]), right, f);
    lemma_sum_push(left, a[i], f);
    lemma_sum_push(left, x, f);
}

/// No entry weighs more than the sum.
pub proof fn lemma_sum_at<T>(a: Seq<T>, i: int, f: spec_fn(T) -> nat)
    requires
        0 <= i < a.len(),
    ensures
        f(a[i]) <= sum_over(a, f),
{
    lemma_sum_remove(a, i, f);
}

/// A sum of numbers that are at most one is at most the number of entries.
pub proof fn lemma_sum_bound<T>(a: Seq<T>, f: spec_fn(T) -> nat)
    requires
        forall|i: int| 0 <= i < a.len() ==> f(#[trigger] a[i]) <= 1,
    ensures
        sum_over(a, f) <= a.len(),
    decreases a.len(),
{
    if a.len() > 0 {
        assert(a.last() == a[a.len() - 1]);
        assert forall|i: int| 0 <= i < a.drop_last().len() implies f(
            #[trigger] a.drop_last()[i],
        ) <= 1 by {
            assert(a.drop_last()[i] == a[i]);
        }
        lemma_sum_bound(a.drop_last(), f);
    }
}

/// A sum of zeros is zero.
pub proof fn lemma_sum_zero<T>(a: Seq<T>, f: spec_fn(T) -> nat)
    requires
        forall|i: int| 0 <= i < a.len() ==> f(#[trigger] a[i]) == 0,
    ensures
        sum_over(a, f) == 0,
    decreases a.len(),
{
    if a.len() > 0 {
        assert(a.last() == a[a.len() - 1]);
        assert forall|i: int| 0 <= i < a.drop_last().len() implies f(
            #[trigger] a.drop_last()[i],
        ) == 0 by {
            assert(a.drop_last()[i] == a[i]);
        }
        lemma_sum_zero(a.drop_last(), f);
    }
}

} // verus!

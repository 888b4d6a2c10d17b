//! Sums over sequences of anything, by what each element counts for.

use crate::sort::{lemma_place_by, place_by, sorted_by};
use crate::tally::{used, used_by};
use vstd::prelude::*;

verus! {

/// What all elements count for together.
pub open spec fn sum_of<A>(s: Seq<A>, count: spec_fn(A) -> int) -> int
    decreases s.len(),
{
    if s.len() == 0 {
        0
    } else {
        sum_of(s.drop_last(), count) + count(s.last())
    }
}

/// A sum over a sequence that has one more element.
pub proof fn lemma_sum_push<A>(s: Seq<A>, a: A, count: spec_fn(A) -> int)
    ensures
        sum_of(s.push(a), count) == sum_of(s, count) + count(a),
{
    assert(s.push(a).drop_last() =~= s);
}

/// Sequences whose elements count alike have the same sum.
pub proof fn lemma_sum_same<A, B>(
    a: Seq<A>,
    f: spec_fn(A) -> int,
    b: Seq<B>,
    g: spec_fn(B) -> int,
)
    requires
        a.len() == b.len(),
        forall|i: int| 0 <= i < a.len() ==> f(#[trigger] a[i]) == g(b[i]),
    ensures
        sum_of(a, f) == sum_of(b, g),
    decreases a.len(),
{
    if a.len() > 0 {
        assert forall|i: int| 0 <= i < a.drop_last().len() implies f(
            #[trigger] a.drop_last()[i],
        ) == g(b.drop_last()[i]) by {
            assert(f(a[i]) == g(b[i]));
        }
        lemma_sum_same(a.drop_last(), f, b.drop_last(), g);
        assert(f(a[a.len() - 1]) == g(b[b.len() - 1]));
    }
}

/// A sum grows with what its elements count for.
pub proof fn lemma_sum_ordered<A>(s: Seq<A>, f: spec_fn(A) -> int, g: spec_fn(A) -> int)
    requires
        forall|i: int| 0 <= i < s.len() ==> f(#[trigger] s[i]) <= g(s[i]),
    ensures
        sum_of(s, f) <= sum_of(s, g),
    decreases s.len(),
{
    if s.len() > 0 {
        assert forall|i: int| 0 <= i < s.drop_last().len() implies f(
            #[trigger] s.drop_last()[i],
        ) <= g(s.drop_last()[i]) by {
            assert(f(s[i]) <= g(s[i]));
        }
        lemma_sum_ordered(s.drop_last(), f, g);
        assert(f(s[s.len() - 1]) <= g(s[s.len() - 1]));
    }
}

/// A sum of nothing negative is at least what any one element counts for.
pub proof fn lemma_sum_natural<A>(s: Seq<A>, f: spec_fn(A) -> int)
    requires
        forall|i: int| 0 <= i < s.len() ==> 0 <= f(#[trigger] s[i]),
    ensures
        0 <= sum_of(s, f),
        forall|i: int| 0 <= i < s.len() ==> f(#[trigger] s[i]) <= sum_of(s, f),
    decreases s.len(),
{
    if s.len() > 0 {
        assert forall|i: int| 0 <= i < s.drop_last().len() implies 0 <= f(
            #[trigger] s.drop_last()[i],
        ) by {
            assert(0 <= f(s[i]));
        }
        lemma_sum_natural(s.drop_last(), f);
        assert(0 <= f(s[s.len() - 1]));
        assert forall|i: int| 0 <= i < s.len() implies f(#[trigger] s[i]) <= sum_of(s, f) by {
            if i < s.len() - 1 {
                assert(s.drop_last()[i] == s[i]);
            }
        }
    }
}

/// A sum whose elements all count for nothing but one.
pub proof fn lemma_sum_single<A>(s: Seq<A>, f: spec_fn(A) -> int, k: int)
    requires
        0 <= k < s.len(),
        forall|i: int| 0 <= i < s.len() && i != k ==> f(#[trigger] s[i]) == 0,
    ensures
        sum_of(s, f) == f(s[k]),
    decreases s.len(),
{
    let rest = s.drop_last();
    assert forall|i: int| 0 <= i < rest.len() && i != k implies f(#[trigger] rest[i]) == 0 by {
        assert(f(s[i]) == 0);
    }
    if k < s.len() - 1 {
        lemma_sum_single(rest, f, k);
        assert(f(s[s.len() - 1]) == 0);
    } else {
        lemma_sum_nothing(rest, f);
    }
}

/// A sum whose elements all count for nothing.
pub proof fn lemma_sum_nothing<A>(s: Seq<A>, f: spec_fn(A) -> int)
    requires
        forall|i: int| 0 <= i < s.len() ==> f(#[trigger] s[i]) == 0,
    ensures
        sum_of(s, f) == 0,
    decreases s.len(),
{
    if s.len() > 0 {
        assert forall|i: int| 0 <= i < s.drop_last().len() implies f(
            #[trigger] s.drop_last()[i],
        ) == 0 by {
            assert(f(s[i]) == 0);
        }
        lemma_sum_nothing(s.drop_last(), f);
        assert(f(s[s.len() - 1]) == 0);
    }
}

/// A multiple of a sum is the sum of the multiples.
pub proof fn lemma_sum_scaled<A>(s: Seq<A>, f: spec_fn(A) -> int, k: int, g: spec_fn(A) -> int)
    requires
        forall|i: int| 0 <= i < s.len() ==> g(#[trigger] s[i]) == k * f(s[i]),
    ensures
        sum_of(s, g) == k * sum_of(s, f),
    decreases s.len(),
{
    if s.len() > 0 {
        assert forall|i: int| 0 <= i < s.drop_last().len() implies g(
            #[trigger] s.drop_last()[i],
        ) == k * f(s.drop_last()[i]) by {
            assert(g(s[i]) == k * f(s[i]));
        }
        lemma_sum_scaled(s.drop_last(), f, k, g);
        let (a, b) = (sum_of(s.drop_last(), f), f(s.last()));
        assert(g(s[s.len() - 1]) == k * f(s[s.len() - 1]));
        assert(k * (a + b) == k * a + k * b) by (nonlinear_arith);
    } else {
        assert(k * 0 == 0);
    }
}

/// What a tally holds under a key, as a sum over what it was made of.
pub proof fn lemma_used_by_sum<K, A>(list: Seq<(K, int)>, k: K, s: Seq<A>, f: spec_fn(A) -> int)
    requires
        list.len() == s.len(),
        forall|i: int|
            0 <= i < s.len() ==> f(#[trigger] s[i]) == if list[i].0 == k {
                list[i].1
            } else {
                0
            },
    ensures
        used_by(list, k) == sum_of(s, f),
    decreases s.len(),
{
    if s.len() > 0 {
        assert forall|i: int| 0 <= i < s.drop_last().len() implies f(
            #[trigger] s.drop_last()[i],
        ) == if list.drop_last()[i].0 == k {
            list.drop_last()[i].1
        } else {
            0
        } by {
            assert(s.drop_last()[i] == s[i]);
            assert(list.drop_last()[i] == list[i]);
        }
        lemma_used_by_sum(list.drop_last(), k, s.drop_last(), f);
        assert(f(s[s.len() - 1]) == if list[s.len() - 1].0 == k {
            list[s.len() - 1].1
        } else {
            0
        });
    }
}

/// What a tally holds in all, as a sum over what it was made of.
pub proof fn lemma_used_sum<K, A>(list: Seq<(K, int)>, s: Seq<A>, f: spec_fn(A) -> int)
    requires
        list.len() == s.len(),
        forall|i: int| 0 <= i < s.len() ==> f(#[trigger] s[i]) == list[i].1,
    ensures
        used(list) == sum_of(s, f),
    decreases s.len(),
{
    if s.len() > 0 {
        assert forall|i: int| 0 <= i < s.drop_last().len() implies f(
            #[trigger] s.drop_last()[i],
        ) == list.drop_last()[i].1 by {
            assert(s.drop_last()[i] == s[i]);
            assert(list.drop_last()[i] == list[i]);
        }
        lemma_used_sum(list.drop_last(), s.drop_last(), f);
        assert(f(s[s.len() - 1]) == list[s.len() - 1].1);
    }
}

/// A sum over two sequences behind each other.
pub proof fn lemma_sum_concat<A>(a: Seq<A>, b: Seq<A>, f: spec_fn(A) -> int)
    ensures
        sum_of(a + b, f) == sum_of(a, f) + sum_of(b, f),
    decreases b.len(),
{
    if b.len() > 0 {
        assert((a + b).drop_last() =~= a + b.drop_last());
        lemma_sum_concat(a, b.drop_last(), f);
    } else {
        assert(a + b =~= a);
    }
}

/// A sum over a sequence with one more element anywhere.
pub proof fn lemma_sum_insert<A>(s: Seq<A>, i: int, a: A, f: spec_fn(A) -> int)
    requires
        0 <= i <= s.len(),
    ensures
        sum_of(s.insert(i, a), f) == sum_of(s, f) + f(a),
{
    let front = s.take(i);
    let back = s.skip(i);
    assert(s.insert(i, a) =~= front.push(a) + back);
    assert(s =~= front + back);
    lemma_sum_concat(front.push(a), back, f);
    lemma_sum_concat(front, back, f);
    lemma_sum_push(front, a, f);
}

/// A sum does not depend on the order.
pub proof fn lemma_sum_sorted<A>(s: Seq<A>, key: spec_fn(A) -> int, f: spec_fn(A) -> int)
    ensures
        sum_of(sorted_by(s, key), f) == sum_of(s, f),
    decreases s.len(),
{
    if s.len() > 0 {
        let rest = s.drop_last();
        lemma_sum_sorted(rest, key, f);
        let t = sorted_by(rest, key);
        let k = key(s.last());
        lemma_place_by(t, key, k);
        lemma_sum_insert(t, place_by(t, key, k), s.last(), f);
    }
}

/// A sum over a part of a sequence is one over all of it in which the others count for nothing.
pub proof fn lemma_sum_filter<A>(
    s: Seq<A>,
    p: spec_fn(A) -> bool,
    f: spec_fn(A) -> int,
    g: spec_fn(A) -> int,
)
    requires
        forall|a: A|
            #[trigger] g(a) == if p(a) {
                f(a)
            } else {
                0
            },
    ensures
        sum_of(s.filter(p), f) == sum_of(s, g),
    decreases s.len(),
{
    reveal(Seq::filter);
    if s.len() > 0 {
        lemma_sum_filter(s.drop_last(), p, f, g);
        if p(s.last()) {
            lemma_sum_push(s.drop_last().filter(p), s.last(), f);
        }
    }
}

/// How many elements there are, where each counts for one.
pub proof fn lemma_sum_count<A>(s: Seq<A>, one: spec_fn(A) -> int)
    requires
        forall|a: A| #[trigger] one(a) == 1,
    ensures
        sum_of(s, one) == s.len(),
    decreases s.len(),
{
    if s.len() > 0 {
        lemma_sum_count(s.drop_last(), one);
    }
}

} // verus!

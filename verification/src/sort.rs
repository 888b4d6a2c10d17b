//! Keeping things in order of rank.

use vstd::multiset::*;
use vstd::prelude::*;
use vstd::seq_lib::*;

verus! {

/// A type whose values have a rank.
pub trait Ranked: Sized {
    spec fn rank(&self) -> int;

    /// Whether this value's rank is no higher than the other's.
    fn ranks_below(&self, other: &Self) -> (r: bool)
        ensures
            r == (self.rank() <= other.rank()),
    ;
}

/// The place of `e` in a sequence in order: behind the last value of no higher rank.
pub open spec fn place<T: Ranked>(s: Seq<T>, e: T) -> int
    decreases s.len(),
{
    if s.len() == 0 || s.last().rank() <= e.rank() {
        s.len() as int
    } else {
        place(s.drop_last(), e)
    }
}

/// The sequence with `e` at its place.
pub open spec fn inserted<T: Ranked>(s: Seq<T>, e: T) -> Seq<T> {
    s.insert(place(s, e), e)
}

/// The values in order of rank; those of one rank stay in the order they had.
pub open spec fn sorted<T: Ranked>(s: Seq<T>) -> Seq<T>
    decreases s.len(),
{
    if s.len() == 0 {
        Seq::empty()
    } else {
        inserted(sorted(s.drop_last()), s.last())
    }
}

/// Whether the ranks never fall.
pub open spec fn in_order<T: Ranked>(s: Seq<T>) -> bool {
    forall|i: int, j: int|
        0 <= i <= j < s.len() ==> (#[trigger] s[i]).rank() <= (#[trigger] s[j]).rank()
}

pub proof fn lemma_place<T: Ranked>(s: Seq<T>, e: T)
    ensures
        0 <= place(s, e) <= s.len(),
        place(s, e) > 0 ==> s[place(s, e) - 1].rank() <= e.rank(),
        forall|i: int| place(s, e) <= i < s.len() ==> (#[trigger] s[i]).rank() > e.rank(),
    decreases s.len(),
{
    if s.len() > 0 && s.last().rank() > e.rank() {
        lemma_place(s.drop_last(), e);
        assert forall|i: int| place(s, e) <= i < s.len() implies (#[trigger] s[i]).rank()
            > e.rank() by {
            if i < s.len() - 1 {
                assert(s.drop_last()[i] == s[i]);
            }
        }
    }
}

proof fn lemma_insert_multiset<T>(s: Seq<T>, i: int, e: T)
    requires
        0 <= i <= s.len(),
    ensures
        s.insert(i, e).to_multiset() =~= s.to_multiset().insert(e),
{
    broadcast use group_to_multiset_ensures;

    let t = s.insert(i, e);
    assert(t.remove(i) =~= s);
    assert(t[i] == e);
    assert(t.contains(e));
    assert(t.to_multiset().count(e) > 0);
    assert(t.remove(i).to_multiset() =~= t.to_multiset().remove(t[i]));
}

/// Inserting keeps a sequence in order and adds just the one value.
pub proof fn law_inserted<T: Ranked>(s: Seq<T>, e: T)
    requires
        in_order(s),
    ensures
        in_order(inserted(s, e)),
        inserted(s, e).to_multiset() =~= s.to_multiset().insert(e),
{
    let p = place(s, e);
    let t = inserted(s, e);
    lemma_place(s, e);
    lemma_insert_multiset(s, p, e);
    assert forall|i: int, j: int| 0 <= i <= j < t.len() implies (#[trigger] t[i]).rank() <= (
    #[trigger] t[j]).rank() by {
        if j < p {
            assert(t[i] == s[i] && t[j] == s[j]);
        } else if i > p {
            assert(t[i] == s[i - 1] && t[j] == s[j - 1]);
        } else if i < p {
            assert(t[i] == s[i]);
            assert(s[i].rank() <= s[p - 1].rank());
            if j > p {
                assert(t[j] == s[j - 1]);
            }
        } else if j > p {
            assert(t[j] == s[j - 1]);
        }
    }
}

/// Sorting puts in order and neither adds nor loses a value.
pub proof fn law_sorted<T: Ranked>(s: Seq<T>)
    ensures
        in_order(sorted(s)),
        sorted(s).to_multiset() =~= s.to_multiset(),
        sorted(s).len() == s.len(),
    decreases s.len(),
{
    broadcast use group_to_multiset_ensures;

    if s.len() > 0 {
        law_sorted(s.drop_last());
        law_inserted(sorted(s.drop_last()), s.last());
        lemma_place(sorted(s.drop_last()), s.last());
        assert(s.drop_last().push(s.last()) =~= s);
    } else {
        assert(sorted(s) =~= s);
    }
}

/// Inserts a value at its place.
pub fn insert_ranked<T: Ranked>(v: &mut Vec<T>, e: T)
    ensures
        final(v)@ == inserted(old(v)@, e),
{
    let mut i: usize = v.len();
    let ghost s = v@;
    assert(s.take(i as int) =~= s);
    while i > 0 && !v[i - 1].ranks_below(&e)
        invariant
            v@ == s,
            i <= s.len(),
            place(s, e) == place(s.take(i as int), e),
        decreases i,
    {
        i = i - 1;
        assert(s.take(i + 1).drop_last() =~= s.take(i as int));
    }
    v.insert(i, e);
}

// ─── By a key ───────────────────────────────────────────────────

/// The place of a value with key `k` in a sequence in order of keys.
pub open spec fn place_by<T>(s: Seq<T>, key: spec_fn(T) -> int, k: int) -> int
    decreases s.len(),
{
    if s.len() == 0 || key(s.last()) <= k {
        s.len() as int
    } else {
        place_by(s.drop_last(), key, k)
    }
}

/// The values in order of their keys; those of one key stay in the order they had.
pub open spec fn sorted_by<T>(s: Seq<T>, key: spec_fn(T) -> int) -> Seq<T>
    decreases s.len(),
{
    if s.len() == 0 {
        Seq::empty()
    } else {
        let before = sorted_by(s.drop_last(), key);
        before.insert(place_by(before, key, key(s.last())), s.last())
    }
}

/// Values of the same ranks have the same place among values of the same ranks.
pub proof fn lemma_same_place<T: Ranked, U>(v: Seq<T>, s: Seq<U>, key: spec_fn(U) -> int, e: T)
    requires
        v.len() == s.len(),
        forall|i: int| 0 <= i < v.len() ==> (#[trigger] v[i]).rank() == key(s[i]),
    ensures
        place(v, e) == place_by(s, key, e.rank()),
        0 <= place(v, e) <= v.len(),
    decreases v.len(),
{
    if v.len() > 0 {
        assert(v[v.len() - 1].rank() == key(s[s.len() - 1]));
        assert forall|i: int| 0 <= i < v.drop_last().len() implies (
        #[trigger] v.drop_last()[i]).rank() == key(s.drop_last()[i]) by {
            assert(v[i].rank() == key(s[i]));
        }
        lemma_same_place(v.drop_last(), s.drop_last(), key, e);
    }
}

pub proof fn lemma_place_by<T>(s: Seq<T>, key: spec_fn(T) -> int, k: int)
    ensures
        0 <= place_by(s, key, k) <= s.len(),
        place_by(s, key, k) > 0 ==> key(s[place_by(s, key, k) - 1]) <= k,
        forall|i: int| place_by(s, key, k) <= i < s.len() ==> key(#[trigger] s[i]) > k,
    decreases s.len(),
{
    if s.len() > 0 && key(s.last()) > k {
        lemma_place_by(s.drop_last(), key, k);
        assert forall|i: int| place_by(s, key, k) <= i < s.len() implies key(#[trigger] s[i])
            > k by {
            if i < s.len() - 1 {
                assert(s.drop_last()[i] == s[i]);
            }
        }
    }
}

/// Sorting by a key puts in order and neither adds nor loses a value.
pub proof fn law_sorted_by<T>(s: Seq<T>, key: spec_fn(T) -> int)
    ensures
        forall|i: int, j: int|
            0 <= i <= j < sorted_by(s, key).len() ==> key(#[trigger] sorted_by(s, key)[i]) <= key(
                #[trigger] sorted_by(s, key)[j],
            ),
        sorted_by(s, key).to_multiset() =~= s.to_multiset(),
        sorted_by(s, key).len() == s.len(),
    decreases s.len(),
{
    broadcast use group_to_multiset_ensures;

    let t = sorted_by(s, key);
    if s.len() > 0 {
        law_sorted_by(s.drop_last(), key);
        let before = sorted_by(s.drop_last(), key);
        let e = s.last();
        let p = place_by(before, key, key(e));
        lemma_place_by(before, key, key(e));
        lemma_insert_multiset(before, p, e);
        assert(s.drop_last().push(e) =~= s);
        assert forall|i: int, j: int| 0 <= i <= j < t.len() implies key(#[trigger] t[i]) <= key(
            #[trigger] t[j],
        ) by {
            if j < p {
                assert(t[i] == before[i] && t[j] == before[j]);
            } else if i > p {
                assert(t[i] == before[i - 1] && t[j] == before[j - 1]);
            } else if i < p {
                assert(t[i] == before[i]);
                assert(key(before[i]) <= key(before[p - 1]));
                if j > p {
                    assert(t[j] == before[j - 1]);
                }
            } else if j > p {
                assert(t[j] == before[j - 1]);
            }
        }
    } else {
        assert(t =~= s);
    }
}

} // verus!

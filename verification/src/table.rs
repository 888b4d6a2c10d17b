//! Association lists: entries in order of first insertion, at most one for each key.

use vstd::prelude::*;

verus! {

/// A type whose values can be compared by what they view as.
pub trait Key: Sized + View {
    fn same_key(&self, other: &Self) -> (r: bool)
        ensures
            r == (self@ == other@),
    ;
}

impl Key for u32 {
    fn same_key(&self, other: &Self) -> (r: bool) {
        *self == *other
    }
}

impl Key for u64 {
    fn same_key(&self, other: &Self) -> (r: bool) {
        *self == *other
    }
}

impl Key for String {
    fn same_key(&self, other: &Self) -> (r: bool) {
        *self == *other
    }
}

impl<A: Key, B: Key> Key for (A, B) {
    fn same_key(&self, other: &Self) -> (r: bool) {
        self.0.same_key(&other.0) && self.1.same_key(&other.1)
    }
}

/// The index of the last entry under key `k`, or -1 if there is none.
pub open spec fn position<K: View, V>(s: Seq<(K, V)>, k: K::V) -> int
    decreases s.len(),
{
    if s.len() == 0 {
        -1
    } else if s.last().0@ == k {
        s.len() - 1
    } else {
        position(s.drop_last(), k)
    }
}

/// Whether an entry stands under key `k`.
pub open spec fn has_key<K: View, V>(s: Seq<(K, V)>, k: K::V) -> bool {
    position(s, k) >= 0
}

/// The value last entered under key `k`.
pub open spec fn lookup<K: View, V>(s: Seq<(K, V)>, k: K::V) -> Option<V> {
    if position(s, k) >= 0 {
        Some(s[position(s, k)].1)
    } else {
        None
    }
}

/// The entries once `v` stands under `k`: in the place of the entry that stood there, or else at
/// the end.
pub open spec fn put<K: View, V>(s: Seq<(K, V)>, k: K, v: V) -> Seq<(K, V)> {
    let i = position(s, k@);
    if i >= 0 {
        s.update(i, (s[i].0, v))
    } else {
        s.push((k, v))
    }
}

/// No key stands twice.
pub open spec fn distinct_keys<K: View, V>(s: Seq<(K, V)>) -> bool {
    forall|i: int, j: int|
        0 <= i < j < s.len() ==> (#[trigger] s[i]).0@ != (#[trigger] s[j]).0@
}

pub proof fn lemma_position<K: View, V>(s: Seq<(K, V)>, k: K::V)
    ensures
        -1 <= position(s, k) < s.len(),
        position(s, k) >= 0 ==> s[position(s, k)].0@ == k,
        forall|i: int| position(s, k) < i < s.len() ==> (#[trigger] s[i]).0@ != k,
    decreases s.len(),
{
    if s.len() > 0 && s.last().0@ != k {
        lemma_position(s.drop_last(), k);
        assert forall|i: int| position(s, k) < i < s.len() implies (#[trigger] s[i]).0@ != k by {
            if i < s.len() - 1 {
                assert(s.drop_last()[i] == s[i]);
            }
        }
    }
}

/// Where keys are distinct, the entry at `i` is the one that its key leads to.
pub proof fn lemma_position_unique<K: View, V>(s: Seq<(K, V)>, i: int)
    requires
        distinct_keys(s),
        0 <= i < s.len(),
    ensures
        position(s, s[i].0@) == i,
        lookup(s, s[i].0@) == Some(s[i].1),
{
    lemma_position(s, s[i].0@);
}

/// What a table holds after one entry is put: the new value under its key, and every other key
/// as before. Keys stay distinct.
pub proof fn law_put<K: View, V>(s: Seq<(K, V)>, k: K, v: V, other: K::V)
    requires
        distinct_keys(s),
    ensures
        distinct_keys(put(s, k, v)),
        lookup(put(s, k, v), other) == if other == k@ {
            Some(v)
        } else {
            lookup(s, other)
        },
{
    let t = put(s, k, v);
    lemma_position(s, k@);
    lemma_position(s, other);
    lemma_position(t, other);
    if position(s, other) >= 0 {
        assert(t[position(s, other)].0@ == other);
    }
    if other == k@ {
        let i = if position(s, k@) >= 0 {
            position(s, k@)
        } else {
            s.len() as int
        };
        assert(t[i].0@ == k@);
    }
}

/// The place of the entry under a key.
pub fn find<K: Key, V>(v: &Vec<(K, V)>, k: &K) -> (r: Option<usize>)
    ensures
        match r {
            Some(i) => i == position(v@, k@) && i < v@.len() && v@[i as int].0@ == k@,
            None => position(v@, k@) < 0,
        },
{
    let mut i: usize = v.len();
    assert(v@.take(v@.len() as int) =~= v@);
    while i > 0
        invariant
            i <= v@.len(),
            position(v@, k@) == position(v@.take(i as int), k@),
        decreases i,
    {
        i = i - 1;
        assert(v@.take(i as int + 1).drop_last() =~= v@.take(i as int));
        if v[i].0.same_key(k) {
            return Some(i);
        }
    }
    None
}

/// The value under a key.
pub fn get<'a, K: Key, V>(v: &'a Vec<(K, V)>, k: &K) -> (r: Option<&'a V>)
    ensures
        match r {
            Some(x) => lookup(v@, k@) == Some(*x),
            None => lookup(v@, k@) is None,
        },
{
    match find(v, k) {
        Some(i) => Some(&v[i].1),
        None => None,
    }
}

/// Enters a value under a key, in place of the one that stood there.
pub fn enter<K: Key, V>(v: &mut Vec<(K, V)>, k: K, value: V)
    ensures
        final(v)@ == put(old(v)@, k, value),
{
    match find(v, &k) {
        Some(i) => {
            v[i].1 = value;
            assert(v@ =~= put(old(v)@, k, value));
        },
        None => {
            v.push((k, value));
        },
    }
}

/// Keeps the values for which `keep` holds, in their order.
pub fn retain<T, F: Fn(&T) -> bool>(v: &mut Vec<T>, keep: F, Ghost(p): Ghost<spec_fn(T) -> bool>)
    requires
        forall|t: T| #[trigger] keep.requires((&t,)),
        forall|t: T, b: bool| #[trigger] keep.ensures((&t,), b) ==> b == p(t),
    ensures
        final(v)@ == old(v)@.filter(p),
{
    let ghost all = v@;
    let ghost mut seen: int = 0;
    let mut i: usize = 0;
    proof {
        reveal(Seq::filter);
        assert(all.take(0).filter(p) =~= Seq::empty());
        assert(all.take(0).filter(p) + all.skip(0) =~= all);
    }
    while i < v.len()
        invariant
            forall|t: T| #[trigger] keep.requires((&t,)),
            forall|t: T, b: bool| #[trigger] keep.ensures((&t,), b) ==> b == p(t),
            0 <= seen <= all.len(),
            i == all.take(seen).filter(p).len(),
            v@ == all.take(seen).filter(p) + all.skip(seen),
        decreases v@.len() - i,
    {
        let ghost before = all.take(seen).filter(p);
        assert(v@[i as int] == all[seen]);
        proof {
            reveal(Seq::filter);
            assert(all.take(seen + 1).drop_last() =~= all.take(seen));
            assert(all.skip(seen) =~= seq![all[seen]] + all.skip(seen + 1));
        }
        if keep(&v[i]) {
            assert(all.take(seen + 1).filter(p) =~= before.push(all[seen]));
            i = i + 1;
        } else {
            assert(all.take(seen + 1).filter(p) =~= before);
            v.remove(i);
        }
        proof {
            seen = seen + 1;
            assert(v@ =~= all.take(seen).filter(p) + all.skip(seen));
        }
    }
    proof {
        assert(all.skip(seen).len() == 0);
        assert(all.take(seen) =~= all);
        assert(v@ =~= all.filter(p));
    }
}

/// What a filter keeps is what it found, and nothing else.
pub proof fn lemma_filter<T>(s: Seq<T>, p: spec_fn(T) -> bool)
    ensures
        forall|i: int|
            0 <= i < s.filter(p).len() ==> p(#[trigger] s.filter(p)[i]) && s.contains(
                s.filter(p)[i],
            ),
        forall|i: int| 0 <= i < s.len() && p(#[trigger] s[i]) ==> s.filter(p).contains(s[i]),
    decreases s.len(),
{
    reveal(Seq::filter);
    if s.len() > 0 {
        let before = s.drop_last();
        lemma_filter(before, p);
        let f = s.filter(p);
        assert forall|i: int| 0 <= i < f.len() implies p(#[trigger] f[i]) && s.contains(f[i]) by {
            if i < before.filter(p).len() {
                assert(f[i] == before.filter(p)[i]);
                let k = before.index_of(f[i]);
                assert(s[k] == f[i]);
            } else {
                assert(s[s.len() - 1] == f[i]);
            }
        }
        assert forall|i: int| 0 <= i < s.len() && p(#[trigger] s[i]) implies f.contains(s[i]) by {
            if i < s.len() - 1 {
                assert(before[i] == s[i]);
                let k = before.filter(p).index_of(s[i]);
                assert(f[k] == s[i]);
            } else {
                assert(f[f.len() - 1] == s[i]);
            }
        }
    }
}

/// Filtering keeps keys distinct, and keeps under each key what it held if that is kept.
pub proof fn law_retain<K: View, V>(s: Seq<(K, V)>, p: spec_fn((K, V)) -> bool, k: K::V)
    requires
        distinct_keys(s),
    ensures
        distinct_keys(s.filter(p)),
        lookup(s.filter(p), k) == if has_key(s, k) && p(s[position(s, k)]) {
            lookup(s, k)
        } else {
            None
        },
    decreases s.len(),
{
    reveal(Seq::filter);
    let f = s.filter(p);
    if s.len() > 0 {
        let before = s.drop_last();
        assert(distinct_keys(before)) by {
            assert forall|i: int, j: int| 0 <= i < j < before.len() implies (
            #[trigger] before[i]).0@ != (#[trigger] before[j]).0@ by {
                assert(s[i].0@ != s[j].0@);
            }
        }
        law_retain(before, p, k);
        let last = s.last();
        lemma_filter(before, p);
        assert forall|i: int| 0 <= i < before.filter(p).len() implies (
        #[trigger] before.filter(p)[i]).0@ != last.0@ by {
            let e = before.filter(p)[i];
            let n = before.index_of(e);
            assert(s[n].0@ != s[s.len() - 1].0@);
        }
        lemma_position(s, k);
        lemma_position(before, k);
        if p(last) {
            assert(f =~= before.filter(p).push(last));
            assert(f.drop_last() =~= before.filter(p));
            lemma_position(before.filter(p), k);
        } else {
            assert(f =~= before.filter(p));
        }
        if last.0@ == k {
            if position(before, k) >= 0 {
                assert(s[position(before, k)].0@ != s[s.len() - 1].0@);
            }
        }
    }
}

/// The texts that a table holds under texts.
pub open spec fn text_map(t: Seq<(String, String)>) -> Map<Seq<char>, Seq<char>> {
    Map::new(|k: Seq<char>| has_key(t, k), |k: Seq<char>| lookup(t, k)->0@)
}

pub proof fn lemma_text_map_put(t: Seq<(String, String)>, k: String, v: String)
    requires
        distinct_keys(t),
    ensures
        distinct_keys(put(t, k, v)),
        text_map(put(t, k, v)) =~= text_map(t).insert(k@, v@),
{
    law_put(t, k, v, k@);
    assert forall|x: Seq<char>|
        (#[trigger] text_map(put(t, k, v)).contains_key(x) <==> text_map(t).insert(
            k@,
            v@,
        ).contains_key(x)) && (text_map(put(t, k, v)).contains_key(x) ==> text_map(
            put(t, k, v),
        )[x] == text_map(t).insert(k@, v@)[x]) by {
        law_put(t, k, v, x);
        lemma_position(t, x);
        lemma_position(put(t, k, v), x);
    }
}

} // verus!

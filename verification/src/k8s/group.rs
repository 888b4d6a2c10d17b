//! Grouping things by name: groups in order of first appearance, and in each group its things in
//! the order they came.

use crate::sums::sum_of;
use crate::text::same;
use vstd::prelude::*;

verus! {

/// The index of the group `k`, or -1.
pub open spec fn group_index<T>(g: Seq<(Seq<char>, Seq<T>)>, k: Seq<char>) -> int
    decreases g.len(),
{
    if g.len() == 0 {
        -1
    } else if g.last().0 == k {
        g.len() - 1
    } else {
        group_index(g.drop_last(), k)
    }
}

/// The groups once `t` was added to the group `k`.
pub open spec fn added<T>(g: Seq<(Seq<char>, Seq<T>)>, k: Seq<char>, t: T) -> Seq<
    (Seq<char>, Seq<T>),
> {
    let i = group_index(g, k);
    if i >= 0 {
        g.update(i, (k, g[i].1.push(t)))
    } else {
        g.push((k, seq![t]))
    }
}

/// The groups of things that were listed with the names of their groups.
pub open spec fn groups<T>(items: Seq<(Seq<char>, T)>) -> Seq<(Seq<char>, Seq<T>)>
    decreases items.len(),
{
    if items.len() == 0 {
        Seq::empty()
    } else {
        added(groups(items.drop_last()), items.last().0, items.last().1)
    }
}

/// What values view as.
pub open spec fn view_all<T: View>(v: Seq<T>) -> Seq<T::V> {
    v.map_values(|t: T| t@)
}

/// The groups that a table of vectors stands for.
pub open spec fn group_views<T: View>(v: Seq<(String, Vec<T>)>) -> Seq<(Seq<char>, Seq<T::V>)> {
    v.map_values(|e: (String, Vec<T>)| (e.0@, view_all(e.1@)))
}

pub proof fn lemma_group_index<T>(g: Seq<(Seq<char>, Seq<T>)>, k: Seq<char>)
    ensures
        -1 <= group_index(g, k) < g.len(),
        group_index(g, k) >= 0 ==> g[group_index(g, k)].0 == k,
        group_index(g, k) < 0 ==> forall|i: int| 0 <= i < g.len() ==> (#[trigger] g[i]).0 != k,
    decreases g.len(),
{
    if g.len() > 0 && g.last().0 != k {
        lemma_group_index(g.drop_last(), k);
        if group_index(g, k) < 0 {
            assert forall|i: int| 0 <= i < g.len() implies (#[trigger] g[i]).0 != k by {
                if i < g.len() - 1 {
                    assert(g.drop_last()[i] == g[i]);
                }
            }
        }
    }
}

/// Adds a thing to its group.
pub fn add_to_group<T: View>(v: &mut Vec<(String, Vec<T>)>, k: &str, t: T)
    ensures
        group_views(final(v)@) == added(group_views(old(v)@), k@, t@),
{
    let ghost before = group_views(v@);
    let mut i: usize = v.len();
    assert(before.take(i as int) =~= before);
    while i > 0
        invariant
            i <= v@.len(),
            v@ == old(v)@,
            before == group_views(v@),
            group_index(before, k@) == group_index(before.take(i as int), k@),
        decreases i,
    {
        i = i - 1;
        assert(before.take(i + 1).drop_last() =~= before.take(i as int));
        assert(before[i as int].0 == v@[i as int].0@);
        if same(v[i].0.as_str(), k) {
            let ghost inner = v@[i as int].1@;
            v[i].1.push(t);
            proof {
                let after = group_views(v@);
                assert(view_all(v@[i as int].1@) =~= view_all(inner).push(t@));
                assert(after =~= added(before, k@, t@));
            }
            return ;
        }
    }
    let mut first: Vec<T> = Vec::new();
    first.push(t);
    v.push((k.to_owned(), first));
    proof {
        assert(view_all(first@) =~= seq![t@]);
        assert(group_views(v@) =~= added(before, k@, t@));
    }
}

/// A measure of things added up.
pub open spec fn sum_over<T>(items: Seq<T>, f: spec_fn(T) -> int) -> int
    decreases items.len(),
{
    if items.len() == 0 {
        0
    } else {
        sum_over(items.drop_last(), f) + f(items.last())
    }
}

/// A measure of things added up over groups.
pub open spec fn sum_over_groups<T>(g: Seq<(Seq<char>, Seq<T>)>, f: spec_fn(T) -> int) -> int
    decreases g.len(),
{
    if g.len() == 0 {
        0
    } else {
        sum_over_groups(g.drop_last(), f) + sum_over(g.last().1, f)
    }
}

proof fn lemma_group_update<T>(
    g: Seq<(Seq<char>, Seq<T>)>,
    i: int,
    t: T,
    f: spec_fn(T) -> int,
)
    requires
        0 <= i < g.len(),
    ensures
        sum_over_groups(g.update(i, (g[i].0, g[i].1.push(t))), f) == sum_over_groups(g, f) + f(t),
    decreases g.len(),
{
    let h = g.update(i, (g[i].0, g[i].1.push(t)));
    if i == g.len() - 1 {
        assert(h.drop_last() =~= g.drop_last());
        assert(g[i].1.push(t).drop_last() =~= g[i].1);
    } else {
        assert(h.drop_last() =~= g.drop_last().update(i, (g[i].0, g[i].1.push(t))));
        lemma_group_update(g.drop_last(), i, t, f);
    }
}

/// Grouping neither adds nor loses anything: a measure added up over the groups is the measure
/// added up over all things.
pub proof fn law_groups_conserve<T>(items: Seq<(Seq<char>, T)>, f: spec_fn(T) -> int)
    ensures
        sum_over_groups(groups(items), f) == sum_over(
            items,
            |e: (Seq<char>, T)| f(e.1),
        ),
    decreases items.len(),
{
    let h = |e: (Seq<char>, T)| f(e.1);
    if items.len() > 0 {
        law_groups_conserve(items.drop_last(), f);
        let g = groups(items.drop_last());
        let k = items.last().0;
        let t = items.last().1;
        lemma_group_index(g, k);
        let i = group_index(g, k);
        if i >= 0 {
            lemma_group_update(g, i, t, f);
        } else {
            assert(g.push((k, seq![t])).drop_last() =~= g);
            assert(seq![t].drop_last() =~= Seq::empty());
            assert(sum_over(seq![t], f) == sum_over(Seq::empty(), f) + f(t));
        }
    }
}

/// What a thing counts for in the group `k`: nothing if it was listed with another name.
pub open spec fn in_group<T>(k: Seq<char>, f: spec_fn(T) -> int) -> spec_fn((Seq<char>, T)) -> int {
    |e: (Seq<char>, T)|
        if e.0 == k {
            f(e.1)
        } else {
            0
        }
}

/// A group holds what was listed with its name, and nothing else: whatever things count for, the
/// group counts for as much as the things of its name. There is a group for a name if and only if
/// a thing was listed with it, and no two groups have the same name.
pub proof fn law_group_holds_its_own<T>(
    items: Seq<(Seq<char>, T)>,
    k: Seq<char>,
    f: spec_fn(T) -> int,
)
    ensures
        ({
            let g = groups(items);
            let i = group_index(g, k);
            &&& i >= 0 <==> exists|j: int| 0 <= j < items.len() && (#[trigger] items[j]).0 == k
            &&& i >= 0 ==> sum_over(g[i].1, f) == sum_of(items, in_group(k, f))
            &&& i < 0 ==> sum_of(items, in_group(k, f)) == 0
            &&& forall|a: int, b: int|
                0 <= a < b < g.len() ==> (#[trigger] g[a]).0 != (#[trigger] g[b]).0
        }),
    decreases items.len(),
{
    if items.len() > 0 {
        let rest = items.drop_last();
        let (name, t) = items[items.len() - 1];
        law_group_holds_its_own(rest, k, f);
        let g = groups(rest);
        let h = groups(items);
        lemma_group_index(g, name);
        lemma_group_index(g, k);
        lemma_group_index(h, k);
        let p = group_index(g, name);
        let q = group_index(h, k);
        if p >= 0 {
            lemma_added_index(g, p, (name, g[p].1.push(t)), k);
            assert(g[p].1.push(t).drop_last() =~= g[p].1);
        } else {
            assert(h.drop_last() =~= g);
            assert(seq![t].drop_last() =~= Seq::empty());
            assert(sum_over(seq![t], f) == sum_over(Seq::empty(), f) + f(t));
        }
        if exists|j: int| 0 <= j < rest.len() && (#[trigger] rest[j]).0 == k {
            let j = choose|j: int| 0 <= j < rest.len() && (#[trigger] rest[j]).0 == k;
            assert(items[j].0 == k);
        }
        if exists|j: int| 0 <= j < items.len() && (#[trigger] items[j]).0 == k {
            let j = choose|j: int| 0 <= j < items.len() && (#[trigger] items[j]).0 == k;
            if j < rest.len() {
                assert(rest[j].0 == k);
            }
        }
        if name == k {
            assert(items[items.len() - 1].0 == k);
        }
        assert forall|a: int, b: int| 0 <= a < b < h.len() implies (#[trigger] h[a]).0 != (
        #[trigger] h[b]).0 by {
            if b < g.len() {
                assert(g[a].0 != g[b].0);
            }
        }
    }
}

proof fn lemma_added_index<T>(
    g: Seq<(Seq<char>, Seq<T>)>,
    p: int,
    e: (Seq<char>, Seq<T>),
    k: Seq<char>,
)
    requires
        0 <= p < g.len(),
        e.0 == g[p].0,
    ensures
        group_index(g.update(p, e), k) == group_index(g, k),
    decreases g.len(),
{
    let h = g.update(p, e);
    if p == g.len() - 1 {
        assert(h.drop_last() =~= g.drop_last());
    } else {
        assert(h.drop_last() =~= g.drop_last().update(p, e));
        lemma_added_index(g.drop_last(), p, e, k);
    }
}

} // verus!

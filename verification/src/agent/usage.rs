//! Usage lists: amounts of one resource, each under the UID of the pod that used it.

use crate::tally::{lemma_used, natural_amounts, used, used_by};
use crate::text::{contains, distinct, named, same};
use crate::wide::{lemma_natural, Wide};
use vstd::prelude::*;

verus! {

/// The amounts of a usage list, each under its pod's UID.
pub open spec fn usage(list: Seq<(String, u128)>) -> Seq<(Seq<char>, int)> {
    list.map_values(|e: (String, u128)| (e.0@, e.1 as int))
}

/// What one pod used, of a list whose sum can be held.
pub fn sum_used_by(list: &Vec<(String, u128)>, uid: &str) -> (r: u128)
    requires
        used(usage(list@)) <= u128::MAX,
    ensures
        r == used_by(usage(list@), uid@),
        r <= used(usage(list@)),
{
    let ghost all = usage(list@);
    let mut sum: u128 = 0;
    let mut i: usize = 0;
    proof {
        lemma_used(all, uid@);
    }
    while i < list.len()
        invariant
            i <= list@.len(),
            all == usage(list@),
            used(all) <= u128::MAX,
            sum == used_by(all.take(i as int), uid@),
        decreases list@.len() - i,
    {
        assert(all.take(i + 1).drop_last() =~= all.take(i as int));
        proof {
            lemma_used(all, uid@);
            lemma_used(all.take(i + 1), uid@);
        }
        if same(list[i].0.as_str(), uid) {
            sum = sum + list[i].1;
        }
        i = i + 1;
    }
    assert(all.take(i as int) =~= all);
    sum
}

/// What all pods used, of a list whose sum can be held.
pub fn sum_used(list: &Vec<(String, u128)>) -> (r: u128)
    requires
        used(usage(list@)) <= u128::MAX,
    ensures
        r == used(usage(list@)),
{
    let ghost all = usage(list@);
    let mut sum: u128 = 0;
    let mut i: usize = 0;
    while i < list.len()
        invariant
            i <= list@.len(),
            all == usage(list@),
            used(all) <= u128::MAX,
            sum == used(all.take(i as int)),
        decreases list@.len() - i,
    {
        assert(all.take(i + 1).drop_last() =~= all.take(i as int));
        proof {
            lemma_used(all, Seq::<char>::empty());
            assert(used(all.take(i + 1)) <= used(all));
        }
        sum = sum + list[i].1;
        i = i + 1;
    }
    assert(all.take(i as int) =~= all);
    sum
}

/// A usage list of numbers of any size as keys and amounts.
pub open spec fn wide_usage(list: Seq<(String, Wide)>) -> Seq<(Seq<char>, int)> {
    list.map_values(|e: (String, Wide)| (e.0@, e.1@))
}

pub proof fn lemma_wide_usage(list: Seq<(String, Wide)>)
    ensures
        natural_amounts(wide_usage(list)),
{
    assert forall|i: int| 0 <= i < list.len() implies 0 <= (#[trigger] wide_usage(list)[i]).1 by {
        lemma_natural(list[i].1.limbs@);
    }
}

/// What one pod used, of a list of numbers of any size.
pub fn sum_wide_by(list: &Vec<(String, Wide)>, uid: &str) -> (r: Wide)
    ensures
        r@ == used_by(wide_usage(list@), uid@),
{
    let ghost all = wide_usage(list@);
    let mut sum: Wide = Wide::zero();
    let mut i: usize = 0;
    while i < list.len()
        invariant
            i <= list@.len(),
            all == wide_usage(list@),
            sum@ == used_by(all.take(i as int), uid@),
        decreases list@.len() - i,
    {
        assert(all.take(i + 1).drop_last() =~= all.take(i as int));
        if same(list[i].0.as_str(), uid) {
            sum = sum.plus(&list[i].1);
        }
        i = i + 1;
    }
    assert(all.take(i as int) =~= all);
    sum
}

/// What all pods used, of a list of numbers of any size.
pub fn sum_wide(list: &Vec<(String, Wide)>) -> (r: Wide)
    ensures
        r@ == used(wide_usage(list@)),
{
    let ghost all = wide_usage(list@);
    let mut sum: Wide = Wide::zero();
    let mut i: usize = 0;
    while i < list.len()
        invariant
            i <= list@.len(),
            all == wide_usage(list@),
            sum@ == used(all.take(i as int)),
        decreases list@.len() - i,
    {
        assert(all.take(i + 1).drop_last() =~= all.take(i as int));
        sum = sum.plus(&list[i].1);
        i = i + 1;
    }
    assert(all.take(i as int) =~= all);
    sum
}

/// Whether a list has an entry for a pod.
pub open spec fn has_entry<T>(list: Seq<(String, T)>, uid: Seq<char>) -> bool {
    exists|i: int| 0 <= i < list.len() && (#[trigger] list[i]).0@ == uid
}

/// Adds the pods of a usage list to a list of UIDs, each once, in order of first appearance.
pub fn add_pods<T>(uids: &mut Vec<String>, list: &Vec<(String, T)>)
    requires
        distinct(old(uids)@),
    ensures
        distinct(final(uids)@),
        forall|uid: Seq<char>| #[trigger]
            named(final(uids)@, uid) <==> named(old(uids)@, uid) || has_entry(list@, uid),
{
    let ghost all = list@;
    let mut i: usize = 0;
    proof {
        assert(all.take(0).len() == 0);
    }
    while i < list.len()
        invariant
            i <= list@.len(),
            all == list@,
            distinct(uids@),
            forall|uid: Seq<char>| #[trigger]
                named(uids@, uid) <==> named(old(uids)@, uid) || has_entry(all.take(i as int), uid),
        decreases list@.len() - i,
    {
        let ghost before = uids@;
        let ghost key = list@[i as int].0@;
        if !contains(uids, list[i].0.as_str()) {
            let uid: String = list[i].0.clone();
            uids.push(uid);
        }
        proof {
            assert forall|uid: Seq<char>| #[trigger]
                named(uids@, uid) <==> named(old(uids)@, uid) || has_entry(
                    all.take(i + 1),
                    uid,
                ) by {
                let taken = all.take(i + 1);
                assert(taken[i as int].0@ == key);
                if has_entry(all.take(i as int), uid) {
                    let k = choose|k: int|
                        0 <= k < all.take(i as int).len() && (#[trigger] all.take(i as int)[k]).0@
                            == uid;
                    assert(taken[k].0@ == uid);
                }
                if has_entry(taken, uid) {
                    let k = choose|k: int|
                        0 <= k < taken.len() && (#[trigger] taken[k]).0@ == uid;
                    if k < i {
                        assert(all.take(i as int)[k].0@ == uid);
                    }
                }
                if named(before, uid) {
                    let k = choose|k: int| 0 <= k < before.len() && (#[trigger] before[k])@ == uid;
                    assert(uids@[k]@ == uid);
                }
                if uid == key && !named(before, key) {
                    assert(uids@[before.len() as int]@ == uid);
                }
                if named(uids@, uid) && !named(before, uid) {
                    let k = choose|k: int| 0 <= k < uids@.len() && (#[trigger] uids@[k])@ == uid;
                    if k < before.len() {
                        assert(before[k]@ == uid);
                    }
                }
                assert(named(before, uid) <==> named(old(uids)@, uid) || has_entry(
                    all.take(i as int),
                    uid,
                ));
            }
        }
        i = i + 1;
    }
    assert(all.take(i as int) =~= all);
}

} // verus!

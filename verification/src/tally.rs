//! Tallies: amounts listed under keys, added up by key or altogether.

use crate::sums::sum_of;
use vstd::prelude::*;

verus! {

/// The amounts under key `k` added up.
pub open spec fn used_by<K>(list: Seq<(K, int)>, k: K) -> int
    decreases list.len(),
{
    if list.len() == 0 {
        0
    } else {
        used_by(list.drop_last(), k) + if list.last().0 == k {
            list.last().1
        } else {
            0
        }
    }
}

/// All amounts added up.
pub open spec fn used<K>(list: Seq<(K, int)>) -> int
    decreases list.len(),
{
    if list.len() == 0 {
        0
    } else {
        used(list.drop_last()) + list.last().1
    }
}

/// Whether an amount stands under key `k`.
pub open spec fn mentions<K>(list: Seq<(K, int)>, k: K) -> bool {
    exists|i: int| 0 <= i < list.len() && (#[trigger] list[i]).0 == k
}

/// No amount is negative.
pub open spec fn natural_amounts<K>(list: Seq<(K, int)>) -> bool {
    forall|i: int| 0 <= i < list.len() ==> 0 <= (#[trigger] list[i]).1
}

/// The sums under each of `keys` added up.
pub open spec fn used_by_all<K>(list: Seq<(K, int)>, keys: Seq<K>) -> int
    decreases keys.len(),
{
    if keys.len() == 0 {
        0
    } else {
        used_by_all(list, keys.drop_last()) + used_by(list, keys.last())
    }
}

/// No key has more than all keys together.
pub proof fn lemma_used<K>(list: Seq<(K, int)>, k: K)
    requires
        natural_amounts(list),
    ensures
        0 <= used_by(list, k) <= used(list),
        forall|n: int| 0 <= n <= list.len() ==> 0 <= #[trigger] used(list.take(n)) <= used(list),
        !mentions(list, k) ==> used_by(list, k) == 0,
    decreases list.len(),
{
    if list.len() > 0 {
        let before = list.drop_last();
        assert(natural_amounts(before)) by {
            assert forall|i: int| 0 <= i < before.len() implies 0 <= (#[trigger] before[i]).1 by {
                assert(list[i].1 >= 0);
            }
        }
        lemma_used(before, k);
        assert(list[list.len() - 1].1 >= 0);
        if mentions(before, k) {
            let i = choose|i: int| 0 <= i < before.len() && (#[trigger] before[i]).0 == k;
            assert(list[i].0 == k);
        }
        assert forall|n: int| 0 <= n <= list.len() implies 0 <= #[trigger] used(list.take(n))
            <= used(list) by {
            if n < list.len() {
                assert(list.take(n) =~= before.take(n));
            } else {
                assert(list.take(n) =~= list);
                assert(before.take(before.len() as int) =~= before);
            }
        }
        if list.last().0 == k {
            assert(list[list.len() - 1].0 == k);
        }
    } else {
        assert forall|n: int| 0 <= n <= list.len() implies 0 <= #[trigger] used(list.take(n))
            <= used(list) by {
            assert(list.take(n) =~= list);
        }
    }
}

proof fn lemma_used_by_all_step<K>(list: Seq<(K, int)>, keys: Seq<K>)
    requires
        list.len() > 0,
        keys.no_duplicates(),
    ensures
        used_by_all(list, keys) == used_by_all(list.drop_last(), keys) + if keys.contains(
            list.last().0,
        ) {
            list.last().1
        } else {
            0
        },
    decreases keys.len(),
{
    if keys.len() > 0 {
        let rest = keys.drop_last();
        let key = list.last().0;
        assert(rest.no_duplicates());
        lemma_used_by_all_step(list, rest);
        if keys.last() == key {
            assert(keys[keys.len() - 1] == key);
            if rest.contains(key) {
                let i = rest.index_of(key);
                assert(keys[i] == key);
            }
        } else {
            if keys.contains(key) {
                let i = keys.index_of(key);
                assert(rest[i] == key);
            }
            if rest.contains(key) {
                let i = rest.index_of(key);
                assert(keys[i] == key);
            }
        }
    }
}

proof fn lemma_used_by_all_empty<K>(list: Seq<(K, int)>, keys: Seq<K>)
    requires
        list.len() == 0,
    ensures
        used_by_all(list, keys) == 0,
    decreases keys.len(),
{
    if keys.len() > 0 {
        lemma_used_by_all_empty(list, keys.drop_last());
    }
}

/// Adding up by key never comes to more than adding up altogether, and comes to the same where
/// every key is counted.
pub proof fn law_tally<K>(list: Seq<(K, int)>, keys: Seq<K>)
    requires
        natural_amounts(list),
        keys.no_duplicates(),
    ensures
        used_by_all(list, keys) <= used(list),
        (forall|k: K| #[trigger] mentions(list, k) ==> keys.contains(k)) ==> used_by_all(list, keys)
            == used(list),
    decreases list.len(),
{
    if list.len() > 0 {
        let before = list.drop_last();
        assert(natural_amounts(before)) by {
            assert forall|i: int| 0 <= i < before.len() implies 0 <= (#[trigger] before[i]).1 by {
                assert(list[i].1 >= 0);
            }
        }
        lemma_used_by_all_step(list, keys);
        law_tally(before, keys);
        assert(list[list.len() - 1].1 >= 0);
        if forall|k: K| #[trigger] mentions(list, k) ==> keys.contains(k) {
            assert(list[list.len() - 1].0 == list.last().0);
            assert(mentions(list, list.last().0));
            assert forall|k: K| #[trigger] mentions(before, k) implies keys.contains(k) by {
                let i = choose|i: int| 0 <= i < before.len() && (#[trigger] before[i]).0 == k;
                assert(list[i].0 == k);
                assert(mentions(list, k));
            }
        }
    } else {
        lemma_used_by_all_empty(list, keys);
    }
}

/// What one key has is the sum of the amounts under it, and all keys together have the sum of all
/// amounts.
pub proof fn law_amounts_by_key<K>(
    list: Seq<(K, int)>,
    k: K,
    own: spec_fn((K, int)) -> int,
    any: spec_fn((K, int)) -> int,
)
    requires
        forall|e: (K, int)| e.0 == k ==> #[trigger] own(e) == e.1,
        forall|e: (K, int)| e.0 != k ==> #[trigger] own(e) == 0,
        forall|e: (K, int)| #[trigger] any(e) == e.1,
    ensures
        used_by(list, k) == sum_of(list, own),
        used(list) == sum_of(list, any),
    decreases list.len(),
{
    if list.len() > 0 {
        law_amounts_by_key(list.drop_last(), k, own, any);
    }
}

} // verus!

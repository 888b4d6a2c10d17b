//! Ledgers: for each core a row of amounts, at most one for each PID.
//!
//! A ledger can be added up by core or by PID. Both ways come to the same sum.

use crate::sums::sum_of;
use crate::table::{
    distinct_keys, get, has_key, lemma_position, lemma_position_unique, lookup, position,
};
use vstd::prelude::*;

verus! {

/// The rows that a vector of vectors stands for.
pub open spec fn rows_of(v: Seq<Vec<(u32, u64)>>) -> Seq<Seq<(u32, u64)>> {
    v.map_values(|row: Vec<(u32, u64)>| row@)
}

/// The amount that a row holds for `pid`; nothing if it has no entry.
pub open spec fn amount_in(row: Seq<(u32, u64)>, pid: u32) -> int {
    match lookup(row, pid) {
        Some(v) => v as int,
        None => 0,
    }
}

/// The amounts of one row added up.
pub open spec fn row_sum(row: Seq<(u32, u64)>) -> int
    decreases row.len(),
{
    if row.len() == 0 {
        0
    } else {
        row_sum(row.drop_last()) + row.last().1
    }
}

/// The amounts for `pid` in all rows added up.
pub open spec fn pid_sum(rows: Seq<Seq<(u32, u64)>>, pid: u32) -> int
    decreases rows.len(),
{
    if rows.len() == 0 {
        0
    } else {
        pid_sum(rows.drop_last(), pid) + amount_in(rows.last(), pid)
    }
}

/// All rows added up.
pub open spec fn ledger_sum(rows: Seq<Seq<(u32, u64)>>) -> int
    decreases rows.len(),
{
    if rows.len() == 0 {
        0
    } else {
        ledger_sum(rows.drop_last()) + row_sum(rows.last())
    }
}

/// Whether `pid` has an entry in some row.
pub open spec fn entered(rows: Seq<Seq<(u32, u64)>>, pid: u32) -> bool
    decreases rows.len(),
{
    rows.len() > 0 && (entered(rows.drop_last(), pid) || has_key(rows.last(), pid))
}

/// Every row has at most one entry for each PID.
pub open spec fn well_kept(rows: Seq<Seq<(u32, u64)>>) -> bool {
    forall|i: int| 0 <= i < rows.len() ==> distinct_keys(#[trigger] rows[i])
}

/// The sums for each of `pids` added up.
pub open spec fn pids_sum(rows: Seq<Seq<(u32, u64)>>, pids: Seq<u32>) -> int
    decreases pids.len(),
{
    if pids.len() == 0 {
        0
    } else {
        pids_sum(rows, pids.drop_last()) + pid_sum(rows, pids.last())
    }
}

spec fn row_over(row: Seq<(u32, u64)>, pids: Seq<u32>) -> int
    decreases pids.len(),
{
    if pids.len() == 0 {
        0
    } else {
        row_over(row, pids.drop_last()) + amount_in(row, pids.last())
    }
}

pub proof fn lemma_row_sum(row: Seq<(u32, u64)>, pid: u32)
    ensures
        0 <= amount_in(row, pid) <= row_sum(row),
    decreases row.len(),
{
    if row.len() > 0 {
        lemma_row_sum(row.drop_last(), pid);
        lemma_position(row, pid);
        lemma_position(row.drop_last(), pid);
    }
}

pub proof fn lemma_pid_sum(rows: Seq<Seq<(u32, u64)>>, pid: u32)
    ensures
        0 <= pid_sum(rows, pid) <= ledger_sum(rows),
    decreases rows.len(),
{
    if rows.len() > 0 {
        lemma_pid_sum(rows.drop_last(), pid);
        lemma_row_sum(rows.last(), pid);
    }
}

/// A part of a ledger sums to no more than all of it.
pub proof fn lemma_ledger_take(rows: Seq<Seq<(u32, u64)>>, n: int)
    requires
        0 <= n <= rows.len(),
    ensures
        0 <= ledger_sum(rows.take(n)) <= ledger_sum(rows),
    decreases rows.len() - n,
{
    lemma_pid_sum(rows.take(n), 0);
    if n < rows.len() {
        assert(rows.take(n + 1).drop_last() =~= rows.take(n));
        lemma_ledger_take(rows, n + 1);
        lemma_row_sum(rows[n], 0);
    } else {
        assert(rows.take(n) =~= rows);
    }
}

/// Dropping a row's last entry takes its amount from the sum over distinct PIDs, if its PID is
/// among them.
proof fn lemma_row_over_drop(row: Seq<(u32, u64)>, pids: Seq<u32>)
    requires
        row.len() > 0,
        distinct_keys(row),
        pids.no_duplicates(),
    ensures
        row_over(row, pids) == row_over(row.drop_last(), pids) + if pids.contains(row.last().0) {
            row.last().1 as int
        } else {
            0
        },
    decreases pids.len(),
{
    if pids.len() > 0 {
        let rest = pids.drop_last();
        let p = pids.last();
        assert(rest.no_duplicates());
        lemma_row_over_drop(row, rest);
        let key = row.last().0;
        lemma_position(row.drop_last(), key);
        lemma_position_unique(row, row.len() - 1);
        if position(row.drop_last(), key) >= 0 {
            assert(row[position(row.drop_last(), key)].0 == row[row.len() - 1].0);
        }
        if p == key {
            assert(!rest.contains(key)) by {
                if rest.contains(key) {
                    let i = rest.index_of(key);
                    assert(pids[i] == key && pids[pids.len() - 1] == key);
                }
            }
            assert(pids[pids.len() - 1] == key);
            assert(pids.contains(key));
            assert(amount_in(row.drop_last(), p) == 0);
        } else {
            assert(pids.contains(key) <==> rest.contains(key)) by {
                if pids.contains(key) {
                    let i = pids.index_of(key);
                    assert(rest[i] == key);
                }
                if rest.contains(key) {
                    let i = rest.index_of(key);
                    assert(pids[i] == key);
                }
            }
            assert(position(row, p) == position(row.drop_last(), p));
            lemma_position(row.drop_last(), p);
        }
    }
}

proof fn lemma_row_over(row: Seq<(u32, u64)>, pids: Seq<u32>)
    requires
        distinct_keys(row),
        pids.no_duplicates(),
        forall|i: int| 0 <= i < row.len() ==> pids.contains((#[trigger] row[i]).0),
    ensures
        row_over(row, pids) == row_sum(row),
    decreases row.len(),
{
    if row.len() > 0 {
        lemma_row_over_drop(row, pids);
        assert(distinct_keys(row.drop_last())) by {
            assert forall|i: int, j: int| 0 <= i < j < row.drop_last().len() implies (
            #[trigger] row.drop_last()[i]).0@ != (#[trigger] row.drop_last()[j]).0@ by {
                assert(row[i].0@ != row[j].0@);
            }
        }
        assert forall|i: int| 0 <= i < row.drop_last().len() implies pids.contains(
            (#[trigger] row.drop_last()[i]).0,
        ) by {
            assert(pids.contains(row[i].0));
        }
        lemma_row_over(row.drop_last(), pids);
        assert(pids.contains(row[row.len() - 1].0));
    } else {
        lemma_row_over_empty(row, pids);
    }
}

proof fn lemma_row_over_empty(row: Seq<(u32, u64)>, pids: Seq<u32>)
    requires
        row.len() == 0,
    ensures
        row_over(row, pids) == 0,
    decreases pids.len(),
{
    if pids.len() > 0 {
        lemma_row_over_empty(row, pids.drop_last());
    }
}

proof fn lemma_pids_sum_step(rows: Seq<Seq<(u32, u64)>>, pids: Seq<u32>)
    requires
        rows.len() > 0,
    ensures
        pids_sum(rows, pids) == pids_sum(rows.drop_last(), pids) + row_over(rows.last(), pids),
    decreases pids.len(),
{
    if pids.len() > 0 {
        lemma_pids_sum_step(rows, pids.drop_last());
    }
}

/// Adding up by PID and by core comes to the same: the sums of all the PIDs that have an entry,
/// each counted once, make the sum of the ledger.
pub proof fn law_ledger_sums_agree(rows: Seq<Seq<(u32, u64)>>, pids: Seq<u32>)
    requires
        well_kept(rows),
        pids.no_duplicates(),
        forall|pid: u32| #[trigger] entered(rows, pid) ==> pids.contains(pid),
    ensures
        pids_sum(rows, pids) == ledger_sum(rows),
    decreases rows.len(),
{
    if rows.len() > 0 {
        let before = rows.drop_last();
        let row = rows.last();
        assert(well_kept(before)) by {
            assert forall|i: int| 0 <= i < before.len() implies distinct_keys(
                #[trigger] before[i],
            ) by {
                assert(distinct_keys(rows[i]));
            }
        }
        assert forall|pid: u32| #[trigger] entered(before, pid) implies pids.contains(pid) by {
            assert(entered(rows, pid));
        }
        law_ledger_sums_agree(before, pids);
        lemma_pids_sum_step(rows, pids);
        assert(distinct_keys(rows[rows.len() - 1]));
        assert forall|i: int| 0 <= i < row.len() implies pids.contains((#[trigger] row[i]).0) by {
            lemma_position_unique(row, i);
            assert(entered(rows, row[i].0));
        }
        lemma_row_over(row, pids);
    } else {
        lemma_pids_sum_empty(rows, pids);
    }
}

proof fn lemma_pids_sum_empty(rows: Seq<Seq<(u32, u64)>>, pids: Seq<u32>)
    requires
        rows.len() == 0,
    ensures
        pids_sum(rows, pids) == 0,
    decreases pids.len(),
{
    if pids.len() > 0 {
        lemma_pids_sum_empty(rows, pids.drop_last());
    }
}

/// Sums one row.
pub fn sum_row(row: &Vec<(u32, u64)>) -> (r: u128)
    ensures
        r == row_sum(row@),
{
    let mut sum: u128 = 0;
    let mut i: usize = 0;
    while i < row.len()
        invariant
            i <= row@.len(),
            sum == row_sum(row@.take(i as int)),
            sum <= i * 0xffff_ffff_ffff_ffff,
        decreases row@.len() - i,
    {
        assert(row@.take(i + 1).drop_last() =~= row@.take(i as int));
        sum = sum + row[i].1 as u128;
        i = i + 1;
    }
    assert(row@.take(i as int) =~= row@);
    sum
}

/// Sums a ledger whose sum can be held.
pub fn sum_ledger(rows: &Vec<Vec<(u32, u64)>>) -> (r: u128)
    requires
        ledger_sum(rows_of(rows@)) <= u128::MAX,
    ensures
        r == ledger_sum(rows_of(rows@)),
{
    let mut sum: u128 = 0;
    let mut i: usize = 0;
    while i < rows.len()
        invariant
            i <= rows@.len(),
            ledger_sum(rows_of(rows@)) <= u128::MAX,
            sum == ledger_sum(rows_of(rows@).take(i as int)),
        decreases rows@.len() - i,
    {
        assert(rows_of(rows@).take(i + 1).drop_last() =~= rows_of(rows@).take(i as int));
        proof {
            lemma_ledger_take(rows_of(rows@), i + 1);
        }
        sum = sum + sum_row(&rows[i]);
        i = i + 1;
    }
    assert(rows_of(rows@).take(i as int) =~= rows_of(rows@));
    sum
}

/// Sums one PID's amounts in a ledger whose sum can be held.
pub fn sum_pid(rows: &Vec<Vec<(u32, u64)>>, pid: u32) -> (r: u128)
    requires
        ledger_sum(rows_of(rows@)) <= u128::MAX,
    ensures
        r == pid_sum(rows_of(rows@), pid),
        r <= ledger_sum(rows_of(rows@)),
{
    let mut sum: u128 = 0;
    let mut i: usize = 0;
    while i < rows.len()
        invariant
            i <= rows@.len(),
            ledger_sum(rows_of(rows@)) <= u128::MAX,
            sum == pid_sum(rows_of(rows@).take(i as int), pid),
        decreases rows@.len() - i,
    {
        assert(rows_of(rows@).take(i + 1).drop_last() =~= rows_of(rows@).take(i as int));
        proof {
            lemma_ledger_take(rows_of(rows@), i + 1);
            lemma_pid_sum(rows_of(rows@).take(i + 1), pid);
            assert(rows_of(rows@).take(i + 1).last() == rows_of(rows@)[i as int]);
        }
        match get(&rows[i], &pid) {
            Some(v) => {
                sum = sum + *v as u128;
            },
            None => {},
        }
        i = i + 1;
    }
    assert(rows_of(rows@).take(i as int) =~= rows_of(rows@));
    proof {
        lemma_pid_sum(rows_of(rows@), pid);
    }
    sum
}

/// Lists the PIDs that have an entry, each once, in order of first appearance.
pub fn entered_pids(rows: &Vec<Vec<(u32, u64)>>) -> (r: Vec<u32>)
    ensures
        r@.no_duplicates(),
        forall|pid: u32| r@.contains(pid) <==> #[trigger] entered(rows_of(rows@), pid),
{
    let mut r: Vec<u32> = Vec::new();
    let mut i: usize = 0;
    while i < rows.len()
        invariant
            i <= rows@.len(),
            r@.no_duplicates(),
            forall|pid: u32| r@.contains(pid) <==> #[trigger] entered(rows_of(rows@).take(i as int), pid),
        decreases rows@.len() - i,
    {
        assert(rows_of(rows@).take(i + 1).drop_last() =~= rows_of(rows@).take(i as int));
        assert(rows_of(rows@).take(i + 1).last() == rows_of(rows@)[i as int]);
        let ghost before = rows_of(rows@).take(i as int);
        let ghost row = rows_of(rows@)[i as int];
        let mut j: usize = 0;
        assert(row.take(0).len() == 0);
        while j < rows[i].len()
            invariant
                i < rows@.len(),
                row == rows_of(rows@)[i as int],
                j <= row.len(),
                r@.no_duplicates(),
                forall|pid: u32| #[trigger]
                    r@.contains(pid) <==> entered(before, pid) || has_key(row.take(j as int), pid),
            decreases row.len() - j,
        {
            let pid: u32 = rows[i][j].0;
            assert(row.take(j + 1).drop_last() =~= row.take(j as int));
            let ghost old_r = r@;
            if !contains_pid(&r, pid) {
                r.push(pid);
                proof {
                    assert forall|p: u32| #[trigger] r@.contains(p) <==> old_r.contains(p) || p
                        == pid by {
                        if old_r.contains(p) {
                            let k = old_r.index_of(p);
                            assert(r@[k] == p);
                        }
                        assert(r@[old_r.len() as int] == pid);
                    }
                }
            }
            proof {
                assert forall|p: u32| #[trigger]
                    r@.contains(p) <==> entered(before, p) || has_key(row.take(j + 1), p) by {
                    lemma_position(row.take(j as int), p);
                    assert(old_r.contains(p) <==> entered(before, p) || has_key(
                        row.take(j as int),
                        p,
                    ));
                }
            }
            j = j + 1;
        }
        assert(row.take(j as int) =~= row);
        proof {
            assert forall|pid: u32|
                r@.contains(pid) <==> #[trigger] entered(rows_of(rows@).take(i + 1), pid) by {
                assert(r@.contains(pid) <==> entered(before, pid) || has_key(row, pid));
            }
        }
        i = i + 1;
    }
    assert(rows_of(rows@).take(i as int) =~= rows_of(rows@));
    r
}

fn contains_pid(pids: &Vec<u32>, pid: u32) -> (r: bool)
    ensures
        r == pids@.contains(pid),
{
    let mut i: usize = 0;
    while i < pids.len()
        invariant
            i <= pids@.len(),
            forall|j: int| 0 <= j < i ==> pids@[j] != pid,
        decreases pids@.len() - i,
    {
        if pids[i] == pid {
            return true;
        }
        i = i + 1;
    }
    false
}

/// A row's sum is that of its amounts, a process's that of its amounts in all rows, and the
/// ledger's that of all rows.
pub proof fn law_ledger_adds_up(rows: Seq<Seq<(u32, u64)>>, row: Seq<(u32, u64)>, pid: u32)
    ensures
        row_sum(row) == sum_of(row, |e: (u32, u64)| e.1 as int),
        pid_sum(rows, pid) == sum_of(rows, |r: Seq<(u32, u64)>| amount_in(r, pid)),
        ledger_sum(rows) == sum_of(rows, |r: Seq<(u32, u64)>| row_sum(r)),
        lookup(row, pid) matches Some(v) ==> amount_in(row, pid) == v,
        lookup(row, pid) is None ==> amount_in(row, pid) == 0,
        entered(rows, pid) <==> exists|i: int|
            0 <= i < rows.len() && lookup(#[trigger] rows[i], pid) is Some,
    decreases rows.len() + row.len(),
{
    if row.len() > 0 {
        law_ledger_adds_up(rows, row.drop_last(), pid);
    }
    if rows.len() > 0 {
        let rest = rows.drop_last();
        law_ledger_adds_up(rest, row, pid);
        if entered(rest, pid) {
            let i = choose|i: int|
                0 <= i < rest.len() && lookup(#[trigger] rest[i], pid) is Some;
            assert(lookup(rows[i], pid) is Some);
        }
        if has_key(rows.last(), pid) {
            assert(lookup(rows[rows.len() - 1], pid) is Some);
        }
        if exists|i: int| 0 <= i < rows.len() && lookup(#[trigger] rows[i], pid) is Some {
            let i = choose|i: int|
                0 <= i < rows.len() && lookup(#[trigger] rows[i], pid) is Some;
            if i < rest.len() {
                assert(lookup(rest[i], pid) is Some);
            }
        }
    }
}

} // verus!

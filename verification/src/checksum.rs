//! The checksum of a grid: the sum of its iteration counts.

use vstd::prelude::*;

verus! {

/// The sum of all counts of `cells`, as a mathematical integer.
pub open spec fn sum_of(cells: Seq<u64>) -> int
    decreases cells.len(),
{
    if cells.len() == 0 {
        0
    } else {
        sum_of(cells.drop_last()) + cells.last()
    }
}

/// The sum of those among the first `n` counts of `cells` whose index is
/// `chosen`.
pub open spec fn sum_where(cells: Seq<u64>, chosen: spec_fn(int) -> bool, n: nat) -> int
    decreases n,
{
    if n == 0 {
        0
    } else {
        sum_where(cells, chosen, (n - 1) as nat) + if chosen(n - 1) {
            cells[n - 1] as int
        } else {
            0
        }
    }
}

/// Every count of `cells` is at most `limit`.
pub open spec fn all_within(cells: Seq<u64>, limit: int) -> bool {
    forall|i: int| 0 <= i < cells.len() ==> cells[i] <= limit
}

/// A sum of counts is never negative.
pub proof fn lemma_sum_nonnegative(cells: Seq<u64>)
    ensures
        0 <= sum_of(cells),
    decreases cells.len(),
{
    if cells.len() > 0 {
        lemma_sum_nonnegative(cells.drop_last());
    }
}

/// The sum of counts that are all at most `limit` is at most
/// `limit` times their number.
pub proof fn lemma_sum_bounded(cells: Seq<u64>, limit: int)
    requires
        all_within(cells, limit),
    ensures
        sum_of(cells) <= cells.len() * limit,
    decreases cells.len(),
{
    if cells.len() > 0 {
        let rest = cells.drop_last();
        lemma_sum_bounded(rest, limit);
        assert(rest.len() * limit + limit == cells.len() * limit) by (nonlinear_arith)
            requires
                rest.len() + 1 == cells.len(),
        ;
    }
}

/// The sum of the first `n` counts is at most the sum of all of them.
pub proof fn lemma_sum_prefix(cells: Seq<u64>, n: int)
    requires
        0 <= n <= cells.len(),
    ensures
        sum_of(cells.take(n)) <= sum_of(cells),
    decreases cells.len() - n,
{
    if n < cells.len() {
        lemma_sum_prefix(cells, n + 1);
        assert(cells.take(n + 1).drop_last() =~= cells.take(n));
    } else {
        assert(cells.take(n) =~= cells);
    }
}

/// Taking one cell out lowers the sum by that cell's count.
pub proof fn lemma_sum_remove(cells: Seq<u64>, i: int)
    requires
        0 <= i < cells.len(),
    ensures
        sum_of(cells) == sum_of(cells.remove(i)) + cells[i],
    decreases cells.len(),
{
    let last = cells.len() - 1;
    if i == last {
        assert(cells.remove(i) =~= cells.drop_last());
    } else {
        lemma_sum_remove(cells.drop_last(), i);
        assert(cells.remove(i).drop_last() =~= cells.drop_last().remove(i));
        assert(cells.remove(i).last() == cells.last());
    }
}

/// The sum of the chosen counts is zero where none is chosen, and never
/// more than the sum of all counts.
pub proof fn lemma_sum_where_range(cells: Seq<u64>, chosen: spec_fn(int) -> bool, n: nat)
    requires
        n <= cells.len(),
    ensures
        0 <= sum_where(cells, chosen, n) <= sum_of(cells.take(n as int)),
        (forall|i: int| 0 <= i < n ==> !#[trigger] chosen(i)) ==> sum_where(cells, chosen, n) == 0,
        (forall|i: int| 0 <= i < n ==> #[trigger] chosen(i)) ==> sum_where(cells, chosen, n) == sum_of(
            cells.take(n as int),
        ),
    decreases n,
{
    if n > 0 {
        lemma_sum_where_range(cells, chosen, (n - 1) as nat);
        assert(cells.take(n as int).drop_last() =~= cells.take(n - 1));
    }
}

/// Writing `count` to a cell that was not chosen, and choosing it from then
/// on, adds `count` to the sum of the chosen counts.
pub proof fn lemma_sum_where_add(
    cells: Seq<u64>,
    chosen: spec_fn(int) -> bool,
    after: spec_fn(int) -> bool,
    index: int,
    count: u64,
    n: nat,
)
    requires
        n <= cells.len(),
        0 <= index < cells.len(),
        !chosen(index),
        after(index),
        forall|i: int|
            0 <= i < cells.len() && i != index ==> #[trigger] chosen(i) == #[trigger] after(i),
    ensures
        sum_where(cells.update(index, count), after, n) == sum_where(cells, chosen, n) + if index
            < n {
            count as int
        } else {
            0
        },
    decreases n,
{
    if n > 0 {
        lemma_sum_where_add(cells, chosen, after, index, count, (n - 1) as nat);
    }
}

/// The sum does not depend on the order of the cells: two sequences that
/// hold the same counts the same number of times have the same sum.
pub proof fn lemma_sum_permutation(a: Seq<u64>, b: Seq<u64>)
    requires
        a.to_multiset() == b.to_multiset(),
    ensures
        sum_of(a) == sum_of(b),
    decreases a.len(),
{
    a.to_multiset_ensures();
    b.to_multiset_ensures();
    if a.len() == 0 {
        assert(b.len() == 0);
    } else {
        // The last count of `a` occurs somewhere in `b`; take it out of both.
        let count = a.last();
        assert(a[a.len() - 1] == count);
        assert(a.to_multiset().count(count) > 0);
        assert(b.to_multiset().count(count) > 0);
        let j = choose|j: int| 0 <= j < b.len() && b[j] == count;
        assert(a.drop_last() =~= a.remove(a.len() - 1));
        lemma_sum_permutation(a.drop_last(), b.remove(j));
        lemma_sum_remove(b, j);
    }
}

} // verus!

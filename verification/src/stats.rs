//! Order statistics, and counting.

use vstd::prelude::*;
use vstd::relations::{sorted_by, total_ordering};

verus! {

/// The order of numbers.
pub open spec fn at_most() -> spec_fn(u64, u64) -> bool {
    |a: u64, b: u64| a <= b
}

/// Numbers in ascending order.
pub open spec fn ascending(s: Seq<u64>) -> Seq<u64> {
    s.sort_by(at_most())
}

proof fn lemma_at_most_orders()
    ensures
        total_ordering(at_most()),
{
}

/// The numbers in ascending order.
pub fn sorted_copy(values: &Vec<u64>) -> (r: Vec<u64>)
    ensures
        r@ == ascending(values@),
        r@.len() == values@.len(),
{
    let mut r: Vec<u64> = Vec::new();
    let mut i: usize = 0;
    assert(values@.take(0) =~= Seq::<u64>::empty());
    while i < values.len()
        invariant
            i <= values@.len(),
            r@.len() == i,
            sorted_by(r@, at_most()),
            r@.to_multiset() == values@.take(i as int).to_multiset(),
        decreases values@.len() - i,
    {
        let x = values[i];
        let mut k: usize = r.len();
        while k > 0 && r[k - 1] > x
            invariant
                k <= r@.len(),
                forall|j: int| k <= j < r@.len() ==> r@[j] > x,
            decreases k,
        {
            k = k - 1;
        }
        let ghost before = r@;
        r.insert(k, x);
        proof {
            broadcast use vstd::seq_lib::group_to_multiset_ensures;

            let after = r@;
            assert(after =~= before.insert(k as int, x));
            assert forall|a: int, b: int| 0 <= a < b < after.len() implies #[trigger] at_most()(
                after[a],
                after[b],
            ) by {
                let p = if a < k {
                    a
                } else {
                    a - 1
                };
                let q = if b < k {
                    b
                } else {
                    b - 1
                };
                if a != k && b != k {
                    assert(at_most()(before[p], before[q]));
                }
                if b == k {
                    assert(k > 0);
                    if a < k - 1 {
                        assert(at_most()(before[a], before[k - 1]));
                    }
                }
            }
            assert(values@.take(i + 1) =~= values@.take(i as int).push(x));
            assert(after.to_multiset() =~= values@.take(i + 1).to_multiset());
        }
        i = i + 1;
    }
    proof {
        assert(values@.take(values@.len() as int) =~= values@);
        lemma_at_most_orders();
        values@.lemma_sort_by_ensures(at_most());
        vstd::seq_lib::lemma_sorted_unique(r@, ascending(values@), at_most());
    }
    r
}

/// Where the `p`th percentile of `n` numbers stands among them.
pub open spec fn rank(n: int, p: int) -> int {
    let i = n * p / 100;
    if i < n - 1 {
        i
    } else {
        n - 1
    }
}

/// Numbers in ascending order are the same numbers, each no greater than
/// those behind it. A percentile below the hundredth is the number that so
/// many of a hundred stand before, with the fraction of a number left out.
pub proof fn a_percentile_stands_at_its_rank(s: Seq<u64>, p: int)
    requires
        s.len() > 0,
        0 <= p < 100,
    ensures
        ascending(s).to_multiset() == s.to_multiset(),
        ascending(s).len() == s.len(),
        forall|i: int, j: int| 0 <= i <= j < s.len() ==> ascending(s)[i] <= ascending(s)[j],
        rank(s.len() as int, p) == s.len() as int * p / 100,
        0 <= rank(s.len() as int, p) < s.len(),
{
    lemma_at_most_orders();
    s.lemma_sort_by_ensures(at_most());
    let row = ascending(s);
    assert(row.len() == s.len()) by {
        broadcast use vstd::seq_lib::group_to_multiset_ensures;

        assert(row.to_multiset().len() == s.to_multiset().len());
    }
    assert forall|i: int, j: int| 0 <= i <= j < s.len() implies row[i] <= row[j] by {
        if i < j {
            assert(at_most()(row[i], row[j]));
        }
    }
    let n = s.len() as int;
    assert(0 <= n * p <= n * 99) by (nonlinear_arith)
        requires
            n > 0,
            0 <= p < 100,
    ;
}

// ---------------------------------------------------------------------------
// Counting

/// How many places before `n` are such as is asked for.
pub open spec fn how_many(n: nat, such: spec_fn(int) -> bool) -> nat
    decreases n,
{
    if n == 0 {
        0
    } else {
        how_many((n - 1) as nat, such) + if such(n - 1) {
            1nat
        } else {
            0nat
        }
    }
}

/// Places that are alike count alike; there are no more than places; and
/// there are some exactly where there is one.
pub proof fn lemma_how_many(n: nat, such: spec_fn(int) -> bool, alike: spec_fn(int) -> bool)
    requires
        forall|i: int| 0 <= i < n ==> #[trigger] such(i) == alike(i),
    ensures
        how_many(n, such) == how_many(n, alike),
        how_many(n, such) <= n,
        how_many(n, such) > 0 <==> exists|i: int| 0 <= i < n && #[trigger] such(i),
    decreases n,
{
    if n > 0 {
        lemma_how_many((n - 1) as nat, such, alike);
        assert(such(n - 1) == alike(n - 1));
    }
}

} // verus!

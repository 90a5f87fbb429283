//! Sums of sizes.

use vstd::prelude::*;

verus! {

/// The sum of the sizes.
pub open spec fn total(sizes: Seq<u64>) -> int
    decreases sizes.len(),
{
    if sizes.len() == 0 {
        0
    } else {
        total(sizes.drop_last()) + sizes.last()
    }
}

/// A sum is no more than as many times the largest size.
pub proof fn lemma_total_bound(sizes: Seq<u64>)
    ensures
        0 <= total(sizes) <= sizes.len() * u64::MAX,
    decreases sizes.len(),
{
    if sizes.len() > 0 {
        lemma_total_bound(sizes.drop_last());
        assert(sizes.len() * u64::MAX == (sizes.len() - 1) * u64::MAX + u64::MAX) by (nonlinear_arith);
    } else {
        assert(sizes.len() * u64::MAX == 0) by (nonlinear_arith)
            requires
                sizes.len() == 0,
        ;
    }
}

/// Adds up sizes; 128 bits hold any such sum.
pub fn sum(sizes: &[u64]) -> (n: u128)
    ensures
        n == total(sizes@),
{
    let mut n: u128 = 0;
    let mut i: usize = 0;
    let end: usize = sizes.len();
    while i < end
        invariant
            i <= end,
            end == sizes@.len(),
            n == total(sizes@.take(i as int)),
        decreases end - i,
    {
        proof {
            assert(sizes@.take(i + 1).drop_last() =~= sizes@.take(i as int));
            lemma_total_bound(sizes@.take(i + 1));
            assert((i + 1) * u64::MAX <= u64::MAX * u64::MAX) by (nonlinear_arith)
                requires
                    i + 1 <= u64::MAX,
            ;
        }
        n = n + sizes[i] as u128;
        i = i + 1;
    }
    assert(sizes@.take(sizes@.len() as int) =~= sizes@);
    n
}

} // verus!

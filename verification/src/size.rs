//! Size aggregation: the total of the size metadata of every entry under a
//! directory (directories' own metadata included). Walking the directory and
//! reading each entry's metadata is the caller's business.

use vstd::prelude::*;

verus! {

/// The sum of a sequence of sizes.
pub open spec fn sum_of(sizes: Seq<u64>) -> int
    decreases sizes.len(),
{
    if sizes.len() == 0 {
        0
    } else {
        sum_of(sizes.drop_last()) + sizes.last()
    }
}

proof fn lemma_sum_take_succ(sizes: Seq<u64>, i: int)
    requires
        0 <= i < sizes.len(),
    ensures
        sum_of(sizes.take(i + 1)) == sum_of(sizes.take(i)) + sizes[i],
{
    assert(sizes.take(i + 1).drop_last() =~= sizes.take(i));
}

proof fn lemma_sum_mono(sizes: Seq<u64>, i: int)
    requires
        0 <= i <= sizes.len(),
    ensures
        sum_of(sizes.take(i)) <= sum_of(sizes),
    decreases sizes.len() - i,
{
    if i < sizes.len() {
        lemma_sum_take_succ(sizes, i);
        lemma_sum_mono(sizes, i + 1);
    } else {
        assert(sizes.take(i) =~= sizes);
    }
}

/// Totals the size metadata of every entry under a directory.
///
/// Returns the exact sum of the given sizes, or `None` when that sum does not
/// fit in a `u64`.
pub fn total_dir_size(sizes: &Vec<u64>) -> (r: Option<u64>)
    ensures
        match r {
            Some(t) => t == sum_of(sizes@),
            None => sum_of(sizes@) > u64::MAX,
        },
{
    let mut total: u64 = 0;
    let mut i: usize = 0;
    while i < sizes.len()
        invariant
            i <= sizes@.len(),
            total == sum_of(sizes@.take(i as int)),
        decreases sizes@.len() - i,
    {
        let s = sizes[i];
        proof {
            lemma_sum_take_succ(sizes@, i as int);
        }
        if total <= u64::MAX - s {
            total = total + s;
        } else {
            proof {
                lemma_sum_mono(sizes@, i + 1 as int);
            }
            return None;
        }
        i = i + 1;
    }
    proof {
        assert(sizes@.take(sizes@.len() as int) =~= sizes@);
    }
    Some(total)
}

} // verus!

//! The sequential scan.

use vstd::prelude::*;
use crate::model::{lemma_wrap_add, lemma_wrap_in_range, prefix_sums, total, wrap};

verus! {

/// How many elements a scan from a slice of `n` elements into one of `m`
/// elements writes: as many as both hold.
pub open spec fn written(n: nat, m: nat) -> int {
    if n <= m {
        n as int
    } else {
        m as int
    }
}

/// Writes the running totals of `array_in` into the front of `array_out` and
/// returns the last of them (zero when nothing was written).
///
/// As many elements are written as both slices hold; the rest of `array_out`
/// keeps its contents.
pub fn prefix_sum2(array_in: &[i32], array_out: &mut [i32]) -> (acc: i32)
    ensures
        final(array_out)@.len() == old(array_out)@.len(),
        final(array_out)@ == prefix_sums(
            array_in@.take(written(array_in@.len(), old(array_out)@.len())),
        ) + old(array_out)@.skip(written(array_in@.len(), old(array_out)@.len())),
        acc == wrap(total(array_in@.take(written(array_in@.len(), old(array_out)@.len())))),
{
    let n: usize = if array_in.len() <= array_out.len() {
        array_in.len()
    } else {
        array_out.len()
    };
    let mut acc: i32 = 0;
    let mut i: usize = 0;
    while i < n
        invariant
            i <= n,
            n <= array_in.len(),
            n <= array_out.len(),
            array_out@.len() == old(array_out)@.len(),
            acc == wrap(total(array_in@.take(i as int))),
            forall|j: int| 0 <= j < i ==> array_out@[j] == wrap(total(array_in@.take(j + 1))),
            forall|j: int| i <= j < array_out@.len() ==> array_out@[j] == old(array_out)@[j],
        decreases n - i,
    {
        proof {
            assert(array_in@.take(i + 1).drop_last() =~= array_in@.take(i as int));
            lemma_wrap_add(total(array_in@.take(i as int)), array_in@[i as int] as int);
            lemma_wrap_in_range(array_in@[i as int] as int);
        }
        acc = acc.wrapping_add(array_in[i]);
        array_out[i] = acc;
        i += 1;
    }
    proof {
        let m = written(array_in@.len(), old(array_out)@.len());
        assert(m == n);
        let front = array_in@.take(m);
        assert forall|j: int| 0 <= j < m implies array_out@[j] == prefix_sums(front)[j] by {
            assert(front.take(j + 1) =~= array_in@.take(j + 1));
        }
        assert(array_out@ =~= prefix_sums(front) + old(array_out)@.skip(m));
    }
    acc
}

/// The running totals of `array`, as a new vector.
pub fn prefix_sum(array: &[i32]) -> (sums: Vec<i32>)
    ensures
        sums@ == prefix_sums(array@),
{
    let mut sums: Vec<i32> = Vec::new();
    let mut i: usize = 0;
    while i < array.len()
        invariant
            i <= array@.len(),
            sums@.len() == i,
            forall|j: int| 0 <= j < i ==> sums@[j] == wrap(total(array@.take(j + 1))),
        decreases array@.len() - i,
    {
        proof {
            assert(array@.take(i + 1).drop_last() =~= array@.take(i as int));
            lemma_wrap_in_range(array@[i as int] as int);
            if i == 0 {
                assert(array@.take(0) =~= Seq::<i32>::empty());
            } else {
                lemma_wrap_add(array@[i as int] as int, total(array@.take(i as int)));
            }
        }
        if i == 0 {
            sums.push(array[i]);
        } else {
            assert(sums@[i - 1] == wrap(total(array@.take(i as int))));
            sums.push(array[i].wrapping_add(sums[i - 1]));
        }
        i += 1;
    }
    assert(sums@ =~= prefix_sums(array@));
    sums
}

} // verus!

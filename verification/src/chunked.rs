//! The model of the chunked scan: scan every chunk on its own, take each
//! chunk's last running total, scan those, and add to every chunk but the
//! first the sum of all chunks before it.

use vstd::prelude::*;
use vstd::wrapping::i32_specs::wrapping_add;
use crate::chunks::{chunk, chunk_count, chunk_end, lemma_chunk_bounds, lemma_chunk_of_index};
use crate::model::{lemma_total_split, lemma_wrap_add, prefix_sums, total, wrap};

verus! {

/// The running totals of each chunk of `s`, each chunk starting from zero,
/// laid out as `s` is.
pub open spec fn local_scans(s: Seq<i32>, c: int) -> Seq<i32> {
    Seq::new(s.len(), |j: int| prefix_sums(chunk(s, c, j / c))[j % c])
}

/// The last element of each chunk of `s`.
pub open spec fn chunk_lasts(s: Seq<i32>, c: int) -> Seq<i32> {
    Seq::new(
        chunk_count(s.len() as int, c) as nat,
        |k: int| s[chunk_end(s.len() as int, c, k) - 1],
    )
}

/// `s` with `d` added to every element, wrapping.
pub open spec fn shifted(s: Seq<i32>, d: i32) -> Seq<i32> {
    Seq::new(s.len(), |i: int| wrapping_add(s[i], d))
}

/// `s` with `offsets[k - 1]` added to every element of chunk `k`, for each
/// chunk but the first, which is kept.
pub open spec fn with_offsets(s: Seq<i32>, c: int, offsets: Seq<i32>) -> Seq<i32> {
    Seq::new(
        s.len(),
        |j: int|
            if j < c {
                s[j]
            } else {
                wrapping_add(s[j], offsets[j / c - 1])
            },
    )
}

/// What the chunked scan computes from `s` with chunks of `c` elements.
pub open spec fn chunked_scan(s: Seq<i32>, c: int) -> Seq<i32> {
    let local = local_scans(s, c);
    with_offsets(local, c, prefix_sums(chunk_lasts(local, c)))
}

/// Element `j` of the local scans is the wrapped sum from the start of its
/// chunk up to and including `j`.
pub proof fn lemma_local_scan_at(s: Seq<i32>, c: int, j: int)
    requires
        c > 0,
        0 <= j < s.len(),
    ensures
        local_scans(s, c)[j] == wrap(total(s.subrange((j / c) * c, j + 1))),
{
    let n = s.len() as int;
    let k = j / c;
    lemma_chunk_of_index(n, c, j);
    lemma_chunk_bounds(n, c, k);
    assert(chunk(s, c, k).take(j % c + 1) =~= s.subrange(k * c, j + 1));
}

/// The running totals of the chunk totals are the wrapped sums of `s` up to
/// each chunk's end.
pub proof fn lemma_offsets(s: Seq<i32>, c: int, k: int)
    requires
        c > 0,
        0 <= k < chunk_count(s.len() as int, c),
    ensures
        prefix_sums(chunk_lasts(local_scans(s, c), c))[k] == wrap(
            total(s.take(chunk_end(s.len() as int, c, k))),
        ),
    decreases k,
{
    let n = s.len() as int;
    let local = local_scans(s, c);
    let lasts = chunk_lasts(local, c);
    let e = chunk_end(n, c, k);
    lemma_chunk_bounds(n, c, k);
    lemma_local_scan_at(s, c, e - 1);
    assert(lasts[k] == wrap(total(s.subrange(k * c, e))));
    lemma_total_split(s, k * c, e);
    assert(lasts.take(k + 1).drop_last() =~= lasts.take(k));
    if k == 0 {
        assert(lasts.take(0) =~= Seq::<i32>::empty());
        assert(s.take(0) =~= Seq::<i32>::empty());
        lemma_wrap_add(0, total(s.subrange(0, e)));
    } else {
        lemma_offsets(s, c, k - 1);
        lemma_chunk_bounds(n, c, k - 1);
        assert(chunk_end(n, c, k - 1) == k * c);
        lemma_wrap_add(total(lasts.take(k)), total(s.subrange(k * c, e)));
        lemma_wrap_add(total(s.take(k * c)), total(s.subrange(k * c, e)));
        lemma_wrap_add(total(lasts.take(k)), lasts[k] as int);
    }
}

/// Chunk boundaries do not show in the result: with any chunk size, the
/// chunked scan gives the running totals of the whole sequence.
pub proof fn lemma_chunked_scan(s: Seq<i32>, c: int)
    requires
        c > 0,
    ensures
        chunked_scan(s, c) == prefix_sums(s),
{
    let n = s.len() as int;
    assert forall|j: int| 0 <= j < n implies chunked_scan(s, c)[j] == prefix_sums(s)[j] by {
        let k = j / c;
        lemma_chunk_of_index(n, c, j);
        lemma_local_scan_at(s, c, j);
        lemma_total_split(s, k * c, j + 1);
        if j < c {
            assert(k == 0 && k * c == 0) by (nonlinear_arith)
                requires
                    c > 0,
                    0 <= j < c,
                    k == j / c,
            ;
            assert(s.take(0) =~= Seq::<i32>::empty());
        } else {
            assert(k >= 1) by (nonlinear_arith)
                requires
                    c > 0,
                    j >= c,
                    k == j / c,
            ;
            lemma_offsets(s, c, k - 1);
            lemma_chunk_bounds(n, c, k - 1);
            assert(chunk_end(n, c, k - 1) == k * c);
            lemma_wrap_add(total(s.subrange(k * c, j + 1)), total(s.take(k * c)));
        }
    }
    assert(chunked_scan(s, c) =~= prefix_sums(s));
}

} // verus!

//! The chunked scan on a pool of worker threads.

use vstd::prelude::*;
use vstd::wrapping::i32_specs::wrapping_add;
use rayon::iter::{IndexedParallelIterator, ParallelIterator};
use rayon::slice::{ParallelSlice, ParallelSliceMut};
use crate::chunked::{
    chunk_lasts, chunked_scan, lemma_chunked_scan, local_scans, shifted, with_offsets,
};
use crate::chunks::{chunk, chunk_count, chunk_end, lemma_chunk_bounds, lemma_chunk_of_index};
use crate::model::prefix_sums;
use crate::sequential::{prefix_sum, prefix_sum2};

verus! {

/// Whether a scan of `n` elements with `t` threads asked for is left to the
/// sequential scan: fewer than two threads, fewer than two elements, or more
/// than twice as many threads as elements.
pub open spec fn falls_back(n: int, t: int) -> bool {
    t < 2 || n < 2 || t > 2 * n
}

/// Whether a scan of `n` elements with `t` threads asked for is cut into
/// chunks: it does not fall back, and a chunk holds at least one element.
pub open spec fn uses_chunks(n: int, t: int) -> bool {
    !falls_back(n, t) && n / t > 0
}

/// What `prefix_sum_par` computes from `s` with `t` threads asked for.
pub open spec fn parallel_scan(s: Seq<i32>, t: int) -> Seq<i32> {
    if uses_chunks(s.len() as int, t) {
        chunked_scan(s, s.len() as int / t)
    } else {
        prefix_sums(s)
    }
}

/// The chunk size for `len` elements and `max_num_threads` threads, or `None`
/// where the scan is to run sequentially.
pub fn chunk_size_for(len: usize, max_num_threads: usize) -> (size: Option<usize>)
    ensures
        size == if uses_chunks(len as int, max_num_threads as int) {
            Some((len as int / max_num_threads as int) as usize)
        } else {
            None
        },
{
    // `max_num_threads - max_num_threads / 2` is half the thread count, rounded
    // up: it exceeds `len` exactly when the thread count exceeds twice `len`.
    if max_num_threads < 2 || len < 2 || max_num_threads - max_num_threads / 2 > len {
        return None;
    }
    let chunk_size: usize = len / max_num_threads;
    if chunk_size == 0 {
        None
    } else {
        Some(chunk_size)
    }
}

/// Scans every chunk of `array_in` into the matching chunk of `array_out`, the
/// chunks spread over the worker threads.
///
/// Trusted: rayon's `par_chunks` and `par_chunks_mut` cut a slice into
/// consecutive chunks of `chunk_size` elements, the last one shorter where the
/// length is no multiple; `zip` pairs the chunks of both slices in order; and
/// `for_each` runs the closure once on every pair and returns when all are
/// done. Both panic on a chunk size of zero.
#[verifier::external_body]
fn scan_chunks(array_in: &[i32], array_out: &mut [i32], chunk_size: usize)
    requires
        chunk_size > 0,
        array_in@.len() == old(array_out)@.len(),
    ensures
        final(array_out)@.len() == old(array_out)@.len(),
        forall|k: int|
            0 <= k < chunk_count(array_in@.len() as int, chunk_size as int) ==> #[trigger] chunk(
                final(array_out)@,
                chunk_size as int,
                k,
            ) == prefix_sums(chunk(array_in@, chunk_size as int, k)),
{
    array_in.par_chunks(chunk_size).zip(array_out.par_chunks_mut(chunk_size)).for_each(
        |(chunk_a, chunk_b)| {
            prefix_sum2(chunk_a, chunk_b);
        },
    );
}

/// Adds `offsets[i]` to every element of `chunk`, wrapping.
fn shift_chunk(chunk: &mut [i32], offsets: &[i32], i: usize)
    requires
        i < offsets@.len(),
    ensures
        final(chunk)@ == shifted(old(chunk)@, offsets@[i as int]),
{
    let offset: i32 = offsets[i];
    let n: usize = chunk.len();
    let mut j: usize = 0;
    while j < n
        invariant
            j <= n,
            n == chunk@.len(),
            chunk@.len() == old(chunk)@.len(),
            forall|l: int| 0 <= l < j ==> chunk@[l] == wrapping_add(old(chunk)@[l], offset),
            forall|l: int| j <= l < n ==> chunk@[l] == old(chunk)@[l],
        decreases n - j,
    {
        chunk[j] = chunk[j].wrapping_add(offset);
        j += 1;
    }
    assert(chunk@ =~= shifted(old(chunk)@, offset));
}

/// Adds to every chunk of `array_out` but the first the offset that stands
/// one place before the chunk's number in `offsets`, the chunks spread over
/// the worker threads.
///
/// Trusted: rayon's `par_chunks_mut` cuts the slice into consecutive chunks of
/// `chunk_size` elements, the last one shorter where the length is no
/// multiple; `skip(1)` leaves out the first chunk and touches none of it;
/// `enumerate` numbers the chunks that remain from zero, in order; and
/// `for_each` runs the closure once on every numbered chunk and returns when
/// all are done. `par_chunks_mut` panics on a chunk size of zero.
#[verifier::external_body]
fn shift_chunks(array_out: &mut [i32], chunk_size: usize, offsets: &[i32])
    requires
        chunk_size > 0,
        chunk_count(old(array_out)@.len() as int, chunk_size as int) <= offsets@.len() + 1,
    ensures
        final(array_out)@.len() == old(array_out)@.len(),
        chunk(final(array_out)@, chunk_size as int, 0) == chunk(
            old(array_out)@,
            chunk_size as int,
            0,
        ),
        forall|k: int|
            1 <= k < chunk_count(old(array_out)@.len() as int, chunk_size as int)
                ==> #[trigger] chunk(final(array_out)@, chunk_size as int, k) == shifted(
                chunk(old(array_out)@, chunk_size as int, k),
                offsets@[k - 1],
            ),
{
    array_out.par_chunks_mut(chunk_size).skip(1).enumerate().for_each(
        |(i, chunk)| shift_chunk(chunk, offsets, i),
    );
}

/// The last element of every chunk of `array`, the short last chunk included.
pub fn partial_sums(array: &[i32], chunk_size: usize) -> (sums: Vec<i32>)
    requires
        chunk_size > 0,
    ensures
        sums@ == chunk_lasts(array@, chunk_size as int),
{
    let n: usize = array.len();
    let mut sums: Vec<i32> = Vec::new();
    let mut start: usize = 0;
    while start < n
        invariant
            chunk_size > 0,
            n == array@.len(),
            start <= n,
            sums@.len() <= chunk_count(n as int, chunk_size as int),
            start < n ==> start == sums@.len() * chunk_size,
            start == n ==> sums@.len() == chunk_count(n as int, chunk_size as int),
            forall|k: int|
                0 <= k < sums@.len() ==> sums@[k] == array@[chunk_end(
                    n as int,
                    chunk_size as int,
                    k,
                ) - 1],
        decreases n - start,
    {
        let ghost k = sums@.len() as int;
        proof {
            lemma_chunk_of_index(n as int, chunk_size as int, start as int);
            assert(start as int / chunk_size as int == k) by (nonlinear_arith)
                requires
                    chunk_size > 0,
                    start == k * chunk_size,
            ;
            lemma_chunk_bounds(n as int, chunk_size as int, k);
            assert((k + 1) * chunk_size == start + chunk_size) by (nonlinear_arith)
                requires
                    start == k * chunk_size,
            ;
        }
        let end: usize = if n - start > chunk_size {
            start + chunk_size
        } else {
            n
        };
        sums.push(array[end - 1]);
        start = end;
    }
    proof {
        if n == 0 {
            assert(chunk_count(0, chunk_size as int) == 0) by (nonlinear_arith)
                requires
                    chunk_size > 0,
                    chunk_count(0, chunk_size as int) == if 0int % (chunk_size as int) == 0 {
                        0int / (chunk_size as int)
                    } else {
                        0int / (chunk_size as int) + 1
                    },
            ;
        }
        assert(sums@ =~= chunk_lasts(array@, chunk_size as int));
    }
    sums
}

/// A sequence whose chunks are the scans of the chunks of `s` is the local
/// scans of `s`.
proof fn lemma_local_scans_by_chunk(s: Seq<i32>, out: Seq<i32>, c: int)
    requires
        c > 0,
        out.len() == s.len(),
        forall|k: int|
            0 <= k < chunk_count(s.len() as int, c) ==> #[trigger] chunk(out, c, k) == prefix_sums(
                chunk(s, c, k),
            ),
    ensures
        out == local_scans(s, c),
{
    let n = s.len() as int;
    assert forall|j: int| 0 <= j < n implies out[j] == local_scans(s, c)[j] by {
        let k = j / c;
        lemma_chunk_of_index(n, c, j);
        assert(chunk(out, c, k)[j - k * c] == out[j]);
    }
    assert(out =~= local_scans(s, c));
}

/// A sequence whose first chunk is that of `before` and whose other chunks
/// are those of `before` shifted by the offset before their number is
/// `before` with those offsets.
proof fn lemma_with_offsets_by_chunk(before: Seq<i32>, after: Seq<i32>, c: int, offsets: Seq<i32>)
    requires
        c > 0,
        after.len() == before.len(),
        chunk(after, c, 0) == chunk(before, c, 0),
        forall|k: int|
            1 <= k < chunk_count(before.len() as int, c) ==> #[trigger] chunk(after, c, k)
                == shifted(chunk(before, c, k), offsets[k - 1]),
    ensures
        after == with_offsets(before, c, offsets),
{
    let n = before.len() as int;
    assert forall|j: int| 0 <= j < n implies after[j] == with_offsets(before, c, offsets)[j] by {
        let k = j / c;
        lemma_chunk_of_index(n, c, j);
        assert(chunk(after, c, k)[j - k * c] == after[j]);
        assert(chunk(before, c, k)[j - k * c] == before[j]);
        assert(j < c <==> k == 0) by (nonlinear_arith)
            requires
                c > 0,
                0 <= j,
                k == j / c,
        ;
    }
    assert(after =~= with_offsets(before, c, offsets));
}

/// Writes the running totals of `array_in` into `array_out`, as `prefix_sum2`
/// does, with the work cut into chunks of `len / max_num_threads` elements
/// that the worker threads scan side by side.
///
/// Runs sequentially where `falls_back` says so, and where a chunk would be
/// empty.
pub fn prefix_sum_par(array_in: &[i32], array_out: &mut [i32], max_num_threads: usize)
    requires
        array_in@.len() == old(array_out)@.len(),
    ensures
        final(array_out)@ == parallel_scan(array_in@, max_num_threads as int),
        final(array_out)@ == prefix_sums(array_in@),
{
    let chunk_size: usize = match chunk_size_for(array_in.len(), max_num_threads) {
        Some(size) => size,
        None => {
            prefix_sum2(array_in, array_out);
            assert(array_in@.take(array_in@.len() as int) =~= array_in@);
            assert(array_out@ =~= prefix_sums(array_in@));
            return ;
        },
    };
    scan_chunks(array_in, array_out, chunk_size);
    let ghost local = array_out@;
    let partial_sums = partial_sums(array_out, chunk_size);
    let prefix_partial_sums = prefix_sum(&partial_sums);
    shift_chunks(array_out, chunk_size, &prefix_partial_sums);
    proof {
        lemma_local_scans_by_chunk(array_in@, local, chunk_size as int);
        lemma_with_offsets_by_chunk(local, array_out@, chunk_size as int, prefix_partial_sums@);
        lemma_chunked_scan(array_in@, chunk_size as int);
    }
}

} // verus!

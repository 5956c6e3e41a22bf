//! What holds of the scans on every input.

use vstd::prelude::*;
use vstd::wrapping::i32_specs::wrapping_add;
use crate::chunked::lemma_chunked_scan;
use crate::chunks::chunk_count;
use crate::model::{lemma_wrap_add, lemma_wrap_in_range, prefix_sums, total};
use crate::parallel::{parallel_scan, uses_chunks};

verus! {

/// The parallel scan gives what the sequential scan gives, whatever number of
/// threads is asked for.
pub proof fn lemma_parallel_is_sequential(s: Seq<i32>, t: int)
    ensures
        parallel_scan(s, t) == prefix_sums(s),
{
    if uses_chunks(s.len() as int, t) {
        lemma_chunked_scan(s, s.len() as int / t);
    }
}

/// Two parallel scans of one input give the same output, whatever numbers of
/// threads they are run with.
pub proof fn lemma_thread_count_is_immaterial(s: Seq<i32>, t1: int, t2: int)
    ensures
        parallel_scan(s, t1) == parallel_scan(s, t2),
{
    lemma_parallel_is_sequential(s, t1);
    lemma_parallel_is_sequential(s, t2);
}

/// A scan that is cut into chunks for `t` threads is cut into exactly `t`
/// chunks where `t` divides the length, and into more than `t` but fewer than
/// `2 * t` chunks where it does not.
pub proof fn lemma_chunks_per_thread(n: int, t: int)
    requires
        uses_chunks(n, t),
    ensures
        n % t == 0 ==> chunk_count(n, n / t) == t,
        n % t != 0 ==> t < chunk_count(n, n / t) < 2 * t,
{
    let c = n / t;
    let r = n % t;
    let count = chunk_count(n, c);
    assert(n == c * t + r && 0 <= r < t) by (nonlinear_arith)
        requires
            t >= 2,
            c == n / t,
            r == n % t,
    ;
    assert(n == (n / c) * c + n % c && 0 <= n % c < c) by (nonlinear_arith)
        requires
            c >= 1,
    ;
    assert((count - 1) * c < n <= count * c) by (nonlinear_arith)
        requires
            c >= 1,
            n == (n / c) * c + n % c,
            0 <= n % c < c,
            count == if n % c == 0 { n / c } else { n / c + 1 },
    ;
    if r == 0 {
        assert(count == t) by (nonlinear_arith)
            requires
                c >= 1,
                n == c * t,
                (count - 1) * c < n <= count * c,
        ;
    } else {
        assert(t < count < 2 * t) by (nonlinear_arith)
            requires
                c >= 1,
                t >= 2,
                n == c * t + r,
                0 < r < t,
                (count - 1) * c < n <= count * c,
        ;
    }
}

/// Both scans of the empty sequence are empty.
pub proof fn lemma_scan_of_empty(t: int)
    ensures
        prefix_sums(Seq::<i32>::empty()) == Seq::<i32>::empty(),
        parallel_scan(Seq::<i32>::empty(), t) == Seq::<i32>::empty(),
{
    lemma_parallel_is_sequential(Seq::<i32>::empty(), t);
    assert(prefix_sums(Seq::<i32>::empty()) =~= Seq::<i32>::empty());
}

/// The first running total is the first element, so both scans of a sequence
/// of one element give that sequence back.
pub proof fn lemma_first_total(s: Seq<i32>, t: int)
    requires
        s.len() > 0,
    ensures
        prefix_sums(s)[0] == s[0],
        parallel_scan(s, t)[0] == s[0],
        s.len() == 1 ==> prefix_sums(s) == s && parallel_scan(s, t) == s,
{
    lemma_parallel_is_sequential(s, t);
    assert(s.take(1).drop_last() =~= Seq::<i32>::empty());
    assert(total(s.take(1)) == total(Seq::<i32>::empty()) + s[0]);
    lemma_wrap_in_range(s[0] as int);
    if s.len() == 1 {
        assert(prefix_sums(s) =~= s);
    }
}

/// Each running total is the one before it plus the element at its place,
/// wrapping. The difference of the two is exactly that element if and only if
/// that sum fits an `i32`.
pub proof fn lemma_step(s: Seq<i32>, i: int)
    requires
        0 < i < s.len(),
    ensures
        prefix_sums(s)[i] == wrapping_add(prefix_sums(s)[i - 1], s[i]),
        prefix_sums(s)[i] - prefix_sums(s)[i - 1] == s[i] <==> i32::MIN <= prefix_sums(s)[i - 1]
            + s[i] <= i32::MAX,
{
    assert(s.take(i + 1).drop_last() =~= s.take(i));
    lemma_wrap_add(total(s.take(i)), s[i] as int);
    lemma_wrap_in_range(s[i] as int);
}

/// Where the exact sum of the first `i + 1` elements fits an `i32`, running
/// total `i` is that sum.
pub proof fn lemma_exact_total(s: Seq<i32>, i: int)
    requires
        0 <= i < s.len(),
        i32::MIN <= total(s.take(i + 1)) <= i32::MAX,
    ensures
        prefix_sums(s)[i] == total(s.take(i + 1)),
{
    lemma_wrap_in_range(total(s.take(i + 1)));
}

} // verus!

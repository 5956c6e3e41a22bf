//! How a sequence is cut into chunks of a fixed size, the last one possibly
//! shorter.

use vstd::prelude::*;

verus! {

/// The number of chunks of `c` elements that `n` elements fall into. When `c`
/// does not divide `n`, the elements left over form one more, shorter chunk.
pub open spec fn chunk_count(n: int, c: int) -> int {
    if n % c == 0 {
        n / c
    } else {
        n / c + 1
    }
}

/// The index one past the last element of chunk `k`.
pub open spec fn chunk_end(n: int, c: int, k: int) -> int {
    if (k + 1) * c <= n {
        (k + 1) * c
    } else {
        n
    }
}

/// Chunk `k` of `s`, cut with chunk size `c`.
pub open spec fn chunk(s: Seq<i32>, c: int, k: int) -> Seq<i32> {
    s.subrange(k * c, chunk_end(s.len() as int, c, k))
}

/// Every index lies in exactly the chunk that its quotient by `c` names, at
/// the position that its remainder names.
pub proof fn lemma_chunk_of_index(n: int, c: int, j: int)
    requires
        c > 0,
        0 <= j < n,
    ensures
        0 <= j / c < chunk_count(n, c),
        (j / c) * c <= j < chunk_end(n, c, j / c),
        j % c == j - (j / c) * c,
        0 <= j % c < c,
{
    assert(0 <= j / c && (j / c) * c <= j && j == (j / c) * c + j % c && 0 <= j % c < c
        && j < (j / c + 1) * c) by (nonlinear_arith)
        requires
            c > 0,
            0 <= j,
    ;
    assert(j / c < chunk_count(n, c)) by (nonlinear_arith)
        requires
            c > 0,
            0 <= j < n,
            (j / c) * c <= j,
            chunk_count(n, c) == if n % c == 0 { n / c } else { n / c + 1 },
    ;
}

/// Each chunk is a non-empty range of at most `c` indices, and its last index
/// belongs to it. All chunks but the last are full.
pub proof fn lemma_chunk_bounds(n: int, c: int, k: int)
    requires
        c > 0,
        0 <= k < chunk_count(n, c),
    ensures
        0 <= k * c < chunk_end(n, c, k) <= n,
        chunk_end(n, c, k) - k * c <= c,
        (chunk_end(n, c, k) - 1) / c == k,
        k + 1 < chunk_count(n, c) ==> chunk_end(n, c, k) == (k + 1) * c < n,
        k + 1 == chunk_count(n, c) ==> chunk_end(n, c, k) == n,
{
    assert(0 <= k * c < n && (k + 1) * c == k * c + c && (k + 1 < chunk_count(n, c) ==> (k + 1)
        * c < n) && (k + 1 == chunk_count(n, c) ==> (k + 1) * c >= n)) by (nonlinear_arith)
        requires
            c > 0,
            0 <= k < chunk_count(n, c),
            chunk_count(n, c) == if n % c == 0 { n / c } else { n / c + 1 },
    ;
    let e = chunk_end(n, c, k);
    assert((e - 1) / c == k) by (nonlinear_arith)
        requires
            c > 0,
            k * c <= e - 1 < k * c + c,
    ;
}

} // verus!

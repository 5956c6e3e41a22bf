//! The mathematical model: exact sums over `int`, reduction into `i32`, and
//! the sequence of running totals.

use vstd::prelude::*;

verus! {

/// The exact sum of the elements of `s`, taken in the integers.
pub open spec fn total(s: Seq<i32>) -> int
    decreases s.len(),
{
    if s.len() == 0 {
        0
    } else {
        total(s.drop_last()) + s.last()
    }
}

/// The one `i32` that differs from `x` by a multiple of 2^32.
pub open spec fn wrap(x: int) -> i32 {
    ((x + 0x8000_0000) % 0x1_0000_0000 - 0x8000_0000) as i32
}

/// The running totals of `s`: element `i` is the wrapped sum of `s[0..=i]`.
pub open spec fn prefix_sums(s: Seq<i32>) -> Seq<i32> {
    Seq::new(s.len(), |i: int| wrap(total(s.take(i + 1))))
}

/// A value already in range is left alone by `wrap`.
pub proof fn lemma_wrap_in_range(x: int)
    requires
        i32::MIN <= x <= i32::MAX,
    ensures
        wrap(x) == x,
{
}

/// Wrapping addition of two `i32` is the wrapped exact sum, and wrapping
/// either operand first changes nothing.
pub proof fn lemma_wrap_add(a: int, b: int)
    ensures
        vstd::wrapping::i32_specs::wrapping_add(wrap(a), wrap(b)) == wrap(a + b),
        wrap(wrap(a) + b) == wrap(a + b),
        wrap(a + wrap(b)) == wrap(a + b),
{
}

/// The sum up to `b` is the sum up to `a` plus the sum of the range between.
pub proof fn lemma_total_split(s: Seq<i32>, a: int, b: int)
    requires
        0 <= a <= b <= s.len(),
    ensures
        total(s.take(b)) == total(s.take(a)) + total(s.subrange(a, b)),
    decreases b - a,
{
    if a == b {
        assert(s.subrange(a, b) =~= Seq::<i32>::empty());
    } else {
        lemma_total_split(s, a, b - 1);
        assert(s.take(b).drop_last() =~= s.take(b - 1));
        assert(s.subrange(a, b).drop_last() =~= s.subrange(a, b - 1));
    }
}

} // verus!

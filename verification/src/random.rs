//! Random input for trying the scans out.

use vstd::prelude::*;
use rand::rngs::ThreadRng;
use rand::Rng;

verus! {

/// rand's `ThreadRng`, the handle to a thread's own generator. Nothing is
/// known of what it holds.
#[verifier::external_type_specification]
#[verifier::external_body]
pub struct ExThreadRng(rand::rngs::ThreadRng);

/// One value drawn from `low..high`.
///
/// Trusted: rand's `Rng::gen_range`, given a half-open range of integers,
/// returns a value of that range, and panics where the range is empty. Which
/// value comes is left open.
#[verifier::external_body]
fn sample(rng: &mut ThreadRng, low: i32, high: i32) -> (value: i32)
    requires
        low < high,
    ensures
        low <= value < high,
{
    rng.gen_range(low..high)
}

/// Whether every element of `s` is one of the digits 0 to 9.
pub open spec fn all_digits(s: Seq<i32>) -> bool {
    forall|i: int| 0 <= i < s.len() ==> 0 <= #[trigger] s[i] < 10
}

/// A vector of `length` digits, each drawn from `rng`.
pub fn make_random_vector(length: usize, rng: &mut ThreadRng) -> (v: Vec<i32>)
    ensures
        v@.len() == length,
        all_digits(v@),
{
    let mut v: Vec<i32> = Vec::new();
    let mut i: usize = 0;
    while i < length
        invariant
            i <= length,
            v@.len() == i,
            all_digits(v@),
        decreases length - i,
    {
        let digit: i32 = sample(rng, 0, 10);
        v.push(digit);
        i += 1;
    }
    v
}

} // verus!

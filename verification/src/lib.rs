//! Prefix sums (running totals) of `i32` sequences, computed sequentially or
//! chunk by chunk on a pool of worker threads.
//!
//! All sums wrap around on overflow, so the chunked computation agrees with
//! the sequential one on every input.

pub mod chunked;
pub mod chunks;
pub mod laws;
pub mod model;
pub mod parallel;
pub mod random;
pub mod sequential;

pub use parallel::{chunk_size_for, partial_sums, prefix_sum_par};
pub use random::make_random_vector;
pub use sequential::{prefix_sum, prefix_sum2};

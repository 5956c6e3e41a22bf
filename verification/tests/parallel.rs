use prefix_scan::{chunk_size_for, partial_sums, prefix_sum, prefix_sum2, prefix_sum_par};
use rand::Rng;

fn scan_with(input: &[i32], threads: usize) -> Vec<i32> {
    let mut output = vec![0; input.len()];
    prefix_sum_par(input, &mut output, threads);
    output
}

#[test]
fn eight_elements_on_four_threads() {
    let output = scan_with(&[1, 2, 3, 4, 5, 6, 7, 8], 4);
    assert_eq!(output, vec![1, 3, 6, 10, 15, 21, 28, 36]);
}

#[test]
fn eight_elements_on_any_number_of_threads() {
    for threads in 0..40 {
        let output = scan_with(&[1, 2, 3, 4, 5, 6, 7, 8], threads);
        assert_eq!(output, vec![1, 3, 6, 10, 15, 21, 28, 36]);
    }
}

#[test]
fn one_element_on_eight_threads() {
    assert_eq!(chunk_size_for(1, 8), None);
    assert_eq!(scan_with(&[5], 8), vec![5]);
}

#[test]
fn nothing_on_any_number_of_threads() {
    for threads in [0, 1, 2, 3, 8, 64, usize::MAX] {
        assert_eq!(scan_with(&[], threads), Vec::<i32>::new());
    }
}

#[test]
fn one_thread_runs_sequentially() {
    assert_eq!(chunk_size_for(6, 1), None);
    assert_eq!(scan_with(&[2, 2, 2, 2, 2, 2], 1), vec![2, 4, 6, 8, 10, 12]);
}

#[test]
fn as_many_threads_as_elements() {
    assert_eq!(chunk_size_for(5, 5), Some(1));
    assert_eq!(scan_with(&[1, 10, 100, 1000, 10000], 5), vec![1, 11, 111, 1111, 11111]);
}

#[test]
fn more_threads_than_elements() {
    let input = [3, 1, 4, 1, 5];
    let expected = vec![3, 4, 8, 9, 14];
    for threads in [6, 7, 9, 10, 11, 12, 1000] {
        assert_eq!(scan_with(&input, threads), expected);
    }
}

#[test]
fn short_last_chunk() {
    // Ten elements on three threads: chunks of three, and one element over.
    assert_eq!(chunk_size_for(10, 3), Some(3));
    assert_eq!(
        scan_with(&[1, 2, 3, 4, 5, 6, 7, 8, 9, 10], 3),
        vec![1, 3, 6, 10, 15, 21, 28, 36, 45, 55]
    );
    // Seven elements on two threads: chunks of three, and one element over.
    assert_eq!(chunk_size_for(7, 2), Some(3));
    assert_eq!(scan_with(&[5, -5, 5, -5, 5, -5, 5], 2), vec![5, 0, 5, 0, 5, 0, 5]);
}

#[test]
fn parallel_scan_overwrites_what_the_output_held() {
    let mut output = vec![77; 9];
    prefix_sum_par(&[1, 1, 1, 1, 1, 1, 1, 1, 1], &mut output, 3);
    assert_eq!(output, vec![1, 2, 3, 4, 5, 6, 7, 8, 9]);
}

#[test]
fn parallel_scan_wraps_as_the_sequential_scan_does() {
    let input = [i32::MAX, 1, i32::MAX, i32::MAX, i32::MIN, -1, 40, i32::MIN, 2];
    let expected = prefix_sum(&input);
    assert_eq!(expected[1], i32::MIN);
    for threads in 0..20 {
        assert_eq!(scan_with(&input, threads), expected);
    }
}

#[test]
fn two_thread_counts_give_the_same_output() {
    let input: Vec<i32> = (0..1000).map(|i| (i * 37) % 101 - 50).collect();
    let first = scan_with(&input, 3);
    for threads in [1, 2, 4, 7, 16, 64, 999, 1000, 1001, 2000, 2001] {
        assert_eq!(scan_with(&input, threads), first);
    }
}

#[test]
fn parallel_totals_step_by_the_elements() {
    let input: Vec<i32> = (0..257).map(|i| i * i - 300).collect();
    let output = scan_with(&input, 8);
    assert_eq!(output[0], input[0]);
    for i in 1..input.len() {
        assert_eq!(output[i] - output[i - 1], input[i]);
    }
}

#[test]
fn random_inputs_scan_alike_in_parallel_and_in_sequence() {
    let mut rng = rand::thread_rng();
    for round in 0..200 {
        let length: usize = if round < 20 { round } else { rng.gen_range(0..=10_000) };
        let threads: usize = rng.gen_range(1..=64);
        let input: Vec<i32> = (0..length).map(|_| rng.gen_range(i32::MIN..=i32::MAX)).collect();
        let mut sequential = vec![0; length];
        prefix_sum2(&input, &mut sequential);
        let mut parallel = vec![0; length];
        prefix_sum_par(&input, &mut parallel, threads);
        assert_eq!(parallel, sequential);
    }
}

#[test]
fn random_digits_scan_alike_in_parallel_and_in_sequence() {
    let mut rng = rand::thread_rng();
    for _ in 0..100 {
        let length: usize = rng.gen_range(0..=10_000);
        let threads: usize = rng.gen_range(1..=64);
        let input: Vec<i32> = (0..length).map(|_| rng.gen_range(0..10)).collect();
        assert_eq!(scan_with(&input, threads), prefix_sum(&input));
    }
}

#[test]
fn chunk_size_is_length_over_threads() {
    assert_eq!(chunk_size_for(8, 4), Some(2));
    assert_eq!(chunk_size_for(8, 2), Some(4));
    assert_eq!(chunk_size_for(8, 3), Some(2));
    assert_eq!(chunk_size_for(8, 8), Some(1));
    assert_eq!(chunk_size_for(1_000_000, 12), Some(83_333));
    assert_eq!(chunk_size_for(2, 2), Some(1));
    assert_eq!(chunk_size_for(usize::MAX, 2), Some(usize::MAX / 2));
    assert_eq!(chunk_size_for(usize::MAX, usize::MAX), Some(1));
}

#[test]
fn no_chunks_with_fewer_than_two_threads() {
    assert_eq!(chunk_size_for(8, 0), None);
    assert_eq!(chunk_size_for(8, 1), None);
    assert_eq!(chunk_size_for(usize::MAX, 1), None);
}

#[test]
fn no_chunks_with_fewer_than_two_elements() {
    assert_eq!(chunk_size_for(0, 4), None);
    assert_eq!(chunk_size_for(1, 2), None);
    assert_eq!(chunk_size_for(0, 0), None);
}

#[test]
fn no_chunks_with_more_than_twice_as_many_threads_as_elements() {
    assert_eq!(chunk_size_for(4, 9), None);
    assert_eq!(chunk_size_for(4, 10), None);
    assert_eq!(chunk_size_for(3, usize::MAX), None);
    assert_eq!(chunk_size_for(usize::MAX / 2, usize::MAX), None);
}

#[test]
fn no_chunks_where_a_chunk_would_be_empty() {
    assert_eq!(chunk_size_for(4, 5), None);
    assert_eq!(chunk_size_for(4, 8), None);
    assert_eq!(chunk_size_for(2, 3), None);
    assert_eq!(chunk_size_for(2, 4), None);
}

#[test]
fn partial_sums_takes_the_last_of_each_chunk() {
    assert_eq!(partial_sums(&[1, 3, 6, 4, 9, 15], 3), vec![6, 15]);
    assert_eq!(partial_sums(&[1, 3, 6, 4, 9, 15], 2), vec![3, 4, 15]);
    assert_eq!(partial_sums(&[1, 3, 6, 4, 9, 15], 1), vec![1, 3, 6, 4, 9, 15]);
    assert_eq!(partial_sums(&[1, 3, 6, 4, 9, 15], 6), vec![15]);
}

#[test]
fn partial_sums_reads_the_true_last_of_a_short_chunk() {
    assert_eq!(partial_sums(&[1, 3, 6, 4, 9, 15, 7], 3), vec![6, 15, 7]);
    assert_eq!(partial_sums(&[1, 3, 6, 4, 9, 15, 7, 8], 3), vec![6, 15, 8]);
    assert_eq!(partial_sums(&[1, 3], 5), vec![3]);
    assert_eq!(partial_sums(&[1, 3], usize::MAX), vec![3]);
}

#[test]
fn partial_sums_of_nothing_is_empty() {
    assert_eq!(partial_sums(&[], 4), Vec::<i32>::new());
}

#[test]
fn as_many_chunks_as_threads_where_the_length_divides() {
    for (len, threads) in [(8, 4), (8, 2), (9, 3), (100, 10), (6, 6)] {
        let size = chunk_size_for(len, threads).unwrap();
        let input = vec![1; len];
        assert_eq!(partial_sums(&input, size).len(), threads);
    }
}

#[test]
fn more_chunks_than_threads_where_the_length_does_not_divide() {
    for (len, threads, chunks) in [(10, 3, 4), (7, 2, 3), (5, 3, 5), (11, 4, 6), (99, 10, 11)] {
        let size = chunk_size_for(len, threads).unwrap();
        let input = vec![1; len];
        let count = partial_sums(&input, size).len();
        assert_eq!(count, chunks);
        assert!(threads < count && count < 2 * threads);
    }
}

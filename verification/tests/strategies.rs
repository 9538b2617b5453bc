use ssd::{
    dummy_input, four_at_a_time, regular_loop, straightforward_sum, strategies_agree,
    sum_using_iterator,
};

/// Buffer of length `n` holding 0, 1, 2, ... as bytes.
fn ramp(n: usize) -> Vec<u8> {
    let mut v = Vec::new();
    for i in 0..n {
        v.push((i % 256) as u8);
    }
    v
}

fn all_strategies(a: &[u8], b: &[u8]) -> [i32; 4] {
    [
        straightforward_sum(a, b),
        regular_loop(a, b),
        four_at_a_time(a, b),
        sum_using_iterator(a, b),
    ]
}

#[test]
fn sanity_check() {
    let mut buffer_a = dummy_input();
    buffer_a.reverse();
    let buffer_b = dummy_input();

    let correct_sum = straightforward_sum(&buffer_a, &buffer_b);
    assert_eq!(regular_loop(&buffer_a, &buffer_b), correct_sum);
    assert_eq!(four_at_a_time(&buffer_a, &buffer_b), correct_sum);
    assert_eq!(sum_using_iterator(&buffer_a, &buffer_b), correct_sum);
}

#[test]
fn pinned_benchmark_value() {
    let mut buffer_a = dummy_input();
    buffer_a.reverse();
    let buffer_b = dummy_input();

    for r in all_strategies(&buffer_a, &buffer_b) {
        assert_eq!(r, 106215000);
    }
}

#[test]
fn dummy_input_shape() {
    let buffer = dummy_input();
    assert_eq!(buffer.len(), 10000);
    assert_eq!(buffer[0], 0);
    assert_eq!(buffer[254], 254);
    assert_eq!(buffer[255], 0);
    assert_eq!(buffer[9999] as usize, 9999 % 255);
}

#[test]
fn exact_small_values() {
    let a = vec![1u8, 4u8];
    let b = vec![3u8, 1u8];
    for r in all_strategies(&a, &b) {
        assert_eq!(r, 13);
    }
    let a = vec![255u8];
    let b = vec![0u8];
    for r in all_strategies(&a, &b) {
        assert_eq!(r, 65025);
    }
}

#[test]
fn cross_strategy_equivalence() {
    for n in [0usize, 1, 2, 3, 4, 5, 7, 8, 9, 15, 16, 17, 100] {
        let a = ramp(n);
        let mut b = ramp(n);
        b.reverse();
        let results = all_strategies(&a, &b);
        for r in results {
            assert_eq!(r, results[0]);
        }
        assert!(strategies_agree(&a, &b));
    }
}

#[test]
fn zero_distance_identity() {
    let a = dummy_input();
    for r in all_strategies(&a, &a) {
        assert_eq!(r, 0);
    }
    let small = vec![7u8, 0u8, 255u8, 3u8, 9u8];
    for r in all_strategies(&small, &small) {
        assert_eq!(r, 0);
    }
}

#[test]
fn symmetry() {
    let mut a = dummy_input();
    a.reverse();
    let b = dummy_input();
    assert_eq!(
        straightforward_sum(&a, &b),
        straightforward_sum(&b, &a)
    );
    assert_eq!(regular_loop(&a, &b), regular_loop(&b, &a));
    assert_eq!(four_at_a_time(&a, &b), four_at_a_time(&b, &a));
    assert_eq!(sum_using_iterator(&a, &b), sum_using_iterator(&b, &a));
}

#[test]
fn non_negativity() {
    for n in [1usize, 10, 33, 1000] {
        let a = ramp(n);
        let b = vec![200u8; n];
        for r in all_strategies(&a, &b) {
            assert!(r >= 0);
        }
    }
}

#[test]
fn remainder_stride_3() {
    // Lengths 9, 10, 11 exercise remainder sizes 0, 1, 2 under stride 3.
    // Against the zero buffer the result is the sum of the first n squares.
    for (n, expected) in [(9usize, 204i32), (10, 285), (11, 385)] {
        let a = ramp(n);
        let b = vec![0u8; n];
        assert_eq!(regular_loop(&a, &b), expected);
        assert_eq!(sum_using_iterator(&a, &b), expected);
        assert_eq!(straightforward_sum(&a, &b), expected);
    }
}

#[test]
fn remainder_stride_4() {
    // Lengths 8 through 11 exercise remainder sizes 0 through 3 under stride 4.
    for (n, expected) in [(8usize, 140i32), (9, 204), (10, 285), (11, 385)] {
        let a = ramp(n);
        let b = vec![0u8; n];
        assert_eq!(four_at_a_time(&a, &b), expected);
        assert_eq!(straightforward_sum(&a, &b), expected);
    }
}

#[test]
fn empty_input() {
    let a: Vec<u8> = Vec::new();
    let b: Vec<u8> = Vec::new();
    for r in all_strategies(&a, &b) {
        assert_eq!(r, 0);
    }
}
